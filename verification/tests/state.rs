use wezzte_core::state::WidgetStateManager;
use wezzte_core::widgets::traits::WidgetValue;

fn num(s: &str) -> WidgetValue {
    WidgetValue::Number(s.to_string())
}

#[test]
fn test_state_manager_initialization() {
    let state_manager = WidgetStateManager::new();
    assert!(!state_manager.has_changes());
    assert_eq!(state_manager.widget_ids().len(), 0);
}

#[test]
fn test_value_updates() {
    let mut state_manager = WidgetStateManager::new();

    // A new value
    assert!(state_manager.update_value("test".to_string(), num("42")));
    assert!(state_manager.has_changes());
    assert!(state_manager.get_value("test").unwrap().same_as(&num("42")));

    // The same value changes nothing
    assert!(!state_manager.update_value("test".to_string(), num("42")));

    // A different value
    assert!(state_manager.update_value("test".to_string(), num("43")));
}

#[test]
fn test_state_changes_are_taken_in_order() {
    let mut m = WidgetStateManager::new();
    m.initialize_from_values(&vec![
        ("a".to_string(), num("1")),
        ("b".to_string(), WidgetValue::Boolean(true)),
    ]);
    assert!(!m.has_changes());
    assert_eq!(m.widget_ids(), vec!["a".to_string(), "b".to_string()]);
    assert!(!m.update_value("b".to_string(), WidgetValue::Boolean(true)));
    assert!(m.update_value("b".to_string(), WidgetValue::Boolean(false)));
    assert!(m.update_value("c".to_string(), WidgetValue::String("x".to_string())));
    assert!(m.update_value("b".to_string(), WidgetValue::Boolean(true)));
    assert!(m.get_value("a").unwrap().same_as(&num("1")));
    let changes = m.take_changes();
    assert_eq!(changes.len(), 2);
    assert_eq!(changes[0].0, "b");
    assert!(changes[0].1.same_as(&WidgetValue::Boolean(true)));
    assert_eq!(changes[1].0, "c");
    assert!(changes[1].1.same_as(&WidgetValue::String("x".to_string())));
    assert!(!m.has_changes());
    assert_eq!(m.widget_ids(), vec!["a".to_string(), "b".to_string(), "c".to_string()]);
    assert!(m.update_value("a".to_string(), num("2")));
    m.clear_changes();
    assert!(!m.has_changes());
    assert!(m.get_value("a").unwrap().same_as(&num("2")));
    assert!(m.get_value("zzz").is_none());
}

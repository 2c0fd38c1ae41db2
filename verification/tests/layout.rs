use wezzte_core::layout::{AutoLayoutGenerator, ContainerType, Layout, LayoutBuilder, LayoutContainer};
use wezzte_core::WezzteError;

#[test]
fn test_layout_container_creation() {
    let container = LayoutContainer::new("test".to_string(), "Test Container".to_string(), ContainerType::Section);

    assert_eq!(container.id, "test");
    assert_eq!(container.title, "Test Container");
    assert!(matches!(container.container_type, ContainerType::Section));
    assert!(container.expanded);
}

#[test]
fn test_layout_builder() {
    let layout = LayoutBuilder::new("Test Layout".to_string())
        .add_section("colors".to_string(), "Colors".to_string())
        .add_section("fonts".to_string(), "Fonts".to_string())
        .build();

    assert_eq!(layout.name, "Test Layout");
    assert_eq!(layout.root.children.len(), 2);

    let colors_section = layout.root.find_container("colors").unwrap();
    assert_eq!(colors_section.title, "Colors");
}

#[test]
fn test_auto_layout_section_title_formatting() {
    assert_eq!(AutoLayoutGenerator::format_section_title("config.colors"), "Colors");
    assert_eq!(AutoLayoutGenerator::format_section_title("config.font_settings"), "Font Settings");
    assert_eq!(AutoLayoutGenerator::format_section_title("config"), "General Settings");
}

#[test]
fn test_section_title_other_prefixes() {
    assert_eq!(AutoLayoutGenerator::format_section_title("config.tab-bar__x"), "Tab Bar X");
    assert_eq!(AutoLayoutGenerator::format_section_title("other.key"), "other.key");
}

#[test]
fn test_container_widget_management() {
    let mut container = LayoutContainer::new("test".to_string(), "Test".to_string(), ContainerType::Column);

    container.add_widget("widget1".to_string());
    container.add_widget("widget2".to_string());
    container.add_widget("widget1".to_string());

    assert_eq!(container.widgets.len(), 2);
    assert!(container.widgets.contains(&"widget1".to_string()));
    assert!(container.widgets.contains(&"widget2".to_string()));
}

#[test]
fn test_layout_edits() {
    let mut layout = Layout::new("L".to_string());
    let grid = LayoutContainer::new("g".to_string(), "Grid".to_string(), ContainerType::Grid { columns: 3 });
    layout.add_container_to_parent("root", grid).unwrap();
    layout.add_widget_to_container("g", "w1".to_string()).unwrap();
    layout.add_widget_to_container("root", "w0".to_string()).unwrap();
    assert_eq!(layout.all_widget_ids(), vec!["w0".to_string(), "w1".to_string()]);
    assert_eq!(
        layout.add_widget_to_container("missing", "w".to_string()),
        Err(WezzteError::Config { message: "Container 'missing' not found".to_string() })
    );
    assert_eq!(
        layout.add_container_to_parent(
            "nope",
            LayoutContainer::new("x".to_string(), "X".to_string(), ContainerType::Card)
        ),
        Err(WezzteError::Config { message: "Parent container 'nope' not found".to_string() })
    );
    assert!(layout.find_container("g").unwrap().container_type == ContainerType::Grid { columns: 3 });
    let mut c = LayoutContainer::new("t".to_string(), "T".to_string(), ContainerType::Tabs);
    assert!(c.is_empty());
    c.toggle_expanded();
    assert!(!c.expanded);
    c.set_property("k".to_string(), serde_json::Value::Bool(true));
    c.set_property("k".to_string(), serde_json::Value::Bool(false));
    assert_eq!(c.properties.len(), 1);
    assert_eq!(c.get_property("k"), Some(&serde_json::Value::Bool(false)));
    assert!(c.get_property("z").is_none());
}

#[test]
fn test_auto_layout_generation() {
    let widgets = vec![
        ("widget-font-size".to_string(), "config.font_size".to_string()),
        ("widget-colors-background".to_string(), "config.colors.background".to_string()),
        ("widget-colors-foreground".to_string(), "config.colors.foreground".to_string()),
        ("widget-max-fps".to_string(), "config.max_fps".to_string()),
    ];
    let groups = AutoLayoutGenerator::group_widgets_by_prefix(&widgets);
    assert_eq!(groups.len(), 2);
    assert_eq!(groups[0].0, "config");
    assert_eq!(groups[0].1, vec!["widget-font-size", "widget-max-fps"]);
    assert_eq!(groups[1].0, "config.colors");

    let layout = AutoLayoutGenerator::generate_layout(&widgets);
    assert_eq!(layout.name, "Auto-Generated Layout");
    assert!(layout.root.widgets.is_empty());
    assert_eq!(layout.root.children.len(), 3);
    let fonts = &layout.root.children[0];
    assert_eq!(fonts.id, "section-fonts");
    assert_eq!(fonts.title, "Fonts");
    assert_eq!(fonts.widgets, vec!["widget-font-size"]);
    let colors = layout.root.find_container("section-colors").unwrap();
    assert_eq!(colors.title, "Colors");
    assert_eq!(colors.widgets, vec!["widget-colors-background", "widget-colors-foreground"]);
    let general = layout.root.find_container("section-general").unwrap();
    assert_eq!(general.title, "General Settings");
    assert_eq!(general.widgets, vec!["widget-max-fps"]);

    let single = vec![("w".to_string(), "config.a.b".to_string())];
    let l = AutoLayoutGenerator::generate_layout(&single);
    assert!(l.root.widgets.is_empty());
    assert_eq!(l.root.children.len(), 1);
    assert_eq!(l.root.children[0].id, "section-general");
    assert_eq!(l.root.children[0].widgets, vec!["w"]);
    assert_eq!(AutoLayoutGenerator::config_key_prefix("config.a.b.c"), "config.a");
    assert_eq!(AutoLayoutGenerator::config_key_prefix("plain"), "plain");
    assert_eq!(AutoLayoutGenerator::config_key_prefix("other.x"), "other.x");
}

#[test]
fn test_auto_layout_places_every_widget() {
    let widgets = vec![
        ("a".to_string(), "config.x".to_string()),
        ("b".to_string(), "config.colors.bg".to_string()),
        ("c".to_string(), "other.key".to_string()),
        ("d".to_string(), "config.colors.fg".to_string()),
        ("e".to_string(), "plain".to_string()),
    ];
    let layout = AutoLayoutGenerator::generate_layout(&widgets);
    let ids = layout.all_widget_ids();
    for (id, _) in &widgets {
        assert!(ids.contains(id));
    }
    assert_eq!(ids.len(), widgets.len());
}

#[test]
fn test_layout_builder_tabs_grid_and_widgets() {
    let layout = LayoutBuilder::new("L".to_string())
        .add_tabs("tabs".to_string(), "Tabs".to_string())
        .add_grid("grid".to_string(), "Grid".to_string(), 3)
        .add_widget_to("grid", "w1".to_string())
        .unwrap()
        .add_widget_to("root", "w0".to_string())
        .unwrap()
        .build();
    assert_eq!(layout.root.children.len(), 2);
    assert!(matches!(layout.root.children[0].container_type, ContainerType::Tabs));
    assert!(matches!(layout.root.children[1].container_type, ContainerType::Grid { columns: 3 }));
    assert_eq!(layout.root.children[1].widgets, vec!["w1".to_string()]);
    assert_eq!(layout.root.widgets, vec!["w0".to_string()]);
    let err = LayoutBuilder::new("L".to_string()).add_widget_to("nope", "w".to_string());
    match err {
        Err(WezzteError::Config { message }) => assert_eq!(message, "Container 'nope' not found"),
        _ => panic!("expected a config error"),
    }
}

#[test]
fn test_layout_metadata_replaces_by_key() {
    let mut layout = Layout::new("L".to_string());
    layout.set_metadata("a".to_string(), serde_json::Value::Bool(true));
    layout.set_metadata("b".to_string(), serde_json::Value::Bool(true));
    layout.set_metadata("a".to_string(), serde_json::Value::Bool(false));
    assert_eq!(layout.metadata.len(), 2);
    assert_eq!(layout.metadata[0], ("a".to_string(), serde_json::Value::Bool(false)));
    assert_eq!(layout.metadata[1], ("b".to_string(), serde_json::Value::Bool(true)));
}

#[test]
fn test_auto_layout_readme_sections() {
    let widgets = vec![
        ("widget-font-size".to_string(), "config.font_size".to_string()),
        ("widget-font".to_string(), "config.font".to_string()),
        ("widget-tab".to_string(), "config.colors.tab_bar.active_tab.bg_color".to_string()),
        ("widget-opacity".to_string(), "config.window_background_opacity".to_string()),
        ("widget-scheme".to_string(), "config.color_scheme".to_string()),
        ("widget-bg".to_string(), "config.colors.background".to_string()),
    ];
    let layout = AutoLayoutGenerator::generate_layout(&widgets);
    let titles: Vec<&str> = layout.root.children.iter().map(|c| c.title.as_str()).collect();
    assert_eq!(titles, vec!["Fonts", "Colors", "Window", "General Settings"]);
    let fonts = layout.root.find_container("section-fonts").unwrap();
    assert_eq!(fonts.widgets, vec!["widget-font-size", "widget-font"]);
    let colors = layout.root.find_container("section-colors").unwrap();
    assert_eq!(colors.widgets, vec!["widget-tab", "widget-bg"]);
    let window = layout.root.find_container("section-window").unwrap();
    assert_eq!(window.widgets, vec!["widget-opacity"]);
    let general = layout.root.find_container("section-general").unwrap();
    assert_eq!(general.widgets, vec!["widget-scheme"]);
}

use wezzte_core::ast::ParamMap;
use wezzte_core::parser::parse_decorator_line;
use wezzte_core::widgets::factory::WidgetFactory;
use wezzte_core::widgets::implementations::color_picker::{ColorFormat, ColorPickerWidget};
use wezzte_core::widgets::implementations::numerical::NumericalWidget;
use wezzte_core::widgets::implementations::select::SelectWidget;
use wezzte_core::widgets::implementations::theme_selector::{Theme, ThemeSelectorWidget};
use wezzte_core::widgets::metadata::{CoreWidgets, WidgetMetadata, WidgetProperty};
use wezzte_core::widgets::registry::{register_core_widgets, WidgetKind, WidgetRegistry};
use wezzte_core::widgets::traits::{WidgetConfig, WidgetValue};
use wezzte_core::WezzteError;

fn string_value(s: &str) -> WidgetValue {
    WidgetValue::String(s.to_string())
}

fn number(text: &str) -> WidgetValue {
    WidgetValue::Number(text.to_string())
}

fn theme_config(value: WidgetValue) -> WidgetConfig {
    WidgetConfig {
        id: "test".to_string(),
        config_key: "config.theme".to_string(),
        label: "Theme".to_string(),
        current_value: value,
        parameters: ParamMap::new(),
        tooltip: None,
        enabled: true,
    }
}

// ---------------------------------------------------------------- factory

#[test]
fn test_widget_id_generation() {
    assert_eq!(WidgetFactory::generate_widget_id("config.font_size"), "widget-font-size");
    assert_eq!(
        WidgetFactory::generate_widget_id("config.colors.background"),
        "widget-colors-background"
    );
}

#[test]
fn test_config_value_parsing() {
    let annotation = parse_decorator_line("-- @ui: slider(min=0, max=100) type=int").unwrap();

    let value = WidgetFactory::parse_config_value("42", &annotation).unwrap();
    assert!(value.same_as(&number("42")));

    let string_annotation = parse_decorator_line("-- @ui: text type=string").unwrap();
    let string_value = WidgetFactory::parse_config_value("\"hello world\"", &string_annotation).unwrap();
    assert!(string_value.same_as(&WidgetValue::String("hello world".to_string())));
}

#[test]
fn test_config_lines_and_color_parts() {
    let entries = vec![
        ("config.font_size".to_string(), "14".to_string()),
        ("config.theme".to_string(), "\"Dark\"".to_string()),
    ];
    assert_eq!(
        wezzte_core::widgets::factory::generate_config_lines(&entries),
        "config.font_size = 14\nconfig.theme = \"Dark\""
    );
    assert_eq!(wezzte_core::widgets::factory::generate_config_lines(&Vec::new()), "");

    assert_eq!(
        ColorPickerWidget::rgba_parts("rgba(248, 248, 242, 1.0)"),
        Some((248, 248, 242, "1.0".to_string()))
    );
    assert_eq!(ColorPickerWidget::rgba_parts("rgba(256, 0, 0, 1)"), None);
    assert_eq!(ColorPickerWidget::rgba_parts("rgba(1, 2, 3)"), None);
    assert_eq!(ColorPickerWidget::rgba_parts("rgb(1, 2, 3, 4)"), None);
    assert_eq!(
        ColorPickerWidget::hsl_parts("hsl(250, 100%, 80%)"),
        Some(("250".to_string(), "100%".to_string(), "80%".to_string()))
    );
    assert_eq!(ColorPickerWidget::hsl_parts("hsl(1, 2)"), None);
}

#[test]
fn test_float_values_take_their_display_text() {
    let float = parse_decorator_line("-- @ui: slider(min=0, max=1)").unwrap();
    let shown = |t: &str| match WidgetFactory::parse_config_value(t, &float).unwrap() {
        WidgetValue::Number(text) => text,
        other => panic!("expected a number, got {:?}", other),
    };
    assert_eq!(shown("1.0"), "1");
    assert_eq!(shown("+1.50"), "1.5");
    assert_eq!(shown("-0.0"), "0");
    assert_eq!(shown("-2.500"), "-2.5");
    assert_eq!(shown("007.25"), "7.25");
    assert_eq!(shown(".5"), "0.5");
    assert_eq!(shown("0.95"), "0.95");
    assert_eq!(shown("1e3"), "1000");
    assert_eq!(shown("25e-3"), "0.025");
    assert_eq!(shown("1.5E+2"), "150");
    assert_eq!(shown("-0e7"), "0");
    assert_eq!(shown("1e20"), "1e20");
    assert_eq!(shown("1.0000000000000001"), "1.0000000000000001");
    for t in ["1.0", "+1.50", "-0.0", "-2.500", "007.25", ".5", "0.95", "123456789.012345", "1e3", "25e-3", "1.5E+2", "7e-300", "-12.5e10"] {
        let f: f64 = t.parse().unwrap();
        let display = if f.fract() == 0.0 { format!("{}", f as i64) } else { format!("{}", f) };
        assert_eq!(shown(t), display);
    }
}

#[test]
fn test_config_value_kinds() {
    let int = parse_decorator_line("-- @ui: slider(min=0, max=100) type=int").unwrap();
    assert!(WidgetFactory::parse_config_value(" -007 ", &int).unwrap().same_as(&number("-7")));
    assert!(WidgetFactory::parse_config_value("+5", &int).unwrap().same_as(&number("5")));
    assert!(WidgetFactory::parse_config_value("wezterm.font(\"x\")", &int)
        .unwrap()
        .same_as(&string_value("wezterm.font(\"x\")")));
    assert_eq!(
        WidgetFactory::parse_config_value("1.5", &int).unwrap_err(),
        WezzteError::InvalidParameter {
            param: "value".to_string(),
            message: "cannot parse '1.5' as integer".to_string()
        }
    );
    assert!(WidgetFactory::parse_config_value("9223372036854775808", &int).is_err());
    assert!(WidgetFactory::parse_config_value("-9223372036854775808", &int).is_ok());

    let float = parse_decorator_line("-- @ui: slider(min=0, max=1)").unwrap();
    assert!(WidgetFactory::parse_config_value("1.29", &float).unwrap().same_as(&number("1.29")));
    assert!(WidgetFactory::parse_config_value(".5e-3", &float).unwrap().same_as(&number("0.0005")));
    assert!(WidgetFactory::parse_config_value("-Infinity", &float).is_ok());
    assert!(WidgetFactory::parse_config_value("1.", &float).unwrap().same_as(&number("1")));
    assert_eq!(
        WidgetFactory::parse_config_value("1e", &float).unwrap_err(),
        WezzteError::InvalidParameter {
            param: "value".to_string(),
            message: "cannot parse '1e' as number".to_string()
        }
    );
    assert!(WidgetFactory::parse_config_value(".", &float).is_err());

    let boolean = parse_decorator_line("-- @ui: toggle type=bool").unwrap();
    assert!(WidgetFactory::parse_config_value(" TRUE", &boolean).unwrap().same_as(&WidgetValue::Boolean(true)));
    assert!(WidgetFactory::parse_config_value("false", &boolean).unwrap().same_as(&WidgetValue::Boolean(false)));
    assert_eq!(
        WidgetFactory::parse_config_value("yes", &boolean).unwrap_err(),
        WezzteError::InvalidParameter {
            param: "value".to_string(),
            message: "cannot parse 'yes' as boolean".to_string()
        }
    );

    let color = parse_decorator_line("-- @ui: color_picker type=color").unwrap();
    assert!(WidgetFactory::parse_config_value("\"#333333\"", &color).unwrap().same_as(&string_value("#333333")));
    assert!(WidgetFactory::parse_config_value("#333333", &color).unwrap().same_as(&string_value("#333333")));
}

// ------------------------------------------------------------ values, labels

#[test]
fn test_widget_value_config_string() {
    assert_eq!(WidgetValue::String("test".to_string()).to_config_string(), "\"test\"");
    assert_eq!(number("42").to_config_string(), "42");
    assert_eq!(number("42.5").to_config_string(), "42.5");
    assert_eq!(WidgetValue::Boolean(true).to_config_string(), "true");
    assert_eq!(WidgetValue::Color("#ff0000".to_string()).to_config_string(), "\"#ff0000\"");
}

#[test]
fn test_nested_value_config_string() {
    let v = WidgetValue::List(vec![number("1"), string_value("a"), WidgetValue::Boolean(false)]);
    assert_eq!(v.to_config_string(), "[1, \"a\", false]");
    let o = WidgetValue::Object(vec![("k".to_string(), number("2")), ("j".to_string(), v.copy())]);
    assert_eq!(o.to_config_string(), "{k: 2, j: [1, \"a\", false]}");
    assert_eq!(o.kind_name(), "object");
    assert!(o.same_as(&o.copy()));
    assert!(!o.same_as(&v));
}

#[test]
fn test_label_generation() {
    assert_eq!(WidgetConfig::generate_label("config.font_size"), "Font Size");
    assert_eq!(WidgetConfig::generate_label("config.colors.background"), "Colors › Background");
    assert_eq!(
        WidgetConfig::generate_label("config.colors.tab_bar.active_tab.bg_color"),
        "Colors › Tab Bar › Active Tab › Bg Color"
    );
}

#[test]
fn test_label_without_dot() {
    assert_eq!(WidgetConfig::generate_label("plain"), "plain");
}

#[test]
fn test_humanize_key() {
    assert_eq!(WidgetConfig::humanize_key("font_size"), "Font Size");
    assert_eq!(WidgetConfig::humanize_key("background_color"), "Background Color");
    assert_eq!(WidgetConfig::humanize_key("simple"), "Simple");
}

// ----------------------------------------------------------------- select

#[test]
fn test_select_creation() {
    let annotation = parse_decorator_line(r##"-- @ui: select(options="Dark, Light, Auto") type=string"##).unwrap();
    let select = SelectWidget::from_annotation(
        "test-select".to_string(),
        "config.theme".to_string(),
        &annotation,
        string_value("Dark"),
    )
    .unwrap();

    assert_eq!(select.options(), &vec!["Dark".to_string(), "Light".to_string(), "Auto".to_string()]);
    assert!(!select.allow_custom());
    assert_eq!(select.string_value(), "Dark");
    assert_eq!(select.config().label, "Theme");
}

#[test]
fn test_select_options_parsing() {
    let options = SelectWidget::parse_options("Dark, Light, Auto");
    assert_eq!(options, vec!["Dark", "Light", "Auto"]);

    let options_with_spaces = SelectWidget::parse_options("  Dark  ,  Light  ,  Auto  ");
    assert_eq!(options_with_spaces, vec!["Dark", "Light", "Auto"]);

    let empty_options = SelectWidget::parse_options("");
    assert!(empty_options.is_empty());
}

#[test]
fn test_select_value_setting() {
    let annotation = parse_decorator_line(r##"-- @ui: select(options="Red, Green, Blue") type=string"##).unwrap();
    let mut select = SelectWidget::from_annotation(
        "test-select".to_string(),
        "config.color".to_string(),
        &annotation,
        string_value("Red"),
    )
    .unwrap();

    select.set_value(string_value("Green")).unwrap();
    assert_eq!(select.string_value(), "Green");
    assert!(select.has_changed());

    let result = select.set_value(string_value("Purple"));
    assert!(result.is_err());
    assert_eq!(
        result.unwrap_err(),
        WezzteError::InvalidParameter {
            param: "value".to_string(),
            message: "value 'Purple' is not in allowed options: Red, Green, Blue".to_string()
        }
    );
    assert_eq!(select.string_value(), "Green");

    let result = select.set_value(number("42"));
    assert!(result.is_err());

    select.reset().unwrap();
    assert_eq!(select.string_value(), "Red");
    assert!(!select.has_changed());
}

#[test]
fn test_select_custom_values() {
    let annotation =
        parse_decorator_line(r##"-- @ui: select(options="Red, Green, Blue", allow_custom=true) type=string"##).unwrap();
    let mut select = SelectWidget::from_annotation(
        "test-select".to_string(),
        "config.color".to_string(),
        &annotation,
        string_value("Red"),
    )
    .unwrap();

    assert!(select.allow_custom());

    select.set_value(string_value("Purple")).unwrap();
    assert_eq!(select.string_value(), "Purple");
}

#[test]
fn test_select_validation() {
    let annotation = parse_decorator_line(r##"-- @ui: select(options="Yes, No") type=string"##).unwrap();
    let select = SelectWidget::from_annotation(
        "test-select".to_string(),
        "config.enabled".to_string(),
        &annotation,
        string_value("Yes"),
    )
    .unwrap();

    assert!(select.validate_value(&string_value("Yes")).is_ok());
    assert!(select.validate_value(&string_value("No")).is_ok());

    assert!(select.validate_value(&string_value("Maybe")).is_err());
    assert!(select.validate_value(&number("1")).is_err());
}

#[test]
fn test_select_creation_errors() {
    let no_options = parse_decorator_line("-- @ui: select(choices=\"a\", options=1) type=string").unwrap();
    assert_eq!(
        SelectWidget::from_annotation("s".to_string(), "config.s".to_string(), &no_options, string_value("a")).unwrap_err(),
        WezzteError::MissingParameter { param: "options".to_string() }
    );
    let annotation = parse_decorator_line(r##"-- @ui: select(options="a, b") type=string"##).unwrap();
    assert_eq!(
        SelectWidget::from_annotation("s".to_string(), "config.s".to_string(), &annotation, number("1")).unwrap_err(),
        WezzteError::InvalidParameter {
            param: "current_value".to_string(),
            message: "select widget requires string value".to_string()
        }
    );
    let blank = parse_decorator_line(r##"-- @ui: select(options=" , ") type=string"##).unwrap();
    assert_eq!(
        SelectWidget::from_annotation("s".to_string(), "config.s".to_string(), &blank, string_value("a")).unwrap_err(),
        WezzteError::InvalidParameter {
            param: "options".to_string(),
            message: "select widget must have at least one option".to_string()
        }
    );
}

#[test]
fn test_select_render_data() {
    let annotation = parse_decorator_line(r##"-- @ui: select(options="Small, Medium, Large") type=string"##).unwrap();
    let select = SelectWidget::from_annotation(
        "test-select".to_string(),
        "config.size".to_string(),
        &annotation,
        string_value("Medium"),
    )
    .unwrap();

    let data = select.render_data();
    assert_eq!(data.options, vec!["Small", "Medium", "Large"]);
    assert_eq!(data.current_value, "Medium");
    assert!(!data.allow_custom);
    assert_eq!(data.placeholder, Some(String::new()));
}

// ----------------------------------------------------------- color picker

#[test]
fn test_color_picker_creation() {
    let annotation = parse_decorator_line(r##"-- @ui: color_picker(format="hex", alpha=false) type=color"##).unwrap();
    let color_picker = ColorPickerWidget::from_annotation(
        "test-color".to_string(),
        "config.color".to_string(),
        &annotation,
        string_value("#ff0000"),
    )
    .unwrap();

    assert_eq!(color_picker.format(), ColorFormat::Hex);
    assert!(!color_picker.alpha_enabled());
    assert_eq!(color_picker.color_string(), "#ff0000");
}

#[test]
fn color_picker_test_hex_color_parsing() {
    let color = ColorPickerWidget::parse_hex_color("#ff0000").unwrap();
    assert_eq!(color.r, 255);
    assert_eq!(color.g, 0);
    assert_eq!(color.b, 0);
    assert_eq!(color.alpha as f32 / 255.0, 1.0);

    let color_with_alpha = ColorPickerWidget::parse_hex_color("#ff000080").unwrap();
    assert_eq!(color_with_alpha.r, 255);
    assert_eq!(color_with_alpha.g, 0);
    assert_eq!(color_with_alpha.b, 0);
    assert!((color_with_alpha.alpha as f32 / 255.0 - 0.5).abs() < 0.01);
    assert_eq!(color_with_alpha.hex, "#ff000080");

    assert!(ColorPickerWidget::parse_hex_color("invalid").is_none());
    assert!(ColorPickerWidget::parse_hex_color("#gggggg").is_none());
}

#[test]
fn test_rgb_color_parsing() {
    let c = ColorPickerWidget::parse_rgb_color("rgb(255, 16, +1)").unwrap();
    assert_eq!((c.r, c.g, c.b, c.alpha), (255, 16, 1, 255));
    assert_eq!(c.hex, "#ff1001");
    assert!(ColorPickerWidget::parse_rgb_color("rgb(256, 0, 0)").is_none());
    assert!(ColorPickerWidget::parse_rgb_color("rgb(1, 2)").is_none());
    assert!(ColorPickerWidget::parse_rgb_color("rgba(1, 2, 3, 0.5)").is_none());
}

#[test]
fn test_color_validation() {
    let annotation = parse_decorator_line(r##"-- @ui: color_picker(format="hex", alpha=false) type=color"##).unwrap();
    let color_picker = ColorPickerWidget::from_annotation(
        "test-color".to_string(),
        "config.color".to_string(),
        &annotation,
        string_value("#000000"),
    )
    .unwrap();

    assert!(color_picker.validate_value(&string_value("#ff0000")).is_ok());
    assert!(color_picker.validate_value(&string_value("#123ABC")).is_ok());

    assert!(color_picker.validate_value(&string_value("ff0000")).is_err());
    assert!(color_picker.validate_value(&string_value("#ff00")).is_err());
    assert!(color_picker.validate_value(&string_value("#gggggg")).is_err());
    assert!(color_picker.validate_value(&string_value("#ff000080")).is_err());

    assert!(color_picker.validate_value(&number("255")).is_err());
}

#[test]
fn test_color_validation_messages() {
    let annotation = parse_decorator_line(r##"-- @ui: color_picker(format="RGB") type=color"##).unwrap();
    let picker = ColorPickerWidget::from_annotation(
        "c".to_string(),
        "config.c".to_string(),
        &annotation,
        string_value("rgb(1, 2, 3)"),
    )
    .unwrap();
    assert_eq!(picker.format(), ColorFormat::Rgb);
    assert_eq!(
        picker.validate_color_string("#fff").unwrap_err(),
        WezzteError::InvalidParameter {
            param: "color".to_string(),
            message: "RGB colors must be in format rgb(r, g, b)".to_string()
        }
    );
    let hex = parse_decorator_line("-- @ui: color_picker type=color").unwrap();
    let hex_picker =
        ColorPickerWidget::from_annotation("c".to_string(), "config.c".to_string(), &hex, string_value("#abcdef"))
            .unwrap();
    assert_eq!(
        hex_picker.validate_color_string("#éééé").unwrap_err(),
        WezzteError::InvalidParameter {
            param: "color".to_string(),
            message: "hex colors must contain only hexadecimal characters".to_string()
        }
    );
    assert_eq!(
        hex_picker.validate_color_string("#abc").unwrap_err(),
        WezzteError::InvalidParameter {
            param: "color".to_string(),
            message: "hex colors must be 6 or 8 characters after #".to_string()
        }
    );
}

#[test]
fn test_color_format_names() {
    for f in [ColorFormat::Hex, ColorFormat::Rgb, ColorFormat::Rgba, ColorFormat::Hsl, ColorFormat::Hsla] {
        assert_eq!(ColorFormat::from_str(f.as_str()), f);
    }
    assert_eq!(ColorFormat::from_str("HSLA"), ColorFormat::Hsla);
    assert_eq!(ColorFormat::from_str("cmyk"), ColorFormat::Hex);
}

#[test]
fn test_color_with_alpha() {
    let annotation = parse_decorator_line(r##"-- @ui: color_picker(format="hex", alpha=true) type=color"##).unwrap();
    let color_picker = ColorPickerWidget::from_annotation(
        "test-color".to_string(),
        "config.color".to_string(),
        &annotation,
        string_value("#ff000080"),
    )
    .unwrap();

    assert!(color_picker.alpha_enabled());
    assert!(color_picker.validate_value(&string_value("#ff000080")).is_ok());
}

// ---------------------------------------------------------- theme selector

#[test]
fn test_builtin_themes() {
    let themes = Theme::builtin_themes();
    assert!(!themes.is_empty());

    let dracula = themes.iter().find(|t| t.name == "dracula").unwrap();
    assert_eq!(dracula.display_name, "Dracula");
    assert!(dracula.is_dark);
    assert!(dracula.colors.iter().any(|(k, _)| k == "background"));
}

#[test]
fn test_find_theme() {
    let t = Theme::find_theme("solarized-light").unwrap();
    assert!(!t.is_dark);
    assert_eq!(t.author, Some("Ethan Schoonover".to_string()));
    assert!(Theme::find_theme("nope").is_none());
}

#[test]
fn test_theme_selector_creation() {
    let annotation = parse_decorator_line(r##"-- @ui: theme_selector(themes="builtin") type=string"##).unwrap();
    let theme_selector = ThemeSelectorWidget::from_annotation(
        "test-theme".to_string(),
        "config.color_scheme".to_string(),
        &annotation,
        string_value("dracula"),
    )
    .unwrap();

    assert_eq!(theme_selector.current_theme_name(), "dracula");
    assert!(theme_selector.current_theme().is_some());
    assert!(!theme_selector.allow_custom());
}

#[test]
fn test_theme_validation() {
    let themes = Theme::builtin_themes();
    let theme_selector = ThemeSelectorWidget::new(theme_config(string_value("dracula")), themes, false).unwrap();

    assert!(theme_selector.validate_value(&string_value("dracula")).is_ok());
    assert!(theme_selector.validate_value(&string_value("nonexistent")).is_err());
    assert!(theme_selector.validate_value(&number("42")).is_err());
    assert_eq!(
        theme_selector.validate_theme_name("nonexistent").unwrap_err(),
        WezzteError::InvalidParameter {
            param: "theme_name".to_string(),
            message: "theme 'nonexistent' not found in available themes".to_string()
        }
    );
}

#[test]
fn test_theme_filtering() {
    let themes = Theme::builtin_themes();
    let theme_selector = ThemeSelectorWidget::new(theme_config(string_value("dracula")), themes, false).unwrap();

    let dark_themes = theme_selector.filter_themes(Some(true));
    let light_themes = theme_selector.filter_themes(Some(false));
    let all_themes = theme_selector.filter_themes(None);

    assert!(!dark_themes.is_empty());
    assert!(!light_themes.is_empty());
    assert_eq!(all_themes.len(), theme_selector.available_themes().len());

    assert!(dark_themes.iter().all(|t| t.is_dark));
    assert!(light_themes.iter().all(|t| !t.is_dark));
    assert_eq!(dark_themes.len() + light_themes.len(), all_themes.len());
}

#[test]
fn test_theme_preview_colors() {
    let themes = Theme::builtin_themes();
    let theme_selector = ThemeSelectorWidget::new(theme_config(string_value("dracula")), themes, false).unwrap();

    if let Some(theme) = theme_selector.current_theme() {
        let preview_colors = theme_selector.get_preview_colors(&theme);
        assert!(!preview_colors.is_empty());

        assert!(preview_colors.iter().any(|(key, _)| key == "background"));
        assert!(preview_colors.iter().any(|(key, _)| key == "foreground"));
        let keys: Vec<&str> = preview_colors.iter().map(|(k, _)| k.as_str()).collect();
        assert_eq!(keys, vec!["background", "foreground", "red", "green", "blue", "yellow"]);
        assert_eq!(preview_colors[0].1, "#282a36");
    } else {
        panic!("dracula is a built-in theme");
    }
}

#[test]
fn test_theme_selector_values() {
    let mut w = ThemeSelectorWidget::new(theme_config(string_value("dracula")), Theme::builtin_themes(), false).unwrap();
    w.set_value(string_value("tokyonight")).unwrap();
    assert!(w.has_changed());
    assert_eq!(w.render_data().current_theme.unwrap().display_name, "Tokyo Night");
    assert!(w.set_value(string_value("unknown")).is_err());
    assert_eq!(w.current_theme_name(), "tokyonight");
    w.reset().unwrap();
    assert_eq!(w.current_theme_name(), "dracula");
    assert!(ThemeSelectorWidget::new(theme_config(number("1")), Vec::new(), true).is_err());
}

// -------------------------------------------------------------- numerical

#[test]
fn test_numerical_widget() {
    let annotation = parse_decorator_line("-- @ui: numerical(min=0, max=9) type=int").unwrap();
    let mut w =
        NumericalWidget::from_annotation("n".to_string(), "config.n".to_string(), &annotation, number("3")).unwrap();
    assert!(w.set_value(number("4")).is_ok());
    assert_eq!(w.to_config_string(), "4");
    assert!(w.has_changed());
    assert_eq!(
        w.set_value(string_value("x")).unwrap_err(),
        WezzteError::InvalidParameter {
            param: "value".to_string(),
            message: "numerical widget requires number".to_string()
        }
    );
    w.reset().unwrap();
    assert_eq!(w.to_config_string(), "3");
    assert!(!w.has_changed());
}

// --------------------------------------------------------------- metadata

#[test]
fn test_widget_property_creation() {
    let prop = WidgetProperty::number("min", "Minimum value", Some("0.0"), Some("100.0"), Some("1.0")).required();

    assert_eq!(prop.name, "min");
    assert_eq!(prop.data_type, "number");
    assert!(prop.required);
    assert_eq!(prop.constraints.len(), 4);
}

#[test]
fn test_core_widgets_metadata() {
    let slider = CoreWidgets::slider();
    assert_eq!(slider.widget_type, "slider");
    assert!(slider.core);

    let min_prop = slider.get_property("min").unwrap();
    assert!(min_prop.required);

    let step_prop = slider.get_property("step").unwrap();
    assert!(!step_prop.required);
    assert!(step_prop.default_value.is_some());
}

#[test]
fn test_generate_docs() {
    let slider = CoreWidgets::slider();
    let docs = slider.generate_docs();

    assert!(docs.contains("# Slider"));
    assert!(docs.contains("## Properties"));
    assert!(docs.contains("## Examples"));
    assert!(docs.contains("Font Size Slider"));
}

#[test]
fn test_generate_docs_exact() {
    let m = WidgetMetadata::new("x", "X", "Desc", "Cat")
        .with_property(WidgetProperty::options("o", "Opt", vec!["a", "b"]).required());
    assert_eq!(m.generate_docs(), "# X\n\nDesc\n\n## Properties\n\n- **o** (string): Opt\n  - Required\n  - Options: a, b\n\n");
    assert_eq!(m.required_properties().len(), 1);
    assert_eq!(CoreWidgets::all().len(), 4);
}

// --------------------------------------------------------------- registry

#[test]
fn test_registry_registration() {
    let mut registry = WidgetRegistry::new();
    let metadata = WidgetMetadata::new("numerical", "Mock Widget", "A mock widget for testing", "Test");

    assert!(registry.register(WidgetKind::Numerical, metadata).is_ok());
    assert!(registry.is_registered("numerical"));

    let types = registry.registered_types();
    assert!(types.contains(&"numerical".to_string()));
}

#[test]
fn test_duplicate_registration() {
    let mut registry = WidgetRegistry::new();
    let metadata = WidgetMetadata::new("numerical", "Mock Widget", "A mock widget for testing", "Test");

    assert!(registry.register(WidgetKind::Numerical, metadata.copy()).is_ok());
    assert!(registry.register(WidgetKind::Numerical, metadata).is_err());
}

#[test]
fn test_widget_creation() {
    let mut registry = WidgetRegistry::new();
    let metadata = WidgetMetadata::new("numerical", "Mock Widget", "A mock widget for testing", "Test");
    registry.register(WidgetKind::Numerical, metadata).unwrap();

    let annotation = parse_decorator_line("-- @ui: numerical type=string").unwrap();
    let kind = registry.resolve(&annotation);
    assert_eq!(kind, Ok(WidgetKind::Numerical));
    let widget = NumericalWidget::from_annotation(
        "test-id".to_string(),
        "config.test".to_string(),
        &annotation,
        string_value("test"),
    );

    assert!(widget.is_ok());
    let widget = widget.unwrap();
    assert_eq!(widget.config().id, "test-id");
    assert_eq!(widget.config().config_key, "config.test");
}

#[test]
fn test_registry_errors_and_core_widgets() {
    let mut registry = WidgetRegistry::new();
    assert_eq!(
        registry.register(WidgetKind::Select, WidgetMetadata::new("slider", "S", "d", "c")),
        Err(WezzteError::Config {
            message: "Widget metadata type 'slider' doesn't match UI type 'select'".to_string()
        })
    );
    register_core_widgets(&mut registry).unwrap();
    assert_eq!(
        WidgetFactory::registered_types(&registry),
        vec!["slider", "select", "color_picker", "theme_selector"]
    );
    assert!(WidgetFactory::is_registered(&registry, "theme_selector"));
    assert!(!WidgetFactory::is_registered(&registry, "numerical"));
    assert!(register_core_widgets(&mut registry).is_err());

    let mut params = ParamMap::new();
    params.insert("min".to_string(), wezzte_core::ast::ParamValue::Number("0".to_string()));
    let missing = wezzte_core::ast::Annotation::new(wezzte_core::ast::UiType::Slider, params);
    assert_eq!(
        registry.resolve(&missing),
        Err(WezzteError::MissingParameter { param: "max (required by Slider widget)".to_string() })
    );
    let unknown = parse_decorator_line("-- @ui: knob type=int").unwrap();
    assert_eq!(
        registry.resolve(&unknown),
        Err(WezzteError::Config { message: "No widget registered for UI type: knob".to_string() })
    );
    let ok = parse_decorator_line(r##"-- @ui: select(options="a") type=string"##).unwrap();
    assert_eq!(registry.resolve(&ok), Ok(WidgetKind::Select));
    assert_eq!(registry.get_metadata("select").unwrap().name, "Select Dropdown");
    assert!(registry.get_metadata("knob").is_err());

    let info = WidgetFactory::debug_info(&registry);
    assert!(info.starts_with("=== Widget Registry ===\nRegistered widgets: 4\n\n"));
    assert!(info.contains("slider: SliderWidget (Slider)\n  Metadata: A slider widget for selecting numeric values within a range\n  Properties: 3\n\n"));
    for t in WidgetFactory::registered_types(&registry) {
        assert!(info.lines().any(|line| line.starts_with(&format!("{}: ", t))));
    }
    let all = registry.all_metadata();
    assert_eq!(all.len(), 4);
    assert_eq!(all[1].0, "select");
    assert_eq!(all[1].1.name, "Select Dropdown");
}

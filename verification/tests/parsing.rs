use wezzte_core::ast::{Annotation, ParamMap, ParamValue, UiType};
use wezzte_core::lexer::{Lexer, TokenType};
use wezzte_core::markers;
use wezzte_core::parser::{parse_annotations, parse_decorator_line, Parser};
use wezzte_core::WezzteError;

/// The numeric parameter `name` as a float, or `default`.
fn number_param(a: &Annotation, name: &str, default: f64) -> f64 {
    a.get_param(name)
        .and_then(|v| v.as_number_text())
        .map(|t| t.parse::<f64>().unwrap())
        .unwrap_or(default)
}

fn number_value(v: &ParamValue) -> Option<f64> {
    v.as_number_text().map(|t| t.parse::<f64>().unwrap())
}

fn parse_annotation_str(input: &str) -> Result<Annotation, WezzteError> {
    let mut lexer = Lexer::new(input);
    let tokens = lexer.tokenize()?;
    let mut parser = Parser::new(tokens);
    parser.parse_annotation()
}

fn params(entries: &[(&str, ParamValue)]) -> ParamMap {
    let mut m = ParamMap::new();
    for (k, v) in entries {
        m.insert(k.to_string(), v.copy());
    }
    m
}

fn num(text: &str) -> ParamValue {
    ParamValue::Number(text.to_string())
}

#[test]
fn test_ui_type_conversion() {
    assert_eq!(UiType::from("slider"), UiType::Slider);
    assert_eq!(UiType::from("unknown"), UiType::Custom("unknown".to_string()));
}

#[test]
fn test_ui_type_names_round_trip() {
    for name in ["slider", "int_slider", "numerical", "text", "select", "theme_select", "color_picker",
        "color_scheme", "table_path", "multi_select"] {
        assert_eq!(UiType::from(name).as_str(), name);
    }
}

#[test]
fn test_version() {
    assert!(!wezzte_core::VERSION.is_empty());
}

#[test]
fn test_markers() {
    assert_eq!(markers::TUNER_START, "-- <<TUNER-START>>");
    assert_eq!(markers::TUNER_END, "-- <<TUNER-END>>");
    assert_eq!(markers::DECORATOR_PREFIX, "-- @ui:");
}

#[test]
fn test_annotation_parameters() {
    let annotation = Annotation::new(
        UiType::Slider,
        params(&[("min", num("0.0")), ("max", num("100.0")), ("step", num("1.0"))]),
    );
    assert_eq!(number_param(&annotation, "min", -1.0), 0.0);
    assert_eq!(number_param(&annotation, "max", -1.0), 100.0);
    assert_eq!(number_param(&annotation, "missing", 42.0), 42.0);
}

#[test]
fn test_validation() {
    let valid_slider = Annotation::new(UiType::Slider, params(&[("min", num("0.0")), ("max", num("100.0"))]));
    assert!(valid_slider.validate().is_ok());

    let invalid_slider = Annotation::new(UiType::Slider, ParamMap::new());
    assert!(invalid_slider.validate().is_err());
}

#[test]
fn test_validation_errors() {
    let invalid_slider = Annotation::new(UiType::Slider, params(&[("min", num("0"))]));
    assert_eq!(
        invalid_slider.validate(),
        Err(WezzteError::MissingParameter { param: "min/max for slider".to_string() })
    );
    let invalid_select = Annotation::new(UiType::ThemeSelect, ParamMap::new());
    assert_eq!(
        invalid_select.validate(),
        Err(WezzteError::MissingParameter { param: "options for select".to_string() })
    );
    assert!(Annotation::new(UiType::Text, ParamMap::new()).validate().is_ok());
}

#[test]
fn test_param_map_insert_replaces() {
    let mut m = ParamMap::new();
    m.insert("a".to_string(), num("1"));
    m.insert("b".to_string(), ParamValue::Boolean(true));
    m.insert("a".to_string(), num("2"));
    assert_eq!(m.len(), 2);
    assert_eq!(m.key_at(0), "a");
    assert_eq!(m.value_at(0).as_number_text().unwrap(), "2");
    assert_eq!(m.key_at(1), "b");
    assert_eq!(m.get("a").unwrap().as_number_text().unwrap(), "2");
    assert_eq!(m.get("b").unwrap().as_bool(), Some(true));
    assert!(m.get("c").is_none());
}

#[test]
fn test_simple_token_stream() {
    let mut lexer = Lexer::new("slider(min=10, max=42)");
    let tokens = lexer.tokenize().unwrap();

    // identifier, lparen, identifier, equal, number, comma, identifier, equal, number, rparen, eof
    assert_eq!(tokens.len(), 11);
    assert_eq!(tokens[0].token_type, TokenType::Identifier);
    assert_eq!(tokens[0].value, "slider");
    assert_eq!(tokens[1].token_type, TokenType::LParen);
    assert_eq!(tokens[2].token_type, TokenType::Identifier);
    assert_eq!(tokens[2].value, "min");
    assert_eq!(tokens[3].token_type, TokenType::Equal);
    assert_eq!(tokens[4].token_type, TokenType::Number);
    assert_eq!(tokens[4].value, "10");
}

#[test]
fn test_token_positions() {
    let mut lexer = Lexer::new("a = \"é\" b");
    let tokens = lexer.tokenize().unwrap();
    assert_eq!(tokens.len(), 5);
    assert_eq!(tokens[0].position, 0);
    assert_eq!(tokens[1].position, 2);
    assert_eq!(tokens[2].position, 4);
    assert_eq!(tokens[3].position, 9);
    assert_eq!(tokens[4].token_type, TokenType::Eof);
    assert_eq!(tokens[4].position, 10);
}

#[test]
fn test_string_literal() {
    let mut lexer = Lexer::new(r#"options="Dark, Light, Auto""#);
    let tokens = lexer.tokenize().unwrap();

    assert_eq!(tokens[0].token_type, TokenType::Identifier);
    assert_eq!(tokens[0].value, "options");
    assert_eq!(tokens[1].token_type, TokenType::Equal);
    assert_eq!(tokens[2].token_type, TokenType::String);
    assert_eq!(tokens[2].value, "Dark, Light, Auto");
}

#[test]
fn test_boolean_literals() {
    let mut lexer = Lexer::new("alpha=true linked=false");
    let tokens = lexer.tokenize().unwrap();

    assert_eq!(tokens[1].token_type, TokenType::Equal);
    assert_eq!(tokens[2].token_type, TokenType::Boolean);
    assert_eq!(tokens[2].value, "true");
    assert_eq!(tokens[5].token_type, TokenType::Boolean);
    assert_eq!(tokens[5].value, "false");
}

#[test]
fn test_complex_annotation_tokens() {
    let mut lexer = Lexer::new(r#"multi_select(options=["resize", "title"], defaults={resize: true})"#);
    let tokens = lexer.tokenize().unwrap();

    assert_eq!(tokens.len(), 19);
    assert_eq!(tokens[0].value, "multi_select");
    assert_eq!(tokens[4].token_type, TokenType::LBracket);
    assert_eq!(tokens[5].token_type, TokenType::String);
    assert_eq!(tokens[12].token_type, TokenType::LBrace);
    assert_eq!(tokens[14].token_type, TokenType::Colon);
}

#[test]
fn lexer_test_error_handling() {
    let mut lexer = Lexer::new("test@invalid");
    let result = lexer.tokenize();
    assert!(result.is_err());
    assert_eq!(
        result.unwrap_err(),
        WezzteError::Parse { message: "Unexpected character: '@'".to_string(), position: 4 }
    );
}

#[test]
fn test_simple_slider() {
    let annotation = parse_annotation_str("slider(min=0, max=100, step=1)").unwrap();
    assert_eq!(annotation.ui_type, UiType::Slider);
    assert_eq!(number_param(&annotation, "min", -1.0), 0.0);
    assert_eq!(number_param(&annotation, "max", -1.0), 100.0);
    assert_eq!(number_param(&annotation, "step", -1.0), 1.0);
}

#[test]
fn test_trailing_params() {
    let annotation = parse_annotation_str("slider(min=0, max=100) type=int").unwrap();
    assert_eq!(annotation.ui_type, UiType::Slider);
    assert_eq!(annotation.get_param_as_string("type", ""), "int");
}

#[test]
fn test_select_with_string() {
    let annotation = parse_annotation_str(r#"select(options="Dark, Light, Auto") type=string"#).unwrap();
    assert_eq!(annotation.ui_type, UiType::Select);
    assert_eq!(annotation.get_param_as_string("options", ""), "Dark, Light, Auto");
    assert_eq!(annotation.get_param_as_string("type", ""), "string");
}

#[test]
fn test_boolean_params() {
    let annotation = parse_annotation_str("color_picker(alpha=true, format=hex)").unwrap();
    assert_eq!(annotation.ui_type, UiType::ColorPicker);
    assert_eq!(annotation.get_param_as_bool("alpha", false), true);
    assert_eq!(annotation.get_param_as_string("format", ""), "hex");
}

#[test]
fn test_list_params() {
    let annotation = parse_annotation_str(r#"multi_select(options=["resize", "title", "close"])"#).unwrap();
    assert_eq!(annotation.ui_type, UiType::Custom("multi_select".to_string()));
    let options = annotation.get_param("options").unwrap().as_list().unwrap();
    assert_eq!(options.len(), 3);
    assert_eq!(options[0].as_string().unwrap(), "resize");
}

#[test]
fn test_decorator_line_parsing() {
    let line = "-- @ui: slider(min=10, max=42, step=1) type=int";
    let annotation = parse_decorator_line(line).unwrap();
    assert_eq!(annotation.ui_type, UiType::Slider);
    assert_eq!(number_param(&annotation, "min", -1.0), 10.0);
    assert_eq!(annotation.get_param_as_string("type", ""), "int");
}

#[test]
fn test_full_config_parsing() {
    let config = r#"
-- <<TUNER-START>>
-- @ui: slider(min=10, max=42, step=1) type=int
config.font_size = 18
-- @ui: select(options="JetBrains Mono, Fira Code") type=string
config.font = wezterm.font("JetBrains Mono")
-- <<TUNER-END>>
"#;

    let entries = parse_annotations(config).unwrap();
    assert_eq!(entries.len(), 2);

    assert_eq!(entries[0].key, "config.font_size");
    assert_eq!(entries[0].value, "18");
    assert_eq!(entries[0].annotation.ui_type, UiType::Slider);

    assert_eq!(entries[1].key, "config.font");
    assert_eq!(entries[1].annotation.ui_type, UiType::Select);
}

#[test]
fn parser_test_error_handling() {
    assert!(parse_annotation_str("invalid syntax here").is_err());
    assert!(parse_decorator_line("not a decorator").is_err());
    assert!(parse_annotations("no markers here").is_err());
}

#[test]
fn test_parser_error_messages() {
    assert_eq!(
        parse_decorator_line("not a decorator"),
        Err(WezzteError::InvalidDecoration { message: "Decorator must start with '-- @ui:'".to_string() })
    );
    assert_eq!(
        parse_decorator_line("-- @ui:   "),
        Err(WezzteError::InvalidDecoration { message: "Empty decorator annotation".to_string() })
    );
    assert_eq!(
        parse_annotations("no markers here"),
        Err(WezzteError::Config { message: "No tuner start marker found in configuration".to_string() })
    );
    assert_eq!(
        parse_annotations("-- <<TUNER-START>>\nno end"),
        Err(WezzteError::Config { message: "No tuner end marker found in configuration".to_string() })
    );
    assert_eq!(
        parse_annotations("-- <<TUNER-END>>\n-- <<TUNER-START>>"),
        Err(WezzteError::Config { message: "Invalid tuner marker positions".to_string() })
    );
}

const SAMPLE_CONFIG: &str = r##"
local wezterm = require 'wezterm'
local config = {}

-- <<TUNER-START>>
-- @ui: slider(min=10, max=42, step=1) type=int
config.font_size = 18
-- @ui: select(options="JetBrains Mono, Fira Code, Cascadia Code, Source Code Pro") type=string
config.font = wezterm.font("JetBrains Mono")
-- @ui: numerical(min=0.5, max=5.5, step=0.01) type=float
config.line_height = 1.29
-- @ui: numerical(min=0.5, max=2.0, step=0.1) type=float
config.cell_width = 1.0
-- @ui: slider(min=0.05, max=1.0, step=0.01) type=float
config.window_background_opacity = 1.0
-- @ui: slider(min=1, max=100, step=1) type=int
config.macos_window_background_blur = 100
-- @ui: color_picker(format="hex", alpha=false) type=color
config.colors = config.colors or {}
config.colors.background = "#333333"

-- @ui: color_picker(format="hex", alpha=false) type=color
config.colors = config.colors or {}
config.colors.tab_bar = config.colors.tab_bar or {}
config.colors.tab_bar.background = "#333333"

-- @ui: color_picker(format="hex", alpha=false) type=color
config.colors = config.colors or {}
config.colors.tab_bar = config.colors.tab_bar or {}
config.colors.tab_bar.active_tab = config.colors.tab_bar.active_tab or {}
config.colors.tab_bar.active_tab.bg_color = "#444444"

-- @ui: color_picker(format="hex", alpha=false) type=color
config.colors = config.colors or {}
config.colors.tab_bar = config.colors.tab_bar or {}
config.colors.tab_bar.active_tab = config.colors.tab_bar.active_tab or {}
config.colors.tab_bar.active_tab.fg_color = "#ffffff"

-- @ui: color_picker(format="hex", alpha=false) type=color
config.colors = config.colors or {}
config.colors.tab_bar = config.colors.tab_bar or {}
config.colors.tab_bar.inactive_tab = config.colors.tab_bar.inactive_tab or {}
config.colors.tab_bar.inactive_tab.bg_color = "#333333"

-- @ui: color_picker(format="hex", alpha=false) type=color
config.colors = config.colors or {}
config.colors.tab_bar = config.colors.tab_bar or {}
config.colors.tab_bar.inactive_tab = config.colors.tab_bar.inactive_tab or {}
config.colors.tab_bar.inactive_tab.fg_color = "#888888"

-- @ui: slider(min=0, max=2000, step=100) type=int
config.cursor_blink_rate = 500
-- @ui: select(options="true, false") type=string
config.hide_tab_bar_if_only_one_tab = true
-- @ui: select(options="NONE, RESIZE, TITLE, RESIZE|TITLE") type=string
config.window_decorations = "RESIZE|TITLE"
-- @ui: select(options="true, false") type=string
config.pane_focus_follows_mouse = false
-- @ui: select(options="true, false") type=string
config.native_macos_fullscreen_mode = true
-- @ui: numerical(min=100, max=10000, step=100) type=int
config.scrollback_lines = 3500
-- @ui: select(options="true, false") type=string
config.enable_scroll_bar = true
-- @ui: slider(min=1, max=60, step=1) type=int
config.animation_fps = 60
-- @ui: slider(min=1, max=120, step=1) type=int
config.max_fps = 60
-- @ui: select(options="true, false") type=string
config.tab_bar_at_bottom = false
-- @ui: numerical(min=50, max=500, step=10) type=int
config.tab_max_width = 200
-- @ui: select(options="SystemBeep, Disabled") type=string
config.audible_bell = "SystemBeep"
-- @ui: select(options="true, false") type=string
config.hide_mouse_cursor_when_typing = true
-- @ui: select(options="true, false") type=string
config.swallow_mouse_click_on_window_focus = false
-- @ui: select(options="true, false") type=string
config.debug_key_events = false
-- <<TUNER-END>>

return config
"##;

#[test]
fn test_sample_config_every_decorated_entry() {
    let entries = parse_annotations(SAMPLE_CONFIG).expect("Should parse sample config");

    // One entry per decorator line of the sample (table initialisation lines skipped).
    assert_eq!(entries.len(), 27);
    assert_eq!(entries[7].key, "config.colors.tab_bar.background");
    assert_eq!(entries[26].key, "config.debug_key_events");

    let font_size_entry = entries.iter().find(|e| e.key == "config.font_size").unwrap();
    assert_eq!(font_size_entry.value, "18");
    assert_eq!(font_size_entry.annotation.ui_type, UiType::Slider);
    assert_eq!(number_param(&font_size_entry.annotation, "min", -1.0), 10.0);
    assert_eq!(number_param(&font_size_entry.annotation, "max", -1.0), 42.0);
    assert_eq!(font_size_entry.annotation.get_param_as_string("type", ""), "int");

    let font_entry = entries.iter().find(|e| e.key == "config.font").unwrap();
    assert_eq!(font_entry.annotation.ui_type, UiType::Select);
    assert_eq!(
        font_entry.annotation.get_param_as_string("options", ""),
        "JetBrains Mono, Fira Code, Cascadia Code, Source Code Pro"
    );

    let bg_color_entry = entries.iter().find(|e| e.key == "config.colors.background").unwrap();
    assert_eq!(bg_color_entry.value, r##""#333333""##);
    assert_eq!(bg_color_entry.annotation.ui_type, UiType::ColorPicker);
    assert_eq!(bg_color_entry.annotation.get_param_as_string("format", ""), "hex");
    assert_eq!(bg_color_entry.annotation.get_param_as_bool("alpha", true), false);
}

#[test]
fn test_individual_decorator_patterns() {
    let slider = parse_decorator_line("-- @ui: slider(min=10, max=42, step=1) type=int").unwrap();
    assert_eq!(slider.ui_type, UiType::Slider);
    assert_eq!(number_param(&slider, "min", -1.0), 10.0);
    assert_eq!(number_param(&slider, "max", -1.0), 42.0);
    assert_eq!(number_param(&slider, "step", -1.0), 1.0);
    assert_eq!(slider.get_param_as_string("type", ""), "int");

    let select = parse_decorator_line(r##"-- @ui: select(options="Dark, Light, Auto") type=string"##).unwrap();
    assert_eq!(select.ui_type, UiType::Select);
    assert_eq!(select.get_param_as_string("options", ""), "Dark, Light, Auto");

    let numerical = parse_decorator_line("-- @ui: numerical(min=0.5, max=5.5, step=0.01) type=float").unwrap();
    assert_eq!(numerical.ui_type, UiType::Numerical);
    assert_eq!(number_param(&numerical, "min", -1.0), 0.5);
    assert_eq!(number_param(&numerical, "step", -1.0), 0.01);

    let color_picker = parse_decorator_line(r##"-- @ui: color_picker(format="hex", alpha=false) type=color"##).unwrap();
    assert_eq!(color_picker.ui_type, UiType::ColorPicker);
    assert_eq!(color_picker.get_param_as_string("format", ""), "hex");
    assert_eq!(color_picker.get_param_as_bool("alpha", true), false);
    assert_eq!(color_picker.get_param_as_string("type", ""), "color");
}

#[test]
fn test_complex_decorator_patterns() {
    let multi_select = parse_decorator_line(
        r##"-- @ui: multi_select(options=["resize", "title", "close"], defaults={resize: true}) type=flags"##,
    )
    .unwrap();
    assert_eq!(multi_select.ui_type, UiType::Custom("multi_select".to_string()));

    let options = multi_select.get_param("options").unwrap().as_list().unwrap();
    assert_eq!(options.len(), 3);
    assert_eq!(options[0].as_string().unwrap(), "resize");
    assert_eq!(options[1].as_string().unwrap(), "title");
    assert_eq!(options[2].as_string().unwrap(), "close");

    let defaults = multi_select.get_param("defaults").unwrap().as_object().unwrap();
    assert_eq!(defaults.get("resize").unwrap().as_bool().unwrap(), true);

    let range_slider = parse_decorator_line("-- @ui: range_slider(min=0, max=50, linked=true) type=padding").unwrap();
    assert_eq!(range_slider.ui_type, UiType::Custom("range_slider".to_string()));
    assert_eq!(range_slider.get_param_as_bool("linked", false), true);

    let font_picker = parse_decorator_line(
        r##"-- @ui: font_picker(monospace_only=true, size_range=[8, 72]) type=font"##,
    )
    .unwrap();
    assert_eq!(font_picker.ui_type, UiType::Custom("font_picker".to_string()));
    assert_eq!(font_picker.get_param_as_bool("monospace_only", false), true);

    let size_range = font_picker.get_param("size_range").unwrap().as_list().unwrap();
    assert_eq!(number_value(&size_range[0]).unwrap(), 8.0);
    assert_eq!(number_value(&size_range[1]).unwrap(), 72.0);
}

#[test]
fn test_edge_cases_and_error_handling() {
    let simple = parse_decorator_line("-- @ui: text type=string").unwrap();
    assert_eq!(simple.ui_type, UiType::Text);
    assert_eq!(simple.get_param_as_string("type", ""), "string");

    let trailing_comma = parse_decorator_line("-- @ui: slider(min=0, max=100, step=1,) type=int").unwrap();
    assert_eq!(number_param(&trailing_comma, "min", -1.0), 0.0);

    assert!(parse_decorator_line("@ui: slider(min=0, max=100)").is_err());
    assert!(parse_decorator_line("-- @ui:").is_err());
    // `invalid` is an identifier value, which the grammar accepts; the
    // slider is rejected when it is validated, for want of `max`.
    let invalid = parse_decorator_line("-- @ui: slider(min=invalid)").unwrap();
    assert!(invalid.validate().is_err());
}

#[test]
fn test_widget_validation() {
    // Valid slider should pass validation
    let valid_slider = parse_decorator_line("-- @ui: slider(min=0, max=100) type=int").unwrap();
    assert!(valid_slider.validate().is_ok());

    // Invalid slider missing required parameters should fail
    let invalid_slider = parse_decorator_line("-- @ui: slider() type=int").unwrap();
    assert!(invalid_slider.validate().is_err());

    // Valid select should pass
    let valid_select = parse_decorator_line(r##"-- @ui: select(options="a, b, c") type=string"##).unwrap();
    assert!(valid_select.validate().is_ok());

    // Invalid select missing options should fail
    let invalid_select = parse_decorator_line("-- @ui: select() type=string").unwrap();
    assert!(invalid_select.validate().is_err());
}

#[test]
fn test_type_coercion_and_defaults() {
    let annotation = parse_decorator_line("-- @ui: slider(min=10, max=100, step=1.5) custom_param=test").unwrap();

    assert_eq!(annotation.get_param_as_int("min", -1), 10);
    assert_eq!(number_param(&annotation, "step", -1.0), 1.5);

    assert_eq!(annotation.get_param_as_string("missing", "default"), "default");
    assert_eq!(annotation.get_param_as_bool("missing", true), true);
    assert_eq!(number_param(&annotation, "missing", 42.0), 42.0);

    assert_eq!(annotation.get_data_type(), "float");
}

#[test]
fn test_token_positions_and_texts() {
    let input = "sel(x=\"a é\", n=12.5) k=v";
    let mut lexer = Lexer::new(input);
    let tokens = lexer.tokenize().unwrap();
    let again = lexer.tokenize().unwrap();
    assert_eq!(tokens, again);
    let last = tokens.last().unwrap();
    assert_eq!(last.token_type, TokenType::Eof);
    assert_eq!(last.value, "");
    assert_eq!(last.position, input.len());
    assert_eq!(tokens.iter().filter(|t| t.token_type == TokenType::Eof).count(), 1);
    for pair in tokens.windows(2) {
        assert!(pair[0].position < pair[1].position);
    }
    for t in &tokens[..tokens.len() - 1] {
        if t.token_type == TokenType::String {
            assert_eq!(&input[t.position..t.position + 1], "\"");
            assert_eq!(&input[t.position + 1..t.position + 1 + t.value.len()], t.value);
            assert_eq!(&input[t.position + 1 + t.value.len()..t.position + 2 + t.value.len()], "\"");
        } else {
            assert_eq!(&input[t.position..t.position + t.value.len()], t.value);
        }
    }
}

#[test]
fn test_int_params_truncate() {
    let a = parse_decorator_line("-- @ui: slider(min=10.9, max=0.5, step=007) k=\"x\"").unwrap();
    assert_eq!(a.get_param_as_int("min", -1), 10);
    assert_eq!(a.get_param_as_int("max", -1), 0);
    assert_eq!(a.get_param_as_int("step", -1), 7);
    assert_eq!(a.get_param_as_int("k", -1), -1);
    assert_eq!(a.get_param_as_int("missing", 42), 42);
    assert_eq!(ParamValue::Number("-3.7".to_string()).as_int(), Some(-3));
    assert_eq!(ParamValue::Boolean(true).as_int(), None);
}

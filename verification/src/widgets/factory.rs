//! Widget factory: widget ids, configuration values and registry queries.

use vstd::prelude::*;
use crate::ast::{Annotation, param_string_or};
use crate::error::{WezzteError, ErrorView};
use crate::numbers::{
    dec_i64, display_float_text, float_display, float_text_ok, int_text, is_float_text, parse_i64_text,
    push_int,
};
use crate::text::{
    chars_of, ends_with, lowercase_of, push_range, push_str, replace, replace_str, starts_with,
    str_eq, str_to_lowercase, string_of_range, to_owned_string, trim, trim_str, join, join_strings,
    views,
};
use crate::widgets::registry::{WidgetRegistry, debug_text, ui_types};
use crate::widgets::traits::{WidgetValue, WVal};

verus! {

/// The widget id of a config key: `config.` becomes `widget-`, then every
/// `.` and `_` becomes `-`.
pub open spec fn widget_id_of(key: Seq<char>) -> Seq<char> {
    replace(replace(replace(key, "config."@, "widget-"@), "."@, "-"@), "_"@, "-"@)
}

/// A value written as a call (like `wezterm.font("...")`): it holds `(`
/// and does not start with a quote.
pub open spec fn is_call_text(t: Seq<char>) -> bool {
    t.contains('(') && !starts_with(t, "\""@)
}

/// The text without its surrounding double quotes, if it has both.
pub open spec fn unquoted(t: Seq<char>) -> Seq<char> {
    if starts_with(t, "\""@) && ends_with(t, "\""@) {
        t.subrange(1, t.len() - 1)
    } else {
        t
    }
}

/// An invalid `value` parameter error.
pub open spec fn value_error(message: Seq<char>) -> ErrorView {
    ErrorView::InvalidParameter { param: "value"@, message }
}

/// The data types whose values are parsed as numbers or booleans.
pub open spec fn is_scalar_type(dt: Seq<char>) -> bool {
    dt == "int"@ || dt == "integer"@ || dt == "float"@ || dt == "number"@ || dt == "bool"@ || dt
        == "boolean"@
}

/// The boolean a lowercased value denotes.
pub open spec fn boolean_outcome(lower: Seq<char>, t: Seq<char>) -> Result<WVal, ErrorView> {
    if lower == "true"@ {
        Ok(WVal::Bool(true))
    } else if lower == "false"@ {
        Ok(WVal::Bool(false))
    } else {
        Err(value_error("cannot parse '"@ + t + "' as boolean"@))
    }
}

/// The value a configuration text has for a data type (`bool` values are
/// matched after lowercasing). A number is held as the text it is
/// displayed with: an integer as its decimal digits, a float as
/// [`float_display`] gives it, in plain positional form (`1e3` is `1000`).
/// That is the text an `f64` holding the value displays, except where
/// `float_display` keeps the text as written (`inf`, `nan`, more than 15
/// significant digits, a value too large or too small for plain digits)
/// and for an integer beyond 2^53 in magnitude (kept exactly, where an
/// `f64` rounds it).
pub open spec fn config_value_outcome(value: Seq<char>, dt: Seq<char>) -> Result<WVal, ErrorView> {
    let t = trim(value);
    if dt == "int"@ || dt == "integer"@ {
        if is_call_text(t) {
            Ok(WVal::Str(t))
        } else {
            match dec_i64(t) {
                Some(n) => Ok(WVal::Num(int_text(n))),
                None => Err(value_error("cannot parse '"@ + t + "' as integer"@)),
            }
        }
    } else if dt == "float"@ || dt == "number"@ {
        if is_call_text(t) {
            Ok(WVal::Str(t))
        } else if is_float_text(t) {
            Ok(WVal::Num(float_display(t)))
        } else {
            Err(value_error("cannot parse '"@ + t + "' as number"@))
        }
    } else if dt == "bool"@ || dt == "boolean"@ {
        boolean_outcome(lowercase_of(t), t)
    } else {
        Ok(WVal::Str(unquoted(t)))
    }
}

/// High-level widget factory.
pub struct WidgetFactory;

/// The error for a value that is not in its type's syntax.
fn cannot_parse(t: &str, what: &str) -> (e: WezzteError)
    ensures
        e@ == value_error("cannot parse '"@ + t@ + what@),
{
    let mut m = to_owned_string("cannot parse '");
    push_str(&mut m, t);
    push_str(&mut m, what);
    WezzteError::invalid_param("value", m)
}

impl WidgetFactory {
    /// Generate a widget id from a config key (`config.font_size` gives
    /// `widget-font-size`).
    pub fn generate_widget_id(config_key: &str) -> (r: String)
        ensures
            r@ == widget_id_of(config_key@),
    {
        proof {
            reveal_strlit("config.");
            reveal_strlit(".");
            reveal_strlit("_");
        }
        let a = replace_str(config_key, "config.", "widget-");
        let b = replace_str(a.as_str(), ".", "-");
        replace_str(b.as_str(), "_", "-")
    }

    /// The boolean for a lowercased value `lower`; `trimmed` is the value
    /// as written, for the error message.
    pub fn boolean_from_lowercase(lower: &str, trimmed: &str) -> (r: Result<WidgetValue, WezzteError>)
        ensures
            match boolean_outcome(lower@, trimmed@) {
                Ok(v) => r matches Ok(x) && x@ == v,
                Err(e) => r matches Err(x) && x@ == e,
            },
    {
        proof {
            reveal_strlit("true");
            reveal_strlit("false");
            assert("true"@.len() != "false"@.len());
        }
        if str_eq(lower, "true") {
            Ok(WidgetValue::Boolean(true))
        } else if str_eq(lower, "false") {
            Ok(WidgetValue::Boolean(false))
        } else {
            Err(cannot_parse(trimmed, "' as boolean"))
        }
    }

    /// Parse a configuration value for the annotation's data type (the
    /// `type` parameter, `float` by default): integers and floats in Rust's
    /// syntax (a call like `wezterm.font(..)` is kept as a string),
    /// booleans in any case, anything else as a string without its quotes.
    pub fn parse_config_value(value_str: &str, annotation: &Annotation) -> (r: Result<
        WidgetValue,
        WezzteError,
    >)
        requires
            trim(value_str@) == "\""@ ==> is_scalar_type(
                param_string_or(annotation.params@, "type"@, "float"@),
            ),
        ensures
            match config_value_outcome(value_str@, param_string_or(annotation.params@, "type"@, "float"@)) {
                Ok(v) => r matches Ok(x) && x@ == v,
                Err(e) => r matches Err(x) && x@ == e,
            },
    {
        let data_type = annotation.get_data_type();
        let dt = data_type.as_str();
        let trimmed = trim_str(value_str);
        let t = trimmed.as_str();
        let v = chars_of(t);
        proof {
            reveal_strlit("\"");
            reveal_strlit("int");
            reveal_strlit("integer");
            reveal_strlit("float");
            reveal_strlit("number");
            reveal_strlit("bool");
            reveal_strlit("boolean");
            assert("int"@.len() != "integer"@.len() && "int"@.len() != "float"@.len());
            assert("int"@.len() != "number"@.len() && "int"@.len() != "boolean"@.len());
            assert("int"@[0] != "bool"@[0] && "integer"@.len() != "float"@.len());
            assert("integer"@.len() != "number"@.len() && "integer"@.len() != "bool"@.len());
            assert("integer"@.len() == "boolean"@.len() && "integer"@[0] != "boolean"@[0]);
            assert("float"@.len() != "number"@.len() && "float"@.len() != "bool"@.len());
            assert("float"@.len() != "boolean"@.len() && "number"@.len() != "bool"@.len());
            assert("number"@.len() != "boolean"@.len());
        }
        let quoted_start = v.len() > 0 && v[0] == '"';
        let quoted_end = v.len() > 0 && v[v.len() - 1] == '"';
        proof {
            assert(quoted_start == starts_with(t@, "\""@)) by {
                if v@.len() > 0 {
                    assert(t@.take(1)[0] == v@[0]);
                    if v@[0] == '"' {
                        assert(t@.take(1) =~= "\""@);
                    }
                }
            }
            assert(quoted_end == ends_with(t@, "\""@)) by {
                if v@.len() > 0 {
                    assert(t@.skip(t@.len() - 1)[0] == v@[v@.len() - 1]);
                    if v@[v@.len() - 1] == '"' {
                        assert(t@.skip(t@.len() - 1) =~= "\""@);
                    }
                }
            }
        }
        let mut has_paren = false;
        let mut i: usize = 0;
        while i < v.len()
            invariant
                i <= v@.len(),
                has_paren == (exists|j: int| 0 <= j < i && v@[j] == '('),
            decreases v.len() - i,
        {
            if v[i] == '(' {
                has_paren = true;
            }
            i = i + 1;
        }
        proof {
            if has_paren {
                let j = choose|j: int| 0 <= j < i && v@[j] == '(';
                assert(t@.contains('(')) by {
                    assert(t@[j] == '(');
                }
            }
            if t@.contains('(') {
                let j = choose|j: int| 0 <= j < t@.len() && t@[j] == '(';
                assert(v@[j] == '(');
            }
        }
        let is_call = has_paren && !quoted_start;
        if str_eq(dt, "int") || str_eq(dt, "integer") {
            if is_call {
                return Ok(WidgetValue::String(trimmed.clone()));
            }
            match parse_i64_text(t) {
                Some(n) => {
                    let mut text = String::new();
                    push_int(&mut text, n);
                    assert(text@ =~= int_text(n as int));
                    Ok(WidgetValue::Number(text))
                },
                None => Err(cannot_parse(t, "' as integer")),
            }
        } else if str_eq(dt, "float") || str_eq(dt, "number") {
            if is_call {
                return Ok(WidgetValue::String(trimmed.clone()));
            }
            if float_text_ok(t) {
                Ok(WidgetValue::Number(display_float_text(t)))
            } else {
                Err(cannot_parse(t, "' as number"))
            }
        } else if str_eq(dt, "bool") || str_eq(dt, "boolean") {
            let lower = str_to_lowercase(t);
            Self::boolean_from_lowercase(lower.as_str(), t)
        } else {
            if quoted_start && quoted_end {
                proof {
                    if v@.len() == 1 {
                        assert(t@ =~= "\""@);
                    }
                }
                Ok(WidgetValue::String(string_of_range(&v, 1, v.len() - 1)))
            } else {
                Ok(WidgetValue::String(trimmed.clone()))
            }
        }
    }

    /// The UI types registered in `registry`, in registration order.
    pub fn registered_types(registry: &WidgetRegistry) -> (r: Vec<String>)
        ensures
            crate::text::views(r@) == ui_types(registry@),
    {
        registry.registered_types()
    }

    /// Whether a UI type is registered in `registry`.
    pub fn is_registered(registry: &WidgetRegistry, ui_type: &str) -> (r: bool)
        ensures
            r == ui_types(registry@).contains(ui_type@),
    {
        registry.is_registered(ui_type)
    }

    /// Debug information about `registry`.
    pub fn debug_info(registry: &WidgetRegistry) -> (r: String)
        ensures
            r@ == debug_text(registry@),
    {
        registry.debug_info()
    }
}

/// The widget id of a key never contains `.` or `_`.
pub proof fn law_widget_id_has_no_separators(key: Seq<char>)
    ensures
        !widget_id_of(key).contains('.'),
        !widget_id_of(key).contains('_'),
{
    reveal_strlit("config.");
    reveal_strlit("widget-");
    reveal_strlit(".");
    reveal_strlit("_");
    reveal_strlit("-");
    assert("."@ =~= seq!['.']);
    assert("_"@ =~= seq!['_']);
    assert("-"@ =~= seq!['-']);
    let a = replace(key, "config."@, "widget-"@);
    let b = replace(a, "."@, "-"@);
    lemma_replace_removes(a, '.', '-');
    lemma_replace_keeps_absent(b, '_', '-', '.');
    lemma_replace_removes(b, '_', '-');
}

/// Replacing a character by another leaves none of it.
proof fn lemma_replace_removes(s: Seq<char>, c: char, d: char)
    requires
        c != d,
    ensures
        !replace(s, seq![c], seq![d]).contains(c),
    decreases s.len(),
{
    if s.len() > 0 {
        lemma_replace_removes(s.drop_first(), c, d);
        if starts_with(s, seq![c]) {
            assert(s.skip(1) =~= s.drop_first());
            let r = replace(s, seq![c], seq![d]);
            assert(r =~= seq![d] + replace(s.drop_first(), seq![c], seq![d]));
            assert forall|i: int| 0 <= i < r.len() implies r[i] != c by {
                if i > 0 {
                    assert(r[i] == replace(s.drop_first(), seq![c], seq![d])[i - 1]);
                }
            }
        } else {
            let r = replace(s, seq![c], seq![d]);
            assert(s.take(1) =~= seq![s[0]]);
            assert(r =~= seq![s[0]] + replace(s.drop_first(), seq![c], seq![d]));
            assert forall|i: int| 0 <= i < r.len() implies r[i] != c by {
                if i > 0 {
                    assert(r[i] == replace(s.drop_first(), seq![c], seq![d])[i - 1]);
                }
            }
        }
    }
}

/// Replacing a character by another does not introduce a third one.
proof fn lemma_replace_keeps_absent(s: Seq<char>, c: char, d: char, x: char)
    requires
        !s.contains(x),
        d != x,
    ensures
        !replace(s, seq![c], seq![d]).contains(x),
    decreases s.len(),
{
    if s.len() > 0 {
        assert(!s.drop_first().contains(x)) by {
            if s.drop_first().contains(x) {
                let j = choose|j: int| 0 <= j < s.drop_first().len() && s.drop_first()[j] == x;
                assert(s[j + 1] == x);
            }
        }
        lemma_replace_keeps_absent(s.drop_first(), c, d, x);
        let r = replace(s, seq![c], seq![d]);
        if starts_with(s, seq![c]) {
            assert(s.skip(1) =~= s.drop_first());
            assert(r =~= seq![d] + replace(s.drop_first(), seq![c], seq![d]));
        } else {
            assert(r =~= seq![s[0]] + replace(s.drop_first(), seq![c], seq![d]));
            assert(s[0] != x);
        }
        assert forall|i: int| 0 <= i < r.len() implies r[i] != x by {
            if i > 0 {
                assert(r[i] == replace(s.drop_first(), seq![c], seq![d])[i - 1]);
            }
        }
    }
}

/// The configuration lines `key = value` of some keys and value texts, one
/// per line in the order given.
pub open spec fn config_lines(entries: Seq<(Seq<char>, Seq<char>)>) -> Seq<char> {
    join(entries.map_values(|e: (Seq<char>, Seq<char>)| e.0 + " = "@ + e.1), "\n"@)
}

/// The configuration text of some keys with their value texts: a
/// `key = value` line for each, in the order given.
pub fn generate_config_lines(entries: &Vec<(String, String)>) -> (r: String)
    ensures
        r@ == config_lines(entries@.map_values(|e: (String, String)| (e.0@, e.1@))),
{
    let ghost es = entries@.map_values(|e: (String, String)| (e.0@, e.1@));
    let ghost want = es.map_values(|e: (Seq<char>, Seq<char>)| e.0 + " = "@ + e.1);
    let mut lines: Vec<String> = Vec::new();
    let mut i: usize = 0;
    while i < entries.len()
        invariant
            i <= entries@.len(),
            es == entries@.map_values(|e: (String, String)| (e.0@, e.1@)),
            want == es.map_values(|e: (Seq<char>, Seq<char>)| e.0 + " = "@ + e.1),
            views(lines@) == want.take(i as int),
        decreases entries.len() - i,
    {
        let mut line = String::new();
        push_str(&mut line, entries[i].0.as_str());
        push_str(&mut line, " = ");
        push_str(&mut line, entries[i].1.as_str());
        assert(line@ == want[i as int]);
        let ghost before = lines@;
        lines.push(line);
        assert(views(lines@) =~= views(before).push(want[i as int]));
        assert(want.take(i + 1) =~= want.take(i as int).push(want[i as int]));
        i = i + 1;
    }
    assert(want.take(i as int) =~= want);
    join_strings(&lines, "\n")
}

} // verus!

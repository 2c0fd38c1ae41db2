//! Select widget: choosing a string from predefined options.

use vstd::prelude::*;
use crate::ast::{Annotation, param_bool_or, param_string_or};
use crate::error::{WezzteError, ErrorView};
use crate::text::{
    chars_of, join, join_strings, push_str, split_bounds, split_char, str_eq, string_of_range,
    to_owned_string, trim, trim_bounds, views,
};
use crate::widgets::traits::{WidgetConfig, WidgetConfigView, WidgetValue, WVal, config_from_annotation};

verus! {

/// The non-empty trimmed pieces, in order.
pub open spec fn nonempty_trimmed(ps: Seq<Seq<char>>) -> Seq<Seq<char>>
    decreases ps.len(),
{
    if ps.len() == 0 {
        Seq::empty()
    } else {
        let r = nonempty_trimmed(ps.drop_last());
        if trim(ps.last()).len() > 0 {
            r.push(trim(ps.last()))
        } else {
            r
        }
    }
}

/// The options listed in a comma-separated string: each piece trimmed,
/// empty pieces dropped.
pub open spec fn options_of(s: Seq<char>) -> Seq<Seq<char>> {
    nonempty_trimmed(split_char(s, ','))
}

/// Model of [`SelectWidget`].
pub struct SelectView {
    pub config: WidgetConfigView,
    pub initial_value: WVal,
    pub options: Seq<Seq<char>>,
    pub allow_custom: bool,
}

/// The configuration with its current value replaced.
pub open spec fn with_current(c: WidgetConfigView, v: WVal) -> WidgetConfigView {
    WidgetConfigView { current_value: v, ..c }
}

/// The select with its current value replaced.
pub open spec fn select_with_value(w: SelectView, v: WVal) -> SelectView {
    SelectView { config: with_current(w.config, v), ..w }
}

/// `s` is an acceptable value: custom values are allowed, or it is one of the options.
pub open spec fn select_accepts(opts: Seq<Seq<char>>, allow_custom: bool, s: Seq<char>) -> bool {
    allow_custom || opts.contains(s)
}

/// The message for a value that is not among the options.
pub open spec fn not_an_option_message(s: Seq<char>, opts: Seq<Seq<char>>) -> Seq<char> {
    "value '"@ + s + "' is not in allowed options: "@ + join(opts, ", "@)
}

/// Outcome of validating a value for a select with these options.
pub open spec fn select_check(opts: Seq<Seq<char>>, allow_custom: bool, x: WVal) -> Result<(), ErrorView> {
    match x {
        WVal::Str(s) => if select_accepts(opts, allow_custom, s) {
            Ok(())
        } else {
            Err(ErrorView::InvalidParameter { param: "value"@, message: not_an_option_message(s, opts) })
        },
        _ => Err(
            ErrorView::InvalidParameter { param: "value"@, message: "select widget requires string value"@ },
        ),
    }
}

/// A select whose options are non-empty and whose current and initial
/// values are acceptable strings.
pub open spec fn select_wf(v: SelectView) -> bool {
    &&& v.options.len() > 0
    &&& select_check(v.options, v.allow_custom, v.config.current_value) is Ok
    &&& select_check(v.options, v.allow_custom, v.initial_value) is Ok
}

/// Outcome of creating a select from a configuration and options.
pub open spec fn select_new(c: WidgetConfigView, opts: Seq<Seq<char>>, allow_custom: bool) -> Result<
    SelectView,
    ErrorView,
> {
    if opts.len() == 0 {
        Err(
            ErrorView::InvalidParameter {
                param: "options"@,
                message: "select widget must have at least one option"@,
            },
        )
    } else if !(c.current_value is Str) {
        Err(
            ErrorView::InvalidParameter {
                param: "current_value"@,
                message: "select widget requires string value"@,
            },
        )
    } else {
        match select_check(opts, allow_custom, c.current_value) {
            Err(e) => Err(e),
            Ok(()) => Ok(
                SelectView { config: c, initial_value: c.current_value, options: opts, allow_custom },
            ),
        }
    }
}

/// Select widget for choosing from options.
#[derive(Debug)]
pub struct SelectWidget {
    config: WidgetConfig,
    initial_value: WidgetValue,
    options: Vec<String>,
    allow_custom: bool,
}

/// Render data specific to select widgets.
#[derive(Debug)]
pub struct SelectRenderData {
    pub options: Vec<String>,
    pub current_value: String,
    pub allow_custom: bool,
    pub placeholder: Option<String>,
}

impl View for SelectWidget {
    type V = SelectView;

    closed spec fn view(&self) -> SelectView {
        SelectView {
            config: self.config@,
            initial_value: self.initial_value@,
            options: views(self.options@),
            allow_custom: self.allow_custom,
        }
    }
}

/// The message of an invalid value error for a select.
fn not_an_option(s: &str, options: &Vec<String>) -> (e: WezzteError)
    ensures
        e@ == (ErrorView::InvalidParameter {
            param: "value"@,
            message: not_an_option_message(s@, views(options@)),
        }),
{
    let mut m = to_owned_string("value '");
    push_str(&mut m, s);
    push_str(&mut m, "' is not in allowed options: ");
    let joined = join_strings(options, ", ");
    push_str(&mut m, joined.as_str());
    WezzteError::invalid_param("value", m)
}

impl SelectWidget {
    /// Create a new select widget; the options must be non-empty and the
    /// current value an acceptable string.
    pub fn new(config: WidgetConfig, options: Vec<String>, allow_custom: bool) -> (r: Result<
        SelectWidget,
        WezzteError,
    >)
        ensures
            match select_new(config@, views(options@), allow_custom) {
                Ok(v) => r matches Ok(w) && w@ == v && select_wf(w@),
                Err(e) => r matches Err(x) && x@ == e,
            },
    {
        if options.len() == 0 {
            return Err(
                WezzteError::invalid_param(
                    "options",
                    to_owned_string("select widget must have at least one option"),
                ),
            );
        }
        if !matches!(config.current_value, WidgetValue::String(_)) {
            return Err(
                WezzteError::invalid_param(
                    "current_value",
                    to_owned_string("select widget requires string value"),
                ),
            );
        }
        let initial_value = config.current_value.copy();
        let widget = SelectWidget { config, initial_value, options, allow_custom };
        match widget.validate_value(&widget.config.current_value) {
            Ok(()) => Ok(widget),
            Err(e) => Err(e),
        }
    }

    /// The current string value (empty when the value is not a string).
    pub fn string_value(&self) -> (r: &str)
        ensures
            match self@.config.current_value {
                WVal::Str(s) => r@ == s,
                _ => r@ == ""@,
            },
    {
        match &self.config.current_value {
            WidgetValue::String(s) => s.as_str(),
            _ => "",
        }
    }

    /// Parse options from a comma-separated string.
    pub fn parse_options(options_str: &str) -> (r: Vec<String>)
        ensures
            views(r@) == options_of(options_str@),
    {
        let v = chars_of(options_str);
        assert(v@.subrange(0, v@.len() as int) =~= v@);
        let bounds = split_bounds(&v, 0, v.len(), ',');
        let ghost pieces = split_char(v@, ',');
        let mut out: Vec<String> = Vec::new();
        let mut i: usize = 0;
        while i < bounds.len()
            invariant
                i <= bounds@.len(),
                bounds@.len() == pieces.len(),
                forall|k: int|
                    0 <= k < bounds@.len() ==> (#[trigger] bounds@[k]).0 <= bounds@[k].1 <= v@.len()
                        && v@.subrange(bounds@[k].0 as int, bounds@[k].1 as int) == pieces[k],
                views(out@) == nonempty_trimmed(pieces.take(i as int)),
            decreases bounds.len() - i,
        {
            let (a, b) = bounds[i];
            let (c, d) = trim_bounds(&v, a, b);
            assert(pieces.take(i + 1).drop_last() =~= pieces.take(i as int));
            assert(pieces.take(i + 1).last() == pieces[i as int]);
            if c < d {
                let piece = string_of_range(&v, c, d);
                out.push(piece);
                assert(views(out@) =~= nonempty_trimmed(pieces.take(i + 1)));
            }
            i = i + 1;
        }
        assert(pieces.take(i as int) =~= pieces);
        out
    }

    /// Check if a value is valid for this select widget.
    fn is_valid_option(&self, value: &str) -> (r: bool)
        ensures
            r == select_accepts(self@.options, self@.allow_custom, value@),
    {
        if self.allow_custom {
            return true;
        }
        let mut i: usize = 0;
        while i < self.options.len()
            invariant
                i <= self.options@.len(),
                forall|j: int| 0 <= j < i ==> self.options@[j]@ != value@,
            decreases self.options.len() - i,
        {
            if str_eq(self.options[i].as_str(), value) {
                assert(views(self.options@)[i as int] == value@);
                return true;
            }
            i = i + 1;
        }
        proof {
            if views(self.options@).contains(value@) {
                let j = choose|j: int| 0 <= j < views(self.options@).len() && views(self.options@)[j] == value@;
                assert(self.options@[j]@ == value@);
            }
        }
        false
    }

    /// The widget's configuration.
    pub fn config(&self) -> (r: &WidgetConfig)
        ensures
            r@ == self@.config,
    {
        &self.config
    }

    /// The current value.
    pub fn get_value(&self) -> (r: &WidgetValue)
        ensures
            r@ == self@.config.current_value,
    {
        &self.config.current_value
    }

    /// The options offered.
    pub fn options(&self) -> (r: &Vec<String>)
        ensures
            views(r@) == self@.options,
    {
        &self.options
    }

    /// Whether values outside the options are accepted.
    pub fn allow_custom(&self) -> (r: bool)
        ensures
            r == self@.allow_custom,
    {
        self.allow_custom
    }

    /// Set the value: it must be a string among the options, unless custom
    /// values are allowed; on an error the widget is unchanged.
    pub fn set_value(&mut self, value: WidgetValue) -> (r: Result<(), WezzteError>)
        ensures
            match select_check(old(self)@.options, old(self)@.allow_custom, value@) {
                Ok(()) => r is Ok && final(self)@ == select_with_value(old(self)@, value@),
                Err(e) => r matches Err(x) && x@ == e && final(self)@ == old(self)@,
            },
            select_wf(old(self)@) ==> select_wf(final(self)@),
    {
        match self.validate_value(&value) {
            Ok(()) => {
                self.config.current_value = value;
                Ok(())
            },
            Err(e) => Err(e),
        }
    }

    /// Validate a potential value for this widget.
    pub fn validate_value(&self, value: &WidgetValue) -> (r: Result<(), WezzteError>)
        ensures
            match select_check(self@.options, self@.allow_custom, value@) {
                Ok(()) => r is Ok,
                Err(e) => r matches Err(x) && x@ == e,
            },
    {
        match value {
            WidgetValue::String(s) => {
                if !self.is_valid_option(s.as_str()) {
                    return Err(not_an_option(s.as_str(), &self.options));
                }
                Ok(())
            },
            _ => Err(
                WezzteError::invalid_param("value", to_owned_string("select widget requires string value")),
            ),
        }
    }

    /// The configuration text of the current value.
    pub fn to_config_string(&self) -> (r: String)
        ensures
            r@ == crate::widgets::traits::config_text(self@.config.current_value),
    {
        self.config.current_value.to_config_string()
    }

    /// Whether the value differs from the initial one.
    pub fn has_changed(&self) -> (r: bool)
        ensures
            r == (self@.config.current_value != self@.initial_value),
    {
        !self.config.current_value.same_as(&self.initial_value)
    }

    /// Reset the widget to its initial value.
    pub fn reset(&mut self) -> (r: Result<(), WezzteError>)
        ensures
            r is Ok,
            final(self)@ == select_with_value(old(self)@, old(self)@.initial_value),
            select_wf(old(self)@) ==> select_wf(final(self)@),
    {
        self.config.current_value = self.initial_value.copy();
        Ok(())
    }

    /// The data a front end needs to draw the select.
    pub fn render_data(&self) -> (r: SelectRenderData)
        ensures
            views(r.options@) == self@.options,
            r.current_value@ == (match self@.config.current_value {
                WVal::Str(s) => s,
                _ => ""@,
            }),
            r.allow_custom == self@.allow_custom,
            r.placeholder matches Some(p) && p@ == param_string_or(
                self@.config.parameters,
                "placeholder"@,
                ""@,
            ),
    {
        let mut options: Vec<String> = Vec::new();
        let mut i: usize = 0;
        while i < self.options.len()
            invariant
                i <= self.options@.len(),
                options@.len() == i,
                forall|j: int| 0 <= j < i ==> options@[j]@ == self.options@[j]@,
            decreases self.options.len() - i,
        {
            options.push(self.options[i].clone());
            i = i + 1;
        }
        assert(views(options@) =~= views(self.options@));
        SelectRenderData {
            options,
            current_value: to_owned_string(self.string_value()),
            allow_custom: self.allow_custom,
            placeholder: Some(self.config.get_param_as_string("placeholder", "")),
        }
    }

    /// Create a select from an annotation: the `options` parameter (comma
    /// separated, required) and the `allow_custom` parameter (false by default).
    pub fn from_annotation(
        id: String,
        config_key: String,
        annotation: &Annotation,
        current_value: WidgetValue,
    ) -> (r: Result<SelectWidget, WezzteError>)
        ensures
            ({
                let c = config_from_annotation(id@, config_key@, annotation.params@, current_value@);
                let opts = param_string_or(annotation.params@, "options"@, ""@);
                if opts.len() == 0 {
                    r matches Err(x) && x@ == (ErrorView::MissingParameter { param: "options"@ })
                } else {
                    match select_new(
                        c,
                        options_of(opts),
                        param_bool_or(annotation.params@, "allow_custom"@, false),
                    ) {
                        Ok(v) => r matches Ok(w) && w@ == v && select_wf(w@),
                        Err(e) => r matches Err(x) && x@ == e,
                    }
                }
            }),
    {
        let config = WidgetConfig::from_annotation(id, config_key, annotation, current_value);
        let options_str = annotation.get_param_as_string("options", "");
        if chars_of(options_str.as_str()).len() == 0 {
            return Err(WezzteError::missing_parameter(to_owned_string("options")));
        }
        let options = Self::parse_options(options_str.as_str());
        let allow_custom = annotation.get_param_as_bool("allow_custom", false);
        Self::new(config, options, allow_custom)
    }

    /// The UI type this widget handles.
    pub fn ui_type() -> (r: &'static str)
        ensures
            r@ == "select"@,
    {
        "select"
    }
}


/// Resetting after setting a value gives back the initial value, whatever was set.
pub proof fn law_select_reset_after_set(w: SelectView, v: WVal)
    ensures
        ({
            let after = select_with_value(w, v);
            let reset = select_with_value(after, after.initial_value);
            reset == select_with_value(w, w.initial_value) && reset.config.current_value == reset.initial_value
        }),
{
}

} // verus!

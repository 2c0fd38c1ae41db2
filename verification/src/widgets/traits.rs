//! Widget values, widget configuration and display labels.

use vstd::prelude::*;
use crate::ast::{Annotation, ParamMap, PEntries, PVal, entries_get, param_bool_or, param_string_or};
use crate::text::{
    capitalize, capitalize_range, chars_of, join, join_strings, push_str, split_bounds,
    split_char, str_eq, string_of, to_owned_string, views,
};

verus! {

// ---------------------------------------------------------------------
// Labels
// ---------------------------------------------------------------------

/// A snake_case key in Title Case: each `_`-separated word capitalized,
/// the words joined with single spaces.
pub open spec fn humanize(key: Seq<char>) -> Seq<char> {
    join(split_char(key, '_').map_values(|w: Seq<char>| capitalize(w)), " "@)
}

/// The display label of a config key: the dotted parts after the first,
/// each humanized, joined with ` › `; the key itself when it has no dot.
pub open spec fn label_of(key: Seq<char>) -> Seq<char> {
    let parts = split_char(key, '.').skip(1);
    if parts.len() == 0 {
        key
    } else {
        join(parts.map_values(|p: Seq<char>| humanize(p)), " › "@)
    }
}

/// The humanized form of `v[lo..hi]`.
fn humanize_range(v: &Vec<char>, lo: usize, hi: usize) -> (r: String)
    requires
        lo <= hi <= v@.len(),
    ensures
        r@ == humanize(v@.subrange(lo as int, hi as int)),
{
    let bounds = split_bounds(v, lo, hi, '_');
    let ghost pieces = split_char(v@.subrange(lo as int, hi as int), '_');
    let mut words: Vec<String> = Vec::new();
    let mut i: usize = 0;
    while i < bounds.len()
        invariant
            i <= bounds@.len(),
            bounds@.len() == pieces.len(),
            words@.len() == i,
            forall|k: int|
                0 <= k < bounds@.len() ==> lo <= (#[trigger] bounds@[k]).0 <= bounds@[k].1 <= hi
                    && v@.subrange(bounds@[k].0 as int, bounds@[k].1 as int) == pieces[k],
            hi <= v@.len(),
            forall|k: int| 0 <= k < i ==> (#[trigger] words@[k])@ == capitalize(pieces[k]),
        decreases bounds.len() - i,
    {
        let (a, b) = bounds[i];
        let w = capitalize_range(v, a, b);
        words.push(w);
        i = i + 1;
    }
    assert(views(words@) =~= pieces.map_values(|w: Seq<char>| capitalize(w)));
    join_strings(&words, " ")
}

/// Configuration of a widget instance.
#[derive(Debug)]
pub struct WidgetConfig {
    /// Unique identifier for this widget
    pub id: String,
    /// Configuration key this widget controls (e.g. `config.font_size`)
    pub config_key: String,
    /// Current value
    pub current_value: WidgetValue,
    /// Widget-specific parameters from the annotation
    pub parameters: ParamMap,
    /// Display label for the widget
    pub label: String,
    /// Optional tooltip text
    pub tooltip: Option<String>,
    /// Whether the widget is enabled
    pub enabled: bool,
}

/// Model of [`WidgetConfig`].
pub struct WidgetConfigView {
    pub id: Seq<char>,
    pub config_key: Seq<char>,
    pub current_value: WVal,
    pub parameters: PEntries,
    pub label: Seq<char>,
    pub tooltip: Option<Seq<char>>,
    pub enabled: bool,
}

impl View for WidgetConfig {
    type V = WidgetConfigView;

    open spec fn view(&self) -> WidgetConfigView {
        WidgetConfigView {
            id: self.id@,
            config_key: self.config_key@,
            current_value: self.current_value@,
            parameters: self.parameters@,
            label: self.label@,
            tooltip: match self.tooltip {
                Some(t) => Some(t@),
                None => None,
            },
            enabled: self.enabled,
        }
    }
}

/// The string parameter `name`, if present and a string.
pub open spec fn param_string(params: PEntries, name: Seq<char>) -> Option<Seq<char>> {
    match entries_get(params, name) {
        Some(PVal::Str(s)) => Some(s),
        _ => None,
    }
}

/// The configuration of a widget made from an annotation.
pub open spec fn config_from_annotation(
    id: Seq<char>,
    config_key: Seq<char>,
    params: PEntries,
    current_value: WVal,
) -> WidgetConfigView {
    WidgetConfigView {
        id,
        config_key,
        current_value,
        parameters: params,
        label: label_of(config_key),
        tooltip: param_string(params, "tooltip"@),
        enabled: param_bool_or(params, "enabled"@, true),
    }
}

impl WidgetConfig {
    /// Create a widget config from an annotation and the current value: the
    /// label comes from the config key, the tooltip and enabled flag from
    /// the `tooltip` and `enabled` parameters.
    pub fn from_annotation(
        id: String,
        config_key: String,
        annotation: &Annotation,
        current_value: WidgetValue,
    ) -> (r: WidgetConfig)
        ensures
            r@ == config_from_annotation(id@, config_key@, annotation.params@, current_value@),
    {
        let label = Self::generate_label(config_key.as_str());
        let tooltip = match annotation.get_param("tooltip") {
            Some(p) => match p.as_string() {
                Some(t) => Some(t.clone()),
                None => None,
            },
            None => None,
        };
        let enabled = annotation.get_param_as_bool("enabled", true);
        WidgetConfig {
            id,
            config_key,
            current_value,
            parameters: annotation.params.copy(),
            label,
            tooltip,
            enabled,
        }
    }

    /// The string parameter `key`, or `default`.
    pub fn get_param_as_string(&self, key: &str, default: &str) -> (r: String)
        ensures
            r@ == param_string_or(self.parameters@, key@, default@),
    {
        match self.parameters.get(key) {
            Some(v) => match v.as_string() {
                Some(s) => s.clone(),
                None => to_owned_string(default),
            },
            None => to_owned_string(default),
        }
    }

    /// The boolean parameter `key`, or `default`.
    pub fn get_param_as_bool(&self, key: &str, default: bool) -> (r: bool)
        ensures
            r == param_bool_or(self.parameters@, key@, default),
    {
        match self.parameters.get(key) {
            Some(v) => match v.as_bool() {
                Some(b) => b,
                None => default,
            },
            None => default,
        }
    }

    /// A copy of this configuration.
    pub fn copy(&self) -> (r: WidgetConfig)
        ensures
            r@ == self@,
    {
        WidgetConfig {
            id: self.id.clone(),
            config_key: self.config_key.clone(),
            current_value: self.current_value.copy(),
            parameters: self.parameters.copy(),
            label: self.label.clone(),
            tooltip: match &self.tooltip {
                Some(t) => Some(t.clone()),
                None => None,
            },
            enabled: self.enabled,
        }
    }

    /// Convert snake_case to Title Case.
    pub fn humanize_key(key: &str) -> (r: String)
        ensures
            r@ == humanize(key@),
    {
        let v = chars_of(key);
        assert(v@.subrange(0, v@.len() as int) =~= v@);
        humanize_range(&v, 0, v.len())
    }

    /// Generate a user-friendly label from a config key
    /// (`config.colors.background` gives `Colors › Background`).
    pub fn generate_label(config_key: &str) -> (r: String)
        ensures
            r@ == label_of(config_key@),
    {
        let v = chars_of(config_key);
        assert(v@.subrange(0, v@.len() as int) =~= v@);
        let bounds = split_bounds(&v, 0, v.len(), '.');
        let ghost pieces = split_char(v@, '.');
        proof {
            crate::text::lemma_split_char_nonempty(v@, '.');
        }
        if bounds.len() <= 1 {
            return to_owned_string(config_key);
        }
        let mut labels: Vec<String> = Vec::new();
        let mut i: usize = 1;
        while i < bounds.len()
            invariant
                1 <= i <= bounds@.len(),
                bounds@.len() == pieces.len(),
                forall|k: int|
                    0 <= k < bounds@.len() ==> (#[trigger] bounds@[k]).0 <= bounds@[k].1 <= v@.len()
                        && v@.subrange(bounds@[k].0 as int, bounds@[k].1 as int) == pieces[k],
                labels@.len() == i - 1,
                forall|k: int| 0 <= k < i - 1 ==> (#[trigger] labels@[k])@ == humanize(pieces[k + 1]),
            decreases bounds.len() - i,
        {
            let (a, b) = bounds[i];
            let h = humanize_range(&v, a, b);
            labels.push(h);
            i = i + 1;
        }
        assert(views(labels@) =~= pieces.skip(1).map_values(|p: Seq<char>| humanize(p)));
        join_strings(&labels, " › ")
    }
}

// ---------------------------------------------------------------------
// Widget values
// ---------------------------------------------------------------------

/// Values that widgets can hold and emit.
#[derive(Debug)]
pub enum WidgetValue {
    /// String value
    String(String),
    /// Numeric value, held as its decimal text; values read from a
    /// configuration hold the text Rust displays the number with (see
    /// `config_value_outcome`), and equal texts are equal values
    Number(String),
    /// Boolean value
    Boolean(bool),
    /// Color value (hex string)
    Color(String),
    /// List of values
    List(Vec<WidgetValue>),
    /// Key-value pairs, in insertion order
    Object(Vec<(String, WidgetValue)>),
}

/// Model of [`WidgetValue`].
pub enum WVal {
    Str(Seq<char>),
    Num(Seq<char>),
    Bool(bool),
    Color(Seq<char>),
    List(Seq<WVal>),
    Obj(Seq<(Seq<char>, WVal)>),
}

pub open spec fn wval_of(v: &WidgetValue) -> WVal
    decreases v,
{
    match v {
        WidgetValue::String(s) => WVal::Str(s@),
        WidgetValue::Number(s) => WVal::Num(s@),
        WidgetValue::Boolean(b) => WVal::Bool(*b),
        WidgetValue::Color(s) => WVal::Color(s@),
        WidgetValue::List(l) => WVal::List(
            Seq::new(l@.len(), |i: int| if 0 <= i < l@.len() { wval_of(&l@[i]) } else { WVal::Bool(false) }),
        ),
        WidgetValue::Object(es) => WVal::Obj(
            Seq::new(
                es@.len(),
                |i: int|
                    if 0 <= i < es@.len() {
                        (es@[i].0@, wval_of(&es@[i].1))
                    } else {
                        (Seq::empty(), WVal::Bool(false))
                    },
            ),
        ),
    }
}

impl View for WidgetValue {
    type V = WVal;

    open spec fn view(&self) -> WVal {
        wval_of(self)
    }
}

/// The configuration text of a value: strings and colors quoted, numbers
/// as their decimal text, lists in `[..]` and objects in `{..}` with `, `
/// between items.
pub open spec fn config_text(v: WVal) -> Seq<char>
    decreases v,
{
    match v {
        WVal::Str(s) => "\""@ + s + "\""@,
        WVal::Num(t) => t,
        WVal::Bool(b) => if b {
            "true"@
        } else {
            "false"@
        },
        WVal::Color(c) => "\""@ + c + "\""@,
        WVal::List(items) => "["@ + join(item_texts(items), ", "@) + "]"@,
        WVal::Obj(es) => "{"@ + join(entry_texts(es), ", "@) + "}"@,
    }
}

/// The configuration texts of the items of a list.
pub open spec fn item_texts(items: Seq<WVal>) -> Seq<Seq<char>>
    decreases items,
{
    Seq::new(items.len(), |i: int| if 0 <= i < items.len() { config_text(items[i]) } else { Seq::empty() })
}

/// The `key: value` texts of the entries of an object.
pub open spec fn entry_texts(es: Seq<(Seq<char>, WVal)>) -> Seq<Seq<char>>
    decreases es,
{
    Seq::new(
        es.len(),
        |i: int| if 0 <= i < es.len() { es[i].0 + ": "@ + config_text(es[i].1) } else { Seq::empty() },
    )
}

/// The name of the kind of a value.
pub open spec fn value_type_name(v: WVal) -> Seq<char> {
    match v {
        WVal::Str(_) => "string"@,
        WVal::Num(_) => "number"@,
        WVal::Bool(_) => "boolean"@,
        WVal::Color(_) => "color"@,
        WVal::List(_) => "list"@,
        WVal::Obj(_) => "object"@,
    }
}

impl WidgetValue {
    /// Structural equality of two values.
    pub fn same_as(&self, other: &WidgetValue) -> (r: bool)
        ensures
            r == (self@ == other@),
        decreases self,
    {
        match (self, other) {
            (WidgetValue::String(x), WidgetValue::String(y)) => str_eq(x.as_str(), y.as_str()),
            (WidgetValue::Number(x), WidgetValue::Number(y)) => str_eq(x.as_str(), y.as_str()),
            (WidgetValue::Boolean(x), WidgetValue::Boolean(y)) => *x == *y,
            (WidgetValue::Color(x), WidgetValue::Color(y)) => str_eq(x.as_str(), y.as_str()),
            (WidgetValue::List(xs), WidgetValue::List(ys)) => {
                if xs.len() != ys.len() {
                    proof {
                        if self@ == other@ {
                            assert(self@->List_0.len() == other@->List_0.len());
                        }
                    }
                    return false;
                }
                let mut i: usize = 0;
                while i < xs.len()
                    invariant
                        i <= xs@.len(),
                        xs@.len() == ys@.len(),
                        self == WidgetValue::List(*xs),
                        other == WidgetValue::List(*ys),
                        forall|j: int| 0 <= j < i ==> wval_of(&xs@[j]) == wval_of(&ys@[j]),
                    decreases xs.len() - i,
                {
                    proof {
                        assert(decreases_to!(*self => *xs));
                        assert(decreases_to!(*xs => xs@));
                        assert(decreases_to!(xs@ => xs@[i as int]));
                    }
                    if !xs[i].same_as(&ys[i]) {
                        proof {
                            if self@ == other@ {
                                assert(self@->List_0[i as int] == other@->List_0[i as int]);
                            }
                        }
                        return false;
                    }
                    i = i + 1;
                }
                assert(self@->List_0 =~= other@->List_0);
                true
            },
            (WidgetValue::Object(xs), WidgetValue::Object(ys)) => {
                if xs.len() != ys.len() {
                    proof {
                        if self@ == other@ {
                            assert(self@->Obj_0.len() == other@->Obj_0.len());
                        }
                    }
                    return false;
                }
                let mut i: usize = 0;
                while i < xs.len()
                    invariant
                        i <= xs@.len(),
                        xs@.len() == ys@.len(),
                        self == WidgetValue::Object(*xs),
                        other == WidgetValue::Object(*ys),
                        forall|j: int|
                            0 <= j < i ==> xs@[j].0@ == ys@[j].0@ && wval_of(&xs@[j].1) == wval_of(
                                &ys@[j].1,
                            ),
                    decreases xs.len() - i,
                {
                    proof {
                        assert(decreases_to!(*self => *xs));
                        assert(decreases_to!(*xs => xs@));
                        assert(decreases_to!(xs@ => xs@[i as int]));
                        assert(decreases_to!(xs@[i as int] => xs@[i as int].1));
                    }
                    let same_key = str_eq(xs[i].0.as_str(), ys[i].0.as_str());
                    if !same_key || !xs[i].1.same_as(&ys[i].1) {
                        proof {
                            if self@ == other@ {
                                assert(self@->Obj_0[i as int] == other@->Obj_0[i as int]);
                            }
                        }
                        return false;
                    }
                    i = i + 1;
                }
                assert(self@->Obj_0 =~= other@->Obj_0);
                true
            },
            _ => false,
        }
    }

    /// A copy of this value.
    pub fn copy(&self) -> (r: WidgetValue)
        ensures
            r@ == self@,
        decreases self,
    {
        match self {
            WidgetValue::String(s) => WidgetValue::String(s.clone()),
            WidgetValue::Number(s) => WidgetValue::Number(s.clone()),
            WidgetValue::Boolean(b) => WidgetValue::Boolean(*b),
            WidgetValue::Color(s) => WidgetValue::Color(s.clone()),
            WidgetValue::List(xs) => {
                proof {
                    assert forall|j: int| 0 <= j < xs@.len() implies decreases_to!(*self => #[trigger] xs@[j]) by {
                        assert(decreases_to!(*self => *xs));
                        assert(decreases_to!(*xs => xs@));
                        assert(decreases_to!(xs@ => xs@[j]));
                    }
                }
                let mut out: Vec<WidgetValue> = Vec::new();
                let mut i: usize = 0;
                while i < xs.len()
                    invariant
                        i <= xs@.len(),
                        self == WidgetValue::List(*xs),
                        forall|j: int| 0 <= j < xs@.len() ==> decreases_to!(*self => #[trigger] xs@[j]),
                        out@.len() == i,
                        forall|j: int| 0 <= j < i ==> wval_of(&out@[j]) == wval_of(&xs@[j]),
                    decreases xs.len() - i,
                {
                    out.push(xs[i].copy());
                    i = i + 1;
                }
                let r = WidgetValue::List(out);
                assert(r@->List_0 =~= self@->List_0);
                r
            },
            WidgetValue::Object(xs) => {
                proof {
                    assert forall|j: int| 0 <= j < xs@.len() implies decreases_to!(*self => #[trigger] xs@[j].1) by {
                        assert(decreases_to!(*self => *xs));
                        assert(decreases_to!(*xs => xs@));
                        assert(decreases_to!(xs@ => xs@[j]));
                        assert(decreases_to!(xs@[j] => xs@[j].1));
                    }
                }
                let mut out: Vec<(String, WidgetValue)> = Vec::new();
                let mut i: usize = 0;
                while i < xs.len()
                    invariant
                        i <= xs@.len(),
                        self == WidgetValue::Object(*xs),
                        forall|j: int| 0 <= j < xs@.len() ==> decreases_to!(*self => #[trigger] xs@[j].1),
                        out@.len() == i,
                        forall|j: int|
                            0 <= j < i ==> out@[j].0@ == xs@[j].0@ && wval_of(&out@[j].1) == wval_of(
                                &xs@[j].1,
                            ),
                    decreases xs.len() - i,
                {
                    out.push((xs[i].0.clone(), xs[i].1.copy()));
                    i = i + 1;
                }
                let r = WidgetValue::Object(out);
                assert(r@->Obj_0 =~= self@->Obj_0);
                r
            },
        }
    }

    /// Get the data type name for this value.
    pub fn kind_name(&self) -> (r: &'static str)
        ensures
            r@ == value_type_name(self@),
    {
        match self {
            WidgetValue::String(_) => "string",
            WidgetValue::Number(_) => "number",
            WidgetValue::Boolean(_) => "boolean",
            WidgetValue::Color(_) => "color",
            WidgetValue::List(_) => "list",
            WidgetValue::Object(_) => "object",
        }
    }

    /// Convert to configuration string representation.
    pub fn to_config_string(&self) -> (r: String)
        ensures
            r@ == config_text(self@),
        decreases self,
    {
        match self {
            WidgetValue::String(s) | WidgetValue::Color(s) => {
                let mut out = to_owned_string("\"");
                push_str(&mut out, s.as_str());
                push_str(&mut out, "\"");
                out
            },
            WidgetValue::Number(t) => t.clone(),
            WidgetValue::Boolean(b) => if *b {
                to_owned_string("true")
            } else {
                to_owned_string("false")
            },
            WidgetValue::List(xs) => {
                proof {
                    assert forall|j: int| 0 <= j < xs@.len() implies decreases_to!(*self => #[trigger] xs@[j]) by {
                        assert(decreases_to!(*self => *xs));
                        assert(decreases_to!(*xs => xs@));
                        assert(decreases_to!(xs@ => xs@[j]));
                    }
                }
                let mut items: Vec<String> = Vec::new();
                let mut i: usize = 0;
                while i < xs.len()
                    invariant
                        i <= xs@.len(),
                        self == WidgetValue::List(*xs),
                        forall|j: int| 0 <= j < xs@.len() ==> decreases_to!(*self => #[trigger] xs@[j]),
                        items@.len() == i,
                        forall|j: int| 0 <= j < i ==> items@[j]@ == config_text(wval_of(&xs@[j])),
                    decreases xs.len() - i,
                {
                    items.push(xs[i].to_config_string());
                    i = i + 1;
                }
                assert(views(items@) =~= item_texts(self@->List_0));
                let mut out = to_owned_string("[");
                let joined = join_strings(&items, ", ");
                push_str(&mut out, joined.as_str());
                push_str(&mut out, "]");
                out
            },
            WidgetValue::Object(xs) => {
                proof {
                    assert forall|j: int| 0 <= j < xs@.len() implies decreases_to!(*self => #[trigger] xs@[j].1) by {
                        assert(decreases_to!(*self => *xs));
                        assert(decreases_to!(*xs => xs@));
                        assert(decreases_to!(xs@ => xs@[j]));
                        assert(decreases_to!(xs@[j] => xs@[j].1));
                    }
                }
                let mut items: Vec<String> = Vec::new();
                let mut i: usize = 0;
                while i < xs.len()
                    invariant
                        i <= xs@.len(),
                        self == WidgetValue::Object(*xs),
                        forall|j: int| 0 <= j < xs@.len() ==> decreases_to!(*self => #[trigger] xs@[j].1),
                        items@.len() == i,
                        forall|j: int|
                            0 <= j < i ==> items@[j]@ == xs@[j].0@ + ": "@ + config_text(
                                wval_of(&xs@[j].1),
                            ),
                    decreases xs.len() - i,
                {
                    let mut item = xs[i].0.clone();
                    push_str(&mut item, ": ");
                    let inner = xs[i].1.to_config_string();
                    push_str(&mut item, inner.as_str());
                    items.push(item);
                    i = i + 1;
                }
                assert(views(items@) =~= entry_texts(self@->Obj_0));
                let mut out = to_owned_string("{");
                let joined = join_strings(&items, ", ");
                push_str(&mut out, joined.as_str());
                push_str(&mut out, "}");
                out
            },
        }
    }
}

/// A widget configuration made from an annotation is enabled unless the
/// annotation has a boolean `enabled` parameter, whose value it then takes.
pub proof fn law_widgets_enabled_by_default(id: Seq<char>, key: Seq<char>, params: PEntries, v: WVal)
    ensures
        !(entries_get(params, "enabled"@) matches Some(PVal::Bool(_))) ==> config_from_annotation(
            id,
            key,
            params,
            v,
        ).enabled,
        entries_get(params, "enabled"@) matches Some(PVal::Bool(b)) ==> config_from_annotation(
            id,
            key,
            params,
            v,
        ).enabled == b,
{
}

} // verus!

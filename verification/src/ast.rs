//! Abstract syntax of decorator annotations.

use vstd::prelude::*;
use crate::error::{WezzteError, ErrorView};
use crate::text::{chars_of, chars_eq, to_owned_string, str_eq};

verus! {

/// UI component type named by a decoration.
#[derive(Debug, Clone, PartialEq)]
pub enum UiType {
    /// Slider widget for numeric ranges
    Slider,
    /// Integer-specific slider
    IntSlider,
    /// Numerical input field
    Numerical,
    /// Text input field
    Text,
    /// Dropdown selector
    Select,
    /// Theme selector (special select)
    ThemeSelect,
    /// Color picker widget
    ColorPicker,
    /// Color scheme selector
    ColorScheme,
    /// Table path handler
    TablePath,
    /// Any other name
    Custom(String),
}

/// Model of [`UiType`].
pub enum UiTypeView {
    Slider,
    IntSlider,
    Numerical,
    Text,
    Select,
    ThemeSelect,
    ColorPicker,
    ColorScheme,
    TablePath,
    Custom(Seq<char>),
}

impl View for UiType {
    type V = UiTypeView;

    open spec fn view(&self) -> UiTypeView {
        match self {
            UiType::Slider => UiTypeView::Slider,
            UiType::IntSlider => UiTypeView::IntSlider,
            UiType::Numerical => UiTypeView::Numerical,
            UiType::Text => UiTypeView::Text,
            UiType::Select => UiTypeView::Select,
            UiType::ThemeSelect => UiTypeView::ThemeSelect,
            UiType::ColorPicker => UiTypeView::ColorPicker,
            UiType::ColorScheme => UiTypeView::ColorScheme,
            UiType::TablePath => UiTypeView::TablePath,
            UiType::Custom(s) => UiTypeView::Custom(s@),
        }
    }
}

/// The UI type a name denotes: one of the nine known names, else a custom type.
pub open spec fn ui_type_of(s: Seq<char>) -> UiTypeView {
    if s == "slider"@ {
        UiTypeView::Slider
    } else if s == "int_slider"@ {
        UiTypeView::IntSlider
    } else if s == "numerical"@ {
        UiTypeView::Numerical
    } else if s == "text"@ {
        UiTypeView::Text
    } else if s == "select"@ {
        UiTypeView::Select
    } else if s == "theme_select"@ {
        UiTypeView::ThemeSelect
    } else if s == "color_picker"@ {
        UiTypeView::ColorPicker
    } else if s == "color_scheme"@ {
        UiTypeView::ColorScheme
    } else if s == "table_path"@ {
        UiTypeView::TablePath
    } else {
        UiTypeView::Custom(s)
    }
}

/// The name of a UI type.
pub open spec fn ui_type_name(t: UiTypeView) -> Seq<char> {
    match t {
        UiTypeView::Slider => "slider"@,
        UiTypeView::IntSlider => "int_slider"@,
        UiTypeView::Numerical => "numerical"@,
        UiTypeView::Text => "text"@,
        UiTypeView::Select => "select"@,
        UiTypeView::ThemeSelect => "theme_select"@,
        UiTypeView::ColorPicker => "color_picker"@,
        UiTypeView::ColorScheme => "color_scheme"@,
        UiTypeView::TablePath => "table_path"@,
        UiTypeView::Custom(s) => s,
    }
}

impl UiType {
    /// The UI type named by `s`.
    pub fn from(s: &str) -> (r: UiType)
        ensures
            r@ == ui_type_of(s@),
    {
        if str_eq(s, "slider") {
            UiType::Slider
        } else if str_eq(s, "int_slider") {
            UiType::IntSlider
        } else if str_eq(s, "numerical") {
            UiType::Numerical
        } else if str_eq(s, "text") {
            UiType::Text
        } else if str_eq(s, "select") {
            UiType::Select
        } else if str_eq(s, "theme_select") {
            UiType::ThemeSelect
        } else if str_eq(s, "color_picker") {
            UiType::ColorPicker
        } else if str_eq(s, "color_scheme") {
            UiType::ColorScheme
        } else if str_eq(s, "table_path") {
            UiType::TablePath
        } else {
            UiType::Custom(to_owned_string(s))
        }
    }

    /// The name of this UI type.
    pub fn as_str(&self) -> (r: &str)
        ensures
            r@ == ui_type_name(self@),
    {
        match self {
            UiType::Slider => "slider",
            UiType::IntSlider => "int_slider",
            UiType::Numerical => "numerical",
            UiType::Text => "text",
            UiType::Select => "select",
            UiType::ThemeSelect => "theme_select",
            UiType::ColorPicker => "color_picker",
            UiType::ColorScheme => "color_scheme",
            UiType::TablePath => "table_path",
            UiType::Custom(s) => s.as_str(),
        }
    }
}

/// Reading a UI type's name back gives the name: `UiType::from(s).as_str() == s`.
pub proof fn law_ui_type_name_roundtrip(s: Seq<char>)
    ensures
        ui_type_name(ui_type_of(s)) == s,
{
}

/// A type that is not a custom type spelling a known name survives a round
/// trip through its name.
pub proof fn law_ui_type_roundtrip(t: UiTypeView)
    requires
        t matches UiTypeView::Custom(s) ==> ui_type_of(s) is Custom,
    ensures
        ui_type_of(ui_type_name(t)) == t,
{
    reveal_strlit("slider");
    reveal_strlit("int_slider");
    reveal_strlit("numerical");
    reveal_strlit("text");
    reveal_strlit("select");
    reveal_strlit("theme_select");
    reveal_strlit("color_picker");
    reveal_strlit("color_scheme");
    reveal_strlit("table_path");
    assert("slider"@.len() == 6);
    assert("int_slider"@.len() == 10);
    assert("numerical"@.len() == 9);
    assert("text"@.len() == 4);
    assert("select"@.len() == 6);
    assert("theme_select"@.len() == 12);
    assert("color_picker"@.len() == 12);
    assert("color_scheme"@.len() == 12);
    assert("table_path"@.len() == 10);
    assert("select"@[2] != "slider"@[2]);
    assert("color_scheme"@[6] != "color_picker"@[6]);
    assert("theme_select"@[0] != "color_picker"@[0]);
    assert("theme_select"@[0] != "color_scheme"@[0]);
    assert("table_path"@[0] != "int_slider"@[0]);
    match t {
        UiTypeView::Custom(s) => {
            assert(ui_type_of(s) is Custom);
            assert(ui_type_of(s) == UiTypeView::Custom(s));
        },
        UiTypeView::Slider => {
            assert(ui_type_of(ui_type_name(t)) == UiTypeView::Slider);
        },
        UiTypeView::IntSlider => {
            assert(ui_type_of(ui_type_name(t)) == UiTypeView::IntSlider);
        },
        UiTypeView::Numerical => {
            assert(ui_type_of(ui_type_name(t)) == UiTypeView::Numerical);
        },
        UiTypeView::Text => {
            assert(ui_type_of(ui_type_name(t)) == UiTypeView::Text);
        },
        UiTypeView::Select => {
            assert(ui_type_of(ui_type_name(t)) == UiTypeView::Select);
        },
        UiTypeView::ThemeSelect => {
            assert(ui_type_of(ui_type_name(t)) == UiTypeView::ThemeSelect);
        },
        UiTypeView::ColorPicker => {
            assert(ui_type_of(ui_type_name(t)) == UiTypeView::ColorPicker);
        },
        UiTypeView::ColorScheme => {
            assert(ui_type_of(ui_type_name(t)) == UiTypeView::ColorScheme);
        },
        UiTypeView::TablePath => {
            assert(ui_type_of(ui_type_name(t)) == UiTypeView::TablePath);
        },
    }
}

/// Parameter values that can appear in decorations.
#[derive(Debug, PartialEq)]
pub enum ParamValue {
    /// String value
    String(String),
    /// Numeric value, kept as the decimal literal written in the decoration
    /// (digits, optionally followed by `.` and more digits)
    Number(String),
    /// Boolean value
    Boolean(bool),
    /// List/array value
    List(Vec<ParamValue>),
    /// Object/dictionary value
    Object(ParamMap),
}

/// A map from parameter names to values; inserting an existing name replaces
/// its value in place, a new name goes to the end.
#[derive(Debug, PartialEq)]
pub struct ParamMap {
    pub entries: Vec<(String, ParamValue)>,
}

/// Model of [`ParamValue`].
pub enum PVal {
    Str(Seq<char>),
    Num(Seq<char>),
    Bool(bool),
    List(Seq<PVal>),
    Obj(Seq<(Seq<char>, PVal)>),
}

/// Model of a parameter map: its entries in order.
pub type PEntries = Seq<(Seq<char>, PVal)>;

pub open spec fn pval_of(v: &ParamValue) -> PVal
    decreases v,
{
    match v {
        ParamValue::String(s) => PVal::Str(s@),
        ParamValue::Number(s) => PVal::Num(s@),
        ParamValue::Boolean(b) => PVal::Bool(*b),
        ParamValue::List(l) => PVal::List(
            Seq::new(l@.len(), |i: int| if 0 <= i < l@.len() { pval_of(&l@[i]) } else { PVal::Bool(false) }),
        ),
        ParamValue::Object(m) => PVal::Obj(entries_of(m)),
    }
}

pub open spec fn entries_of(m: &ParamMap) -> PEntries
    decreases m,
{
    Seq::new(
        m.entries@.len(),
        |i: int|
            if 0 <= i < m.entries@.len() {
                (m.entries@[i].0@, pval_of(&m.entries@[i].1))
            } else {
                (Seq::empty(), PVal::Bool(false))
            },
    )
}

impl View for ParamValue {
    type V = PVal;

    open spec fn view(&self) -> PVal {
        pval_of(self)
    }
}

impl View for ParamMap {
    type V = PEntries;

    open spec fn view(&self) -> PEntries {
        entries_of(self)
    }
}

/// Index of the entry with key `k`.
pub open spec fn key_index(es: PEntries, k: Seq<char>) -> Option<int>
    decreases es.len(),
{
    if es.len() == 0 {
        None
    } else {
        match key_index(es.drop_last(), k) {
            Some(i) => Some(i),
            None => if es.last().0 == k {
                Some(es.len() - 1)
            } else {
                None
            },
        }
    }
}

pub proof fn lemma_key_index(es: PEntries, k: Seq<char>)
    ensures
        key_index(es, k) matches Some(i) ==> 0 <= i < es.len() && es[i].0 == k && forall|j: int|
            0 <= j < i ==> es[j].0 != k,
        key_index(es, k) is None ==> forall|j: int| 0 <= j < es.len() ==> es[j].0 != k,
    decreases es.len(),
{
    if es.len() > 0 {
        let d = es.drop_last();
        lemma_key_index(d, k);
        assert(forall|j: int| 0 <= j < d.len() ==> #[trigger] d[j] == es[j]);
        match key_index(d, k) {
            Some(i) => {
                assert(key_index(es, k) == Some(i));
                assert(es[i].0 == k);
                assert forall|j: int| 0 <= j < i implies es[j].0 != k by {
                    assert(d[j] == es[j]);
                }
            },
            None => {
                assert forall|j: int| 0 <= j < d.len() implies es[j].0 != k by {
                    assert(d[j] == es[j]);
                }
                if es.last().0 == k {
                    assert(key_index(es, k) == Some(es.len() - 1));
                } else {
                    assert(key_index(es, k) is None);
                }
            },
        }
    }
}

/// The value stored under `k`.
pub open spec fn entries_get(es: PEntries, k: Seq<char>) -> Option<PVal> {
    match key_index(es, k) {
        Some(i) => Some(es[i].1),
        None => None,
    }
}

/// The entries after storing `v` under `k`.
pub open spec fn entries_insert(es: PEntries, k: Seq<char>, v: PVal) -> PEntries {
    match key_index(es, k) {
        Some(i) => es.update(i, (k, v)),
        None => es.push((k, v)),
    }
}

/// No key is held twice.
pub open spec fn keys_unique(es: PEntries) -> bool {
    forall|i: int, j: int| 0 <= i < j < es.len() ==> (#[trigger] es[i]).0 != (#[trigger] es[j]).0
}

/// Storing a value keeps every key held once.
pub proof fn law_insert_keeps_keys_unique(es: PEntries, k: Seq<char>, v: PVal)
    requires
        keys_unique(es),
    ensures
        keys_unique(entries_insert(es, k, v)),
{
    lemma_key_index(es, k);
    let r = entries_insert(es, k, v);
    match key_index(es, k) {
        Some(i) => {
            assert forall|a: int, b: int| 0 <= a < b < r.len() implies (#[trigger] r[a]).0 != (#[trigger] r[b]).0 by {
                assert(r[a].0 == es[a].0 && r[b].0 == es[b].0);
            }
        },
        None => {
            assert forall|a: int, b: int| 0 <= a < b < r.len() implies (#[trigger] r[a]).0 != (#[trigger] r[b]).0 by {
                if b < es.len() {
                    assert(r[a] == es[a] && r[b] == es[b]);
                } else {
                    assert(r[a] == es[a]);
                }
            }
        },
    }
}

/// Reading a key right after storing it gives the stored value.
pub proof fn law_insert_then_get(es: PEntries, k: Seq<char>, v: PVal)
    ensures
        entries_get(entries_insert(es, k, v), k) == Some(v),
{
    lemma_key_index(es, k);
    lemma_key_index(entries_insert(es, k, v), k);
    match key_index(es, k) {
        Some(i) => {
            let es2 = entries_insert(es, k, v);
            match key_index(es2, k) {
                Some(j) => {
                    if j < i {
                        assert(es2[j] == es[j]);
                    }
                    if i < j {
                        assert(es2[i].0 == k);
                    }
                },
                None => {
                    assert(es2[i].0 == k);
                },
            }
        },
        None => {
            let es2 = entries_insert(es, k, v);
            match key_index(es2, k) {
                Some(j) => {
                    assert(j == es.len());
                },
                None => {
                    assert(es2[es.len() as int].0 == k);
                },
            }
        },
    }
}

/// Storing a key leaves every other key's value unchanged.
pub proof fn law_insert_keeps_others(es: PEntries, k: Seq<char>, v: PVal, other: Seq<char>)
    requires
        other != k,
    ensures
        entries_get(entries_insert(es, k, v), other) == entries_get(es, other),
{
    let es2 = entries_insert(es, k, v);
    lemma_key_index(es, k);
    lemma_key_index(es, other);
    lemma_key_index(es2, other);
    match key_index(es, other) {
        Some(i) => {
            assert(es2[i].0 == other);
            match key_index(es2, other) {
                Some(j) => {
                    assert(j == i);
                },
                None => {},
            }
        },
        None => {
            match key_index(es2, other) {
                Some(j) => {
                    assert(j < es.len() ==> es[j].0 == other);
                },
                None => {},
            }
        },
    }
}

impl ParamMap {
    /// An empty map.
    pub fn new() -> (m: ParamMap)
        ensures
            m@ == Seq::<(Seq<char>, PVal)>::empty(),
            keys_unique(m@),
    {
        let m = ParamMap { entries: Vec::new() };
        assert(m@ =~= Seq::<(Seq<char>, PVal)>::empty());
        m
    }

    fn index_of(&self, key: &Vec<char>) -> (r: Option<usize>)
        ensures
            r matches Some(i) ==> key_index(self@, key@) == Some(i as int),
            r is None ==> key_index(self@, key@) is None,
    {
        let mut i: usize = 0;
        let ghost es = self@;
        while i < self.entries.len()
            invariant
                i <= self.entries@.len(),
                es == self@,
                es.len() == self.entries@.len(),
                forall|j: int| 0 <= j < i ==> es[j].0 != key@,
            decreases self.entries.len() - i,
        {
            let kc = chars_of(self.entries[i].0.as_str());
            if chars_eq(&kc, key) {
                proof {
                    lemma_key_index(es, key@);
                    assert(es[i as int].0 == key@);
                    match key_index(es, key@) {
                        Some(j) => {
                            assert(!(j < i));
                            assert(!(i < j));
                        },
                        None => {},
                    }
                }
                return Some(i);
            }
            i = i + 1;
        }
        proof {
            lemma_key_index(es, key@);
        }
        None
    }

    /// The value stored under `key`.
    pub fn get(&self, key: &str) -> (r: Option<&ParamValue>)
        ensures
            r matches Some(v) ==> entries_get(self@, key@) == Some(v@),
            r is None ==> entries_get(self@, key@) is None,
    {
        let kc = chars_of(key);
        proof {
            lemma_key_index(self@, key@);
        }
        match self.index_of(&kc) {
            Some(i) => Some(&self.entries[i].1),
            None => None,
        }
    }

    /// Whether some value is stored under `key`.
    pub fn contains_key(&self, key: &str) -> (r: bool)
        ensures
            r == entries_get(self@, key@) is Some,
    {
        let kc = chars_of(key);
        self.index_of(&kc).is_some()
    }

    /// Stores `value` under `key`, replacing an existing value.
    pub fn insert(&mut self, key: String, value: ParamValue)
        ensures
            final(self)@ == entries_insert(old(self)@, key@, value@),
            keys_unique(old(self)@) ==> keys_unique(final(self)@),
    {
        proof {
            if keys_unique(self@) {
                law_insert_keeps_keys_unique(self@, key@, value@);
            }
        }
        let kc = chars_of(key.as_str());
        proof {
            lemma_key_index(self@, key@);
        }
        match self.index_of(&kc) {
            Some(i) => {
                let ghost before = self@;
                self.entries.set(i, (key, value));
                assert(self@ =~= before.update(i as int, (kc@, value@)));
            },
            None => {
                let ghost before = self@;
                self.entries.push((key, value));
                assert(self@ =~= before.push((kc@, value@)));
            },
        }
    }

    /// A copy of this map.
    pub fn copy(&self) -> (r: ParamMap)
        ensures
            r@ == self@,
        decreases self,
    {
        proof {
            assert forall|j: int| 0 <= j < self.entries@.len() implies decreases_to!(*self => #[trigger] self.entries@[j].1) by {
                assert(decreases_to!(*self => self.entries));
                assert(decreases_to!(self.entries => self.entries@));
                assert(decreases_to!(self.entries@ => self.entries@[j]));
                assert(decreases_to!(self.entries@[j] => self.entries@[j].1));
            }
        }
        let mut out: Vec<(String, ParamValue)> = Vec::new();
        let mut i: usize = 0;
        while i < self.entries.len()
            invariant
                i <= self.entries@.len(),
                forall|j: int| 0 <= j < self.entries@.len() ==> decreases_to!(*self => #[trigger] self.entries@[j].1),
                out@.len() == i,
                forall|j: int|
                    0 <= j < i ==> out@[j].0@ == self.entries@[j].0@ && pval_of(&out@[j].1) == pval_of(
                        &self.entries@[j].1,
                    ),
            decreases self.entries.len() - i,
        {
            out.push((self.entries[i].0.clone(), self.entries[i].1.copy()));
            i = i + 1;
        }
        let r = ParamMap { entries: out };
        assert(r@ =~= self@);
        r
    }

    /// Number of stored values.
    pub fn len(&self) -> (r: usize)
        ensures
            r == self@.len(),
    {
        self.entries.len()
    }

    /// Whether the map holds no value.
    pub fn is_empty(&self) -> (r: bool)
        ensures
            r == (self@.len() == 0),
    {
        self.entries.len() == 0
    }

    /// The key of the entry at `i` (entries are in insertion order).
    pub fn key_at(&self, i: usize) -> (r: &String)
        requires
            i < self@.len(),
        ensures
            r@ == self@[i as int].0,
    {
        &self.entries[i].0
    }

    /// The value of the entry at `i`.
    pub fn value_at(&self, i: usize) -> (r: &ParamValue)
        requires
            i < self@.len(),
        ensures
            r@ == self@[i as int].1,
    {
        &self.entries[i].1
    }
}

impl ParamValue {
    /// A copy of this value.
    pub fn copy(&self) -> (r: ParamValue)
        ensures
            r@ == self@,
        decreases self,
    {
        match self {
            ParamValue::String(s) => ParamValue::String(s.clone()),
            ParamValue::Number(s) => ParamValue::Number(s.clone()),
            ParamValue::Boolean(b) => ParamValue::Boolean(*b),
            ParamValue::List(xs) => {
                proof {
                    assert forall|j: int| 0 <= j < xs@.len() implies decreases_to!(*self => #[trigger] xs@[j]) by {
                        assert(decreases_to!(*self => *xs));
                        assert(decreases_to!(*xs => xs@));
                        assert(decreases_to!(xs@ => xs@[j]));
                    }
                }
                let mut out: Vec<ParamValue> = Vec::new();
                let mut i: usize = 0;
                while i < xs.len()
                    invariant
                        i <= xs@.len(),
                        self == ParamValue::List(*xs),
                        forall|j: int| 0 <= j < xs@.len() ==> decreases_to!(*self => #[trigger] xs@[j]),
                        out@.len() == i,
                        forall|j: int| 0 <= j < i ==> pval_of(&out@[j]) == pval_of(&xs@[j]),
                    decreases xs.len() - i,
                {
                    out.push(xs[i].copy());
                    i = i + 1;
                }
                let r = ParamValue::List(out);
                assert(r@->List_0 =~= self@->List_0);
                r
            },
            ParamValue::Object(m) => {
                proof {
                    assert(decreases_to!(*self => *m));
                }
                ParamValue::Object(m.copy())
            },
        }
    }

    /// The string, if this is a string value.
    pub fn as_string(&self) -> (r: Option<&String>)
        ensures
            r matches Some(s) ==> self@ == PVal::Str(s@),
            r is None ==> !(self@ is Str),
    {
        if let ParamValue::String(s) = self {
            Some(s)
        } else {
            None
        }
    }

    /// The decimal literal, if this is a number.
    pub fn as_number_text(&self) -> (r: Option<&String>)
        ensures
            r matches Some(s) ==> self@ == PVal::Num(s@),
            r is None ==> !(self@ is Num),
    {
        if let ParamValue::Number(s) = self {
            Some(s)
        } else {
            None
        }
    }

    /// The integer a number truncates to (see `truncated_int`); `None` for
    /// another value, and for a number of more than 15 significant digits.
    pub fn as_int(&self) -> (r: Option<i64>)
        ensures
            match self@ {
                PVal::Num(t) => match crate::numbers::truncated_int(t) {
                    Some(n) => r == Some(n as i64),
                    None => r is None,
                },
                _ => r is None,
            },
    {
        match self {
            ParamValue::Number(s) => crate::numbers::truncate_number_text(s.as_str()),
            _ => None,
        }
    }

    /// The boolean, if this is a boolean value.
    pub fn as_bool(&self) -> (r: Option<bool>)
        ensures
            r matches Some(b) ==> self@ == PVal::Bool(b),
            r is None ==> !(self@ is Bool),
    {
        if let ParamValue::Boolean(b) = self {
            Some(*b)
        } else {
            None
        }
    }

    /// The elements, if this is a list.
    pub fn as_list(&self) -> (r: Option<&Vec<ParamValue>>)
        ensures
            r matches Some(l) ==> self@ == PVal::List(l@.map_values(|x: ParamValue| x@)),
            r is None ==> !(self@ is List),
    {
        if let ParamValue::List(list) = self {
            assert(self@ == PVal::List(list@.map_values(|x: ParamValue| x@)) ) by {
                assert(pval_of(self)->List_0 =~= list@.map_values(|x: ParamValue| x@));
            }
            Some(list)
        } else {
            None
        }
    }

    /// The map, if this is an object.
    pub fn as_object(&self) -> (r: Option<&ParamMap>)
        ensures
            r matches Some(m) ==> self@ == PVal::Obj(m@),
            r is None ==> !(self@ is Obj),
    {
        if let ParamValue::Object(obj) = self {
            Some(obj)
        } else {
            None
        }
    }
}

/// Model of an annotation.
pub struct AnnotationView {
    pub ui_type: UiTypeView,
    pub params: PEntries,
}

/// A complete UI annotation from a decorator line.
#[derive(Debug, PartialEq)]
pub struct Annotation {
    /// The UI component type
    pub ui_type: UiType,
    /// Parameters for the widget
    pub params: ParamMap,
}

impl View for Annotation {
    type V = AnnotationView;

    open spec fn view(&self) -> AnnotationView {
        AnnotationView { ui_type: self.ui_type@, params: self.params@ }
    }
}

/// The string parameter `name`, or `default` when it is absent or not a string.
pub open spec fn param_string_or(params: PEntries, name: Seq<char>, default: Seq<char>) -> Seq<char> {
    match entries_get(params, name) {
        Some(PVal::Str(s)) => s,
        _ => default,
    }
}

/// The boolean parameter `name`, or `default` when it is absent or not a boolean.
pub open spec fn param_bool_or(params: PEntries, name: Seq<char>, default: bool) -> bool {
    match entries_get(params, name) {
        Some(PVal::Bool(b)) => b,
        _ => default,
    }
}

/// Outcome of validating an annotation: sliders need `min` and `max`,
/// selects need `options`, other types need nothing.
pub open spec fn validation_of(a: AnnotationView) -> Result<(), ErrorView> {
    match a.ui_type {
        UiTypeView::Slider | UiTypeView::IntSlider => if entries_get(a.params, "min"@) is None
            || entries_get(a.params, "max"@) is None {
            Err(ErrorView::MissingParameter { param: "min/max for slider"@ })
        } else {
            Ok(())
        },
        UiTypeView::Select | UiTypeView::ThemeSelect => if entries_get(a.params, "options"@) is None {
            Err(ErrorView::MissingParameter { param: "options for select"@ })
        } else {
            Ok(())
        },
        _ => Ok(()),
    }
}

impl Annotation {
    /// Create a new annotation.
    pub fn new(ui_type: UiType, params: ParamMap) -> (r: Annotation)
        ensures
            r.ui_type == ui_type,
            r.params == params,
    {
        Annotation { ui_type, params }
    }

    /// Get a parameter value by name.
    pub fn get_param(&self, name: &str) -> (r: Option<&ParamValue>)
        ensures
            r matches Some(v) ==> entries_get(self.params@, name@) == Some(v@),
            r is None ==> entries_get(self.params@, name@) is None,
    {
        self.params.get(name)
    }

    /// The string parameter `name`, or `default`.
    pub fn get_param_as_string(&self, name: &str, default: &str) -> (r: String)
        ensures
            r@ == param_string_or(self.params@, name@, default@),
    {
        match self.get_param(name) {
            Some(v) => match v.as_string() {
                Some(s) => s.clone(),
                None => to_owned_string(default),
            },
            None => to_owned_string(default),
        }
    }

    /// The integer parameter `name` (a number, truncated), or `default`.
    pub fn get_param_as_int(&self, name: &str, default: i64) -> (r: i64)
        ensures
            match entries_get(self.params@, name@) {
                Some(PVal::Num(t)) => match crate::numbers::truncated_int(t) {
                    Some(n) => r == n,
                    None => r == default,
                },
                _ => r == default,
            },
    {
        match self.get_param(name) {
            Some(v) => match v.as_int() {
                Some(n) => n,
                None => default,
            },
            None => default,
        }
    }

    /// The boolean parameter `name`, or `default`.
    pub fn get_param_as_bool(&self, name: &str, default: bool) -> (r: bool)
        ensures
            r == param_bool_or(self.params@, name@, default),
    {
        match self.get_param(name) {
            Some(v) => match v.as_bool() {
                Some(b) => b,
                None => default,
            },
            None => default,
        }
    }

    /// Check if a parameter exists.
    pub fn has_param(&self, name: &str) -> (r: bool)
        ensures
            r == entries_get(self.params@, name@) is Some,
    {
        self.params.contains_key(name)
    }

    /// The data type of the widget: the `type` parameter, `float` by default.
    pub fn get_data_type(&self) -> (r: String)
        ensures
            r@ == param_string_or(self.params@, "type"@, "float"@),
    {
        self.get_param_as_string("type", "float")
    }

    /// Check that the parameters the UI type needs are present.
    pub fn validate(&self) -> (r: Result<(), WezzteError>)
        ensures
            match validation_of(self@) {
                Ok(()) => r is Ok,
                Err(e) => r matches Err(e2) && e2@ == e,
            },
    {
        match &self.ui_type {
            UiType::Slider | UiType::IntSlider => {
                if !self.has_param("min") || !self.has_param("max") {
                    return Err(WezzteError::missing_parameter(to_owned_string("min/max for slider")));
                }
            },
            UiType::Select | UiType::ThemeSelect => {
                if !self.has_param("options") {
                    return Err(WezzteError::missing_parameter(to_owned_string("options for select")));
                }
            },
            _ => {},
        }
        Ok(())
    }
}

/// A slider (or integer slider) annotation validates exactly when it has
/// both a `min` and a `max` parameter; lacking either gives the missing
/// `min/max for slider` error. A select (or theme select) annotation
/// validates exactly when it has `options`. Any other annotation validates.
pub proof fn law_validation_requires_parameters(a: AnnotationView)
    ensures
        (a.ui_type == UiTypeView::Slider || a.ui_type == UiTypeView::IntSlider) ==> {
            &&& validation_of(a) is Ok ==> entries_get(a.params, "min"@) is Some
                && entries_get(a.params, "max"@) is Some
            &&& (entries_get(a.params, "min"@) is None || entries_get(a.params, "max"@) is None)
                ==> validation_of(a) == Err::<(), ErrorView>(
                ErrorView::MissingParameter { param: "min/max for slider"@ },
            )
            &&& (entries_get(a.params, "min"@) is Some && entries_get(a.params, "max"@) is Some)
                ==> validation_of(a) is Ok
        },
        (a.ui_type == UiTypeView::Select || a.ui_type == UiTypeView::ThemeSelect) ==> {
            &&& validation_of(a) is Ok <==> entries_get(a.params, "options"@) is Some
            &&& entries_get(a.params, "options"@) is None ==> validation_of(a) == Err::<(), ErrorView>(
                ErrorView::MissingParameter { param: "options for select"@ },
            )
        },
        !(a.ui_type == UiTypeView::Slider || a.ui_type == UiTypeView::IntSlider || a.ui_type
            == UiTypeView::Select || a.ui_type == UiTypeView::ThemeSelect) ==> validation_of(a) is Ok,
{
}

} // verus!

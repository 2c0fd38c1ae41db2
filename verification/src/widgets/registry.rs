//! Registry of widget kinds: which UI types can be turned into widgets,
//! with their metadata, and the checks made before a widget is created.

use vstd::prelude::*;
use crate::ast::{Annotation, entries_get, ui_type_name};
use crate::error::{WezzteError, ErrorView};
use crate::text::{
    decimal, first_index, lemma_first_index, lemma_first_index_at, push_decimal, push_str,
    str_eq, to_owned_string,
};
use crate::widgets::metadata::{
    CoreWidgets, MetadataView, PropertyView, WidgetMetadata, required_of, slider_metadata,
    select_metadata, color_picker_metadata, theme_selector_metadata,
};

verus! {

/// The widget kinds that can be registered.
#[derive(Debug, Clone, Copy, PartialEq, Eq, Structural)]
pub enum WidgetKind {
    Slider,
    Select,
    ColorPicker,
    ThemeSelector,
    Numerical,
}

/// The UI type a widget kind handles.
pub open spec fn kind_ui_type(k: WidgetKind) -> Seq<char> {
    match k {
        WidgetKind::Slider => "slider"@,
        WidgetKind::Select => "select"@,
        WidgetKind::ColorPicker => "color_picker"@,
        WidgetKind::ThemeSelector => "theme_selector"@,
        WidgetKind::Numerical => "numerical"@,
    }
}

/// The name of the type implementing a widget kind.
pub open spec fn kind_type_label(k: WidgetKind) -> Seq<char> {
    match k {
        WidgetKind::Slider => "SliderWidget"@,
        WidgetKind::Select => "SelectWidget"@,
        WidgetKind::ColorPicker => "ColorPickerWidget"@,
        WidgetKind::ThemeSelector => "ThemeSelectorWidget"@,
        WidgetKind::Numerical => "NumericalWidget"@,
    }
}

impl WidgetKind {
    /// The UI type this kind handles.
    pub fn ui_type(&self) -> (r: &'static str)
        ensures
            r@ == kind_ui_type(*self),
    {
        match self {
            WidgetKind::Slider => "slider",
            WidgetKind::Select => "select",
            WidgetKind::ColorPicker => "color_picker",
            WidgetKind::ThemeSelector => "theme_selector",
            WidgetKind::Numerical => "numerical",
        }
    }

    /// The name of the implementing type.
    pub fn type_label(&self) -> (r: &'static str)
        ensures
            r@ == kind_type_label(*self),
    {
        match self {
            WidgetKind::Slider => "SliderWidget",
            WidgetKind::Select => "SelectWidget",
            WidgetKind::ColorPicker => "ColorPickerWidget",
            WidgetKind::ThemeSelector => "ThemeSelectorWidget",
            WidgetKind::Numerical => "NumericalWidget",
        }
    }
}

/// Registration entry for a widget type.
#[derive(Debug)]
struct WidgetRegistration {
    ui_type: String,
    kind: WidgetKind,
    metadata: WidgetMetadata,
}

/// Model of a registration.
pub struct RegView {
    pub ui_type: Seq<char>,
    pub kind: WidgetKind,
    pub metadata: MetadataView,
}

/// Registry of widget kinds by UI type.
#[derive(Debug)]
pub struct WidgetRegistry {
    registrations: Vec<WidgetRegistration>,
}

impl View for WidgetRegistry {
    type V = Seq<RegView>;

    closed spec fn view(&self) -> Seq<RegView> {
        self.registrations@.map_values(
            |r: WidgetRegistration| RegView { ui_type: r.ui_type@, kind: r.kind, metadata: r.metadata@ },
        )
    }
}

/// The UI types of some registrations, in order.
pub open spec fn ui_types(regs: Seq<RegView>) -> Seq<Seq<char>> {
    regs.map_values(|r: RegView| r.ui_type)
}

/// No UI type is registered twice, and each registration's UI type is its
/// kind's and its metadata's.
pub open spec fn registry_wf(regs: Seq<RegView>) -> bool {
    &&& forall|i: int, j: int|
        0 <= i < j < regs.len() ==> (#[trigger] regs[i]).ui_type != (#[trigger] regs[j]).ui_type
    &&& forall|i: int|
        0 <= i < regs.len() ==> (#[trigger] regs[i]).ui_type == kind_ui_type(regs[i].kind)
            && regs[i].ui_type == regs[i].metadata.widget_type
}

/// The registration for a UI type.
pub open spec fn registration_of(regs: Seq<RegView>, ui_type: Seq<char>) -> Option<RegView> {
    match first_index(ui_types(regs), ui_type) {
        Some(i) => Some(regs[i]),
        None => None,
    }
}

/// The error for a UI type with no registration.
pub open spec fn unregistered_error(ui_type: Seq<char>) -> ErrorView {
    ErrorView::Config { message: "No widget registered for UI type: "@ + ui_type }
}

/// Outcome of registering a kind with its metadata.
pub open spec fn register_outcome(regs: Seq<RegView>, kind: WidgetKind, metadata: MetadataView) -> Result<
    Seq<RegView>,
    ErrorView,
> {
    let t = kind_ui_type(kind);
    if metadata.widget_type != t {
        Err(
            ErrorView::Config {
                message: "Widget metadata type '"@ + metadata.widget_type + "' doesn't match UI type '"@
                    + t + "'"@,
            },
        )
    } else if ui_types(regs).contains(t) {
        Err(ErrorView::Config { message: "Widget type '"@ + t + "' is already registered"@ })
    } else {
        Ok(regs.push(RegView { ui_type: t, kind, metadata }))
    }
}

/// The first required property an annotation lacks, if any.
pub open spec fn first_missing(required: Seq<PropertyView>, params: crate::ast::PEntries, n: int) -> Option<
    PropertyView,
>
    decreases n,
{
    if n <= 0 {
        None
    } else {
        match first_missing(required, params, n - 1) {
            Some(p) => Some(p),
            None => if entries_get(params, required[n - 1].name) is None {
                Some(required[n - 1])
            } else {
                None
            },
        }
    }
}

/// Outcome of checking an annotation against a kind's metadata: each
/// required property must be present as a parameter.
pub open spec fn annotation_check(m: MetadataView, params: crate::ast::PEntries) -> Result<(), ErrorView> {
    let req = required_of(m.properties);
    match first_missing(req, params, req.len() as int) {
        Some(p) => Err(
            ErrorView::MissingParameter {
                param: p.name + " (required by "@ + m.name + " widget)"@,
            },
        ),
        None => Ok(()),
    }
}

/// Outcome of resolving which kind makes the widget for an annotation.
pub open spec fn resolve_outcome(regs: Seq<RegView>, ui_type: Seq<char>, params: crate::ast::PEntries) -> Result<
    WidgetKind,
    ErrorView,
> {
    match registration_of(regs, ui_type) {
        None => Err(unregistered_error(ui_type)),
        Some(reg) => match annotation_check(reg.metadata, params) {
            Err(e) => Err(e),
            Ok(()) => Ok(reg.kind),
        },
    }
}

/// The debug text of one registration.
pub open spec fn registration_info(r: RegView) -> Seq<char> {
    r.ui_type + ": "@ + kind_type_label(r.kind) + " ("@ + r.metadata.name + ")\n  Metadata: "@
        + r.metadata.description + "\n  Properties: "@ + decimal(r.metadata.properties.len())
        + "\n\n"@
}

/// The debug text of the first `n` registrations.
pub open spec fn registrations_info(regs: Seq<RegView>, n: int) -> Seq<char>
    decreases n,
{
    if n <= 0 {
        Seq::empty()
    } else {
        registrations_info(regs, n - 1) + registration_info(regs[n - 1])
    }
}

/// The debug text of a registry.
pub open spec fn debug_text(regs: Seq<RegView>) -> Seq<char> {
    "=== Widget Registry ===\nRegistered widgets: "@ + decimal(regs.len()) + "\n\n"@
        + registrations_info(regs, regs.len() as int)
}

impl WidgetRegistry {
    /// Create a new empty registry.
    pub fn new() -> (r: WidgetRegistry)
        ensures
            r@ == Seq::<RegView>::empty(),
    {
        let r = WidgetRegistry { registrations: Vec::new() };
        assert(r@ =~= Seq::<RegView>::empty());
        r
    }

    /// Index of the registration for `ui_type`.
    fn index_of(&self, ui_type: &str) -> (r: Option<usize>)
        ensures
            match first_index(ui_types(self@), ui_type@) {
                Some(i) => r matches Some(k) && k == i,
                None => r is None,
            },
            r matches Some(k) ==> k < self@.len(),
    {
        let ghost ts = ui_types(self@);
        let mut i: usize = 0;
        while i < self.registrations.len()
            invariant
                i <= self.registrations@.len(),
                ts == ui_types(self@),
                ts.len() == self.registrations@.len(),
                forall|j: int| 0 <= j < i ==> ts[j] != ui_type@,
            decreases self.registrations.len() - i,
        {
            assert(ts[i as int] == self.registrations@[i as int].ui_type@);
            if str_eq(self.registrations[i].ui_type.as_str(), ui_type) {
                proof {
                    lemma_first_index_at(ts, ui_type@, i as int);
                }
                return Some(i);
            }
            i = i + 1;
        }
        proof {
            lemma_first_index(ts, ui_type@);
        }
        None
    }

    /// Register a widget kind with its metadata; the metadata must be for
    /// the kind's UI type, and the UI type must not be registered yet.
    pub fn register(&mut self, kind: WidgetKind, metadata: WidgetMetadata) -> (r: Result<
        (),
        WezzteError,
    >)
        ensures
            match register_outcome(old(self)@, kind, metadata@) {
                Ok(regs) => r is Ok && final(self)@ == regs,
                Err(e) => r matches Err(x) && x@ == e && final(self)@ == old(self)@,
            },
            registry_wf(old(self)@) ==> registry_wf(final(self)@),
    {
        let ui_type = kind.ui_type();
        if !str_eq(metadata.widget_type.as_str(), ui_type) {
            let mut m = to_owned_string("Widget metadata type '");
            push_str(&mut m, metadata.widget_type.as_str());
            push_str(&mut m, "' doesn't match UI type '");
            push_str(&mut m, ui_type);
            push_str(&mut m, "'");
            return Err(WezzteError::config(m));
        }
        proof {
            lemma_first_index(ui_types(self@), ui_type@);
            if ui_types(self@).contains(ui_type@) {
                let j = choose|j: int| 0 <= j < ui_types(self@).len() && ui_types(self@)[j] == ui_type@;
                assert(ui_types(self@)[j] == ui_type@);
            }
        }
        if self.index_of(ui_type).is_some() {
            let mut m = to_owned_string("Widget type '");
            push_str(&mut m, ui_type);
            push_str(&mut m, "' is already registered");
            return Err(WezzteError::config(m));
        }
        let ghost before = self@;
        self.registrations.push(WidgetRegistration { ui_type: to_owned_string(ui_type), kind, metadata });
        assert(self@ =~= before.push(RegView { ui_type: ui_type@, kind, metadata: metadata@ }));
        proof {
            if registry_wf(before) {
                assert forall|i: int, j: int| 0 <= i < j < self@.len() implies (#[trigger] self@[i]).ui_type
                    != (#[trigger] self@[j]).ui_type by {
                    if j == before.len() {
                        assert(ui_types(before)[i] == before[i].ui_type);
                    }
                }
            }
        }
        Ok(())
    }

    /// Get a copy of the metadata for a UI type.
    pub fn get_metadata(&self, ui_type: &str) -> (r: Result<WidgetMetadata, WezzteError>)
        ensures
            match registration_of(self@, ui_type@) {
                Some(reg) => r matches Ok(m) && m@ == reg.metadata,
                None => r matches Err(x) && x@ == unregistered_error(ui_type@),
            },
    {
        proof {
            lemma_first_index(ui_types(self@), ui_type@);
        }
        match self.index_of(ui_type) {
            Some(i) => Ok(self.registrations[i].metadata.copy()),
            None => {
                let mut m = to_owned_string("No widget registered for UI type: ");
                push_str(&mut m, ui_type);
                Err(WezzteError::config(m))
            },
        }
    }

    /// Get all registered UI types, in registration order.
    pub fn registered_types(&self) -> (r: Vec<String>)
        ensures
            crate::text::views(r@) == ui_types(self@),
    {
        let mut out: Vec<String> = Vec::new();
        let mut i: usize = 0;
        while i < self.registrations.len()
            invariant
                i <= self.registrations@.len(),
                out@.len() == i,
                forall|j: int| 0 <= j < i ==> out@[j]@ == self.registrations@[j].ui_type@,
            decreases self.registrations.len() - i,
        {
            out.push(self.registrations[i].ui_type.clone());
            i = i + 1;
        }
        assert(crate::text::views(out@) =~= ui_types(self@));
        out
    }

    /// Copies of all registered metadata with their UI types, in registration order.
    pub fn all_metadata(&self) -> (r: Vec<(String, WidgetMetadata)>)
        ensures
            r@.len() == self@.len(),
            forall|i: int|
                0 <= i < r@.len() ==> (#[trigger] r@[i]).0@ == self@[i].ui_type && r@[i].1@
                    == self@[i].metadata,
    {
        let mut out: Vec<(String, WidgetMetadata)> = Vec::new();
        let mut i: usize = 0;
        while i < self.registrations.len()
            invariant
                i <= self.registrations@.len(),
                out@.len() == i,
                forall|j: int|
                    0 <= j < i ==> (#[trigger] out@[j]).0@ == self@[j].ui_type && out@[j].1@
                        == self@[j].metadata,
            decreases self.registrations.len() - i,
        {
            out.push((self.registrations[i].ui_type.clone(), self.registrations[i].metadata.copy()));
            i = i + 1;
        }
        out
    }

    /// Check if a widget type is registered.
    pub fn is_registered(&self, ui_type: &str) -> (r: bool)
        ensures
            r == ui_types(self@).contains(ui_type@),
    {
        proof {
            lemma_first_index(ui_types(self@), ui_type@);
            if ui_types(self@).contains(ui_type@) {
                let j = choose|j: int| 0 <= j < ui_types(self@).len() && ui_types(self@)[j] == ui_type@;
                assert(ui_types(self@)[j] == ui_type@);
            }
        }
        self.index_of(ui_type).is_some()
    }

    /// Debug information about the registry.
    pub fn debug_info(&self) -> (r: String)
        ensures
            r@ == debug_text(self@),
    {
        let mut info = to_owned_string("=== Widget Registry ===\nRegistered widgets: ");
        push_decimal(&mut info, self.registrations.len() as u64);
        push_str(&mut info, "\n\n");
        let ghost start = info@;
        let ghost regs = self@;
        let mut i: usize = 0;
        while i < self.registrations.len()
            invariant
                i <= self.registrations@.len(),
                regs == self@,
                regs.len() == self.registrations@.len(),
                info@ == start + registrations_info(regs, i as int),
            decreases self.registrations.len() - i,
        {
            let reg = &self.registrations[i];
            assert(regs[i as int].metadata == reg.metadata@);
            push_str(&mut info, reg.ui_type.as_str());
            push_str(&mut info, ": ");
            push_str(&mut info, reg.kind.type_label());
            push_str(&mut info, " (");
            push_str(&mut info, reg.metadata.name.as_str());
            push_str(&mut info, ")\n  Metadata: ");
            push_str(&mut info, reg.metadata.description.as_str());
            push_str(&mut info, "\n  Properties: ");
            push_decimal(&mut info, reg.metadata.properties.len() as u64);
            push_str(&mut info, "\n\n");
            assert(info@ =~= start + registrations_info(regs, i + 1));
            i = i + 1;
        }
        info
    }

    /// Which kind makes the widget for an annotation: its UI type must be
    /// registered and it must have every parameter the kind requires.
    pub fn resolve(&self, annotation: &Annotation) -> (r: Result<WidgetKind, WezzteError>)
        ensures
            match resolve_outcome(self@, ui_type_name(annotation.ui_type@), annotation.params@) {
                Ok(k) => r == Ok::<WidgetKind, WezzteError>(k),
                Err(e) => r matches Err(x) && x@ == e,
            },
    {
        let ui_type = annotation.ui_type.as_str();
        proof {
            lemma_first_index(ui_types(self@), ui_type@);
        }
        let i = match self.index_of(ui_type) {
            Some(i) => i,
            None => {
                let mut m = to_owned_string("No widget registered for UI type: ");
                push_str(&mut m, ui_type);
                return Err(WezzteError::config(m));
            },
        };
        let reg = &self.registrations[i];
        match validate_annotation(annotation, &reg.metadata) {
            Ok(()) => Ok(reg.kind),
            Err(e) => Err(e),
        }
    }
}

/// Check that an annotation has every parameter the metadata requires.
fn validate_annotation(annotation: &Annotation, metadata: &WidgetMetadata) -> (r: Result<(), WezzteError>)
    ensures
        match annotation_check(metadata@, annotation.params@) {
            Ok(()) => r is Ok,
            Err(e) => r matches Err(x) && x@ == e,
        },
{
    let required = metadata.required_properties();
    let ghost req = required_of(metadata@.properties);
    let mut i: usize = 0;
    while i < required.len()
        invariant
            i <= required@.len(),
            required@.map_values(|p: &crate::widgets::metadata::WidgetProperty| p@) == req,
            req == required_of(metadata@.properties),
            first_missing(req, annotation.params@, i as int) is None,
        decreases required.len() - i,
    {
        let prop = required[i];
        assert(req[i as int] == prop@);
        if !annotation.has_param(prop.name.as_str()) {
            let mut m = prop.name.clone();
            push_str(&mut m, " (required by ");
            push_str(&mut m, metadata.name.as_str());
            push_str(&mut m, " widget)");
            assert(first_missing(req, annotation.params@, i + 1) == Some(req[i as int]));
            proof {
                lemma_first_missing_stable(req, annotation.params@, i + 1, req.len() as int);
            }
            return Err(WezzteError::missing_parameter(m));
        }
        i = i + 1;
    }
    Ok(())
}

/// Once a missing property is found, looking further finds the same one.
proof fn lemma_first_missing_stable(req: Seq<PropertyView>, params: crate::ast::PEntries, n: int, m: int)
    requires
        n <= m,
        first_missing(req, params, n) is Some,
    ensures
        first_missing(req, params, m) == first_missing(req, params, n),
    decreases m - n,
{
    if n < m {
        lemma_first_missing_stable(req, params, n, m - 1);
    }
}

/// Register the core widget kinds (slider, select, color picker, theme
/// selector) with their metadata, in that order; stops at the first kind
/// that cannot be registered.
pub fn register_core_widgets(registry: &mut WidgetRegistry) -> (r: Result<(), WezzteError>)
    ensures
        match register_outcome(old(registry)@, WidgetKind::Slider, slider_metadata()) {
            Err(e) => r matches Err(x) && x@ == e && final(registry)@ == old(registry)@,
            Ok(s1) => match register_outcome(s1, WidgetKind::Select, select_metadata()) {
                Err(e) => r matches Err(x) && x@ == e && final(registry)@ == s1,
                Ok(s2) => match register_outcome(s2, WidgetKind::ColorPicker, color_picker_metadata()) {
                    Err(e) => r matches Err(x) && x@ == e && final(registry)@ == s2,
                    Ok(s3) => match register_outcome(
                        s3,
                        WidgetKind::ThemeSelector,
                        theme_selector_metadata(),
                    ) {
                        Err(e) => r matches Err(x) && x@ == e && final(registry)@ == s3,
                        Ok(s4) => r is Ok && final(registry)@ == s4,
                    },
                },
            },
        },
        registry_wf(old(registry)@) ==> registry_wf(final(registry)@),
{
    registry.register(WidgetKind::Slider, CoreWidgets::slider())?;
    registry.register(WidgetKind::Select, CoreWidgets::select())?;
    registry.register(WidgetKind::ColorPicker, CoreWidgets::color_picker())?;
    registry.register(WidgetKind::ThemeSelector, CoreWidgets::theme_selector())?;
    Ok(())
}

/// After a kind is registered, its UI type is registered, and registering
/// the same kind again fails with the "already registered" error and
/// leaves the registry as it was.
pub proof fn law_register_then_registered(
    regs: Seq<RegView>,
    kind: WidgetKind,
    m: MetadataView,
    m2: MetadataView,
)
    requires
        register_outcome(regs, kind, m) is Ok,
        m2.widget_type == kind_ui_type(kind),
    ensures
        ({
            let after = register_outcome(regs, kind, m)->Ok_0;
            &&& ui_types(after).contains(kind_ui_type(kind))
            &&& register_outcome(after, kind, m2) == Err::<Seq<RegView>, ErrorView>(
                ErrorView::Config {
                    message: "Widget type '"@ + kind_ui_type(kind) + "' is already registered"@,
                },
            )
        }),
{
    let after = register_outcome(regs, kind, m)->Ok_0;
    assert(ui_types(after)[regs.len() as int] == kind_ui_type(kind));
}

/// A registered UI type resolves to the kind registered for it when the
/// annotation has every required parameter.
pub proof fn law_registered_type_resolves(
    regs: Seq<RegView>,
    kind: WidgetKind,
    m: MetadataView,
    params: crate::ast::PEntries,
)
    requires
        register_outcome(regs, kind, m) is Ok,
        annotation_check(m, params) is Ok,
    ensures
        resolve_outcome(register_outcome(regs, kind, m)->Ok_0, kind_ui_type(kind), params) == Ok::<
            WidgetKind,
            ErrorView,
        >(kind),
{
    let after = register_outcome(regs, kind, m)->Ok_0;
    let t = kind_ui_type(kind);
    lemma_first_index(ui_types(regs), t);
    assert forall|j: int| 0 <= j < regs.len() implies ui_types(after)[j] != t by {
        assert(ui_types(after)[j] == ui_types(regs)[j]);
        if ui_types(regs)[j] == t {
            assert(ui_types(regs).contains(t));
        }
    }
    lemma_first_index_at(ui_types(after), t, regs.len() as int);
}

/// The debug text of the first `n` registrations holds that of each of the
/// first `i` as its prefix, then each registration's own text at the
/// prefix's end; it is empty or ends with a newline.
proof fn lemma_registrations_info(regs: Seq<RegView>, n: int)
    requires
        0 <= n <= regs.len(),
    ensures
        forall|i: int|
            0 <= i <= n ==> registrations_info(regs, n).take(#[trigger] registrations_info(regs, i).len() as int)
                == registrations_info(regs, i) && registrations_info(regs, i).len() <= registrations_info(regs, n).len(),
        n > 0 ==> registrations_info(regs, n).len() > 0 && registrations_info(regs, n).last() == '\n',
    decreases n,
{
    reveal_strlit("\n\n");
    if n > 0 {
        lemma_registrations_info(regs, n - 1);
        let p = registrations_info(regs, n - 1);
        let info = registration_info(regs[n - 1]);
        let r = registrations_info(regs, n);
        assert(r == p + info);
        assert(info.len() >= 2 && info.last() == '\n');
        assert forall|i: int|
            0 <= i <= n implies r.take(#[trigger] registrations_info(regs, i).len() as int) == registrations_info(regs, i)
                && registrations_info(regs, i).len() <= r.len() by {
            if i < n {
                let q = registrations_info(regs, i);
                assert(p.take(q.len() as int) == q);
                assert(r.take(q.len() as int) =~= p.take(q.len() as int));
            } else {
                assert(r.take(r.len() as int) =~= r);
            }
        }
    }
}

/// The registry's debug text starts with its header and the number of
/// registrations, and each registered UI type starts a line of its own
/// followed by `: `.
pub proof fn law_debug_info_lists_every_type(regs: Seq<RegView>, i: int)
    requires
        0 <= i < regs.len(),
    ensures
        debug_text(regs).take(("=== Widget Registry ===\nRegistered widgets: "@ + decimal(regs.len())
            + "\n\n"@).len() as int) == "=== Widget Registry ===\nRegistered widgets: "@ + decimal(regs.len())
            + "\n\n"@,
        exists|k: int|
            0 < k && k + regs[i].ui_type.len() + 2 <= debug_text(regs).len() && debug_text(regs)[k - 1] == '\n'
                && #[trigger] debug_text(regs).subrange(k, k + regs[i].ui_type.len() + 2) == regs[i].ui_type
                + ": "@,
{
    reveal_strlit("\n\n");
    reveal_strlit(": ");
    let h = "=== Widget Registry ===\nRegistered widgets: "@ + decimal(regs.len()) + "\n\n"@;
    let n = regs.len() as int;
    let r = registrations_info(regs, n);
    let t = debug_text(regs);
    assert(t == h + r);
    assert(t.take(h.len() as int) =~= h);
    lemma_registrations_info(regs, n);
    lemma_registrations_info(regs, i + 1);
    let q = registrations_info(regs, i);
    let q1 = registrations_info(regs, i + 1);
    let info = registration_info(regs[i]);
    assert(q1 == q + info);
    assert(r.take(q1.len() as int) == q1);
    assert(r.take(q.len() as int) == q);
    let k = (h.len() + q.len()) as int;
    let w = (regs[i].ui_type.len() + 2) as int;
    assert(info.take(w) =~= regs[i].ui_type + ": "@);
    assert(info.len() >= w);
    assert(t.subrange(k, k + w) =~= regs[i].ui_type + ": "@) by {
        assert forall|x: int| 0 <= x < w implies t[k + x] == info[x] by {
            assert(t[k + x] == r[q.len() + x]);
            assert(r[q.len() + x] == q1[q.len() + x]);
        }
    }
    assert(h.last() == '\n');
    if q.len() > 0 {
        lemma_registrations_info(regs, i);
        assert(t[k - 1] == r[q.len() - 1]);
        assert(r[q.len() - 1] == q[q.len() - 1]);
    } else {
        assert(t[k - 1] == h[h.len() - 1]);
    }
    assert(t.subrange(k, k + w) == regs[i].ui_type + ": "@);
    assert(q1.len() <= r.len());
    assert(k + w <= t.len());
    assert(0 < k && k + regs[i].ui_type.len() + 2 <= t.len() && t[k - 1] == '\n'
        && t.subrange(k, k + regs[i].ui_type.len() + 2) == regs[i].ui_type + ": "@);
}

} // verus!

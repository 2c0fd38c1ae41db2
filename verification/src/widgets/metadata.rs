//! Widget metadata: the properties a widget kind takes, their constraints,
//! usage examples, and the documentation generated from them.
//!
//! Numeric bounds are kept as the decimal text they are displayed with.

use vstd::prelude::*;
use crate::text::{join, join_strings, push_str, to_owned_string, views, first_index, lemma_first_index, lemma_first_index_at, str_eq};

verus! {

/// The default value of a property (a JSON literal).
#[derive(Debug, Clone, PartialEq, Eq)]
pub enum DefaultValue {
    /// A number, as its decimal text
    Number(String),
    /// A string
    Text(String),
    /// A boolean
    Bool(bool),
}

/// Model of [`DefaultValue`].
pub enum DefaultView {
    Number(Seq<char>),
    Text(Seq<char>),
    Bool(bool),
}

impl View for DefaultValue {
    type V = DefaultView;

    open spec fn view(&self) -> DefaultView {
        match self {
            DefaultValue::Number(t) => DefaultView::Number(t@),
            DefaultValue::Text(t) => DefaultView::Text(t@),
            DefaultValue::Bool(b) => DefaultView::Bool(*b),
        }
    }
}

/// Constraints that can be applied to widget values.
#[derive(Debug)]
pub enum WidgetConstraint {
    /// Minimum numeric value
    Min { value: String },
    /// Maximum numeric value
    Max { value: String },
    /// Step/increment for numeric values
    Step { value: String },
    /// Minimum string length
    MinLength { length: usize },
    /// Maximum string length
    MaxLength { length: usize },
    /// Regular expression pattern for strings
    Pattern { regex: String },
    /// Allowed values (enumeration)
    Options { values: Vec<String> },
    /// Required field
    Required,
}

/// Model of [`WidgetConstraint`].
pub enum ConstraintView {
    Min(Seq<char>),
    Max(Seq<char>),
    Step(Seq<char>),
    MinLength(usize),
    MaxLength(usize),
    Pattern(Seq<char>),
    Options(Seq<Seq<char>>),
    Required,
}

impl View for WidgetConstraint {
    type V = ConstraintView;

    open spec fn view(&self) -> ConstraintView {
        match self {
            WidgetConstraint::Min { value } => ConstraintView::Min(value@),
            WidgetConstraint::Max { value } => ConstraintView::Max(value@),
            WidgetConstraint::Step { value } => ConstraintView::Step(value@),
            WidgetConstraint::MinLength { length } => ConstraintView::MinLength(*length),
            WidgetConstraint::MaxLength { length } => ConstraintView::MaxLength(*length),
            WidgetConstraint::Pattern { regex } => ConstraintView::Pattern(regex@),
            WidgetConstraint::Options { values } => ConstraintView::Options(views(values@)),
            WidgetConstraint::Required => ConstraintView::Required,
        }
    }
}

/// Properties that widgets can expose to the UI.
#[derive(Debug)]
pub struct WidgetProperty {
    pub name: String,
    pub description: String,
    pub data_type: String,
    pub default_value: Option<DefaultValue>,
    pub required: bool,
    pub constraints: Vec<WidgetConstraint>,
}

/// Model of [`WidgetProperty`].
pub struct PropertyView {
    pub name: Seq<char>,
    pub description: Seq<char>,
    pub data_type: Seq<char>,
    pub default_value: Option<DefaultView>,
    pub required: bool,
    pub constraints: Seq<ConstraintView>,
}

impl View for WidgetProperty {
    type V = PropertyView;

    open spec fn view(&self) -> PropertyView {
        PropertyView {
            name: self.name@,
            description: self.description@,
            data_type: self.data_type@,
            default_value: match self.default_value {
                Some(d) => Some(d@),
                None => None,
            },
            required: self.required,
            constraints: self.constraints@.map_values(|c: WidgetConstraint| c@),
        }
    }
}

/// The constraint for an optional bound, as a sequence of at most one.
pub open spec fn opt_constraint(o: Option<Seq<char>>, make: spec_fn(Seq<char>) -> ConstraintView) -> Seq<ConstraintView> {
    match o {
        Some(v) => seq![make(v)],
        None => Seq::empty(),
    }
}

/// The view of an optional string.
pub open spec fn opt_str(o: Option<&str>) -> Option<Seq<char>> {
    match o {
        Some(s) => Some(s@),
        None => None,
    }
}

/// A property with no default, not required.
pub open spec fn plain_property(
    name: Seq<char>,
    description: Seq<char>,
    data_type: Seq<char>,
    constraints: Seq<ConstraintView>,
) -> PropertyView {
    PropertyView { name, description, data_type, default_value: None, required: false, constraints }
}

/// A copy of a vector of strings.
fn copy_strings(v: &Vec<String>) -> (r: Vec<String>)
    ensures
        views(r@) == views(v@),
{
    let mut out: Vec<String> = Vec::new();
    let mut i: usize = 0;
    while i < v.len()
        invariant
            i <= v@.len(),
            out@.len() == i,
            forall|j: int| 0 <= j < i ==> out@[j]@ == v@[j]@,
        decreases v.len() - i,
    {
        out.push(v[i].clone());
        i = i + 1;
    }
    assert(views(out@) =~= views(v@));
    out
}

impl WidgetConstraint {
    /// A copy of this constraint.
    pub fn copy(&self) -> (r: WidgetConstraint)
        ensures
            r@ == self@,
    {
        match self {
            WidgetConstraint::Min { value } => WidgetConstraint::Min { value: value.clone() },
            WidgetConstraint::Max { value } => WidgetConstraint::Max { value: value.clone() },
            WidgetConstraint::Step { value } => WidgetConstraint::Step { value: value.clone() },
            WidgetConstraint::MinLength { length } => WidgetConstraint::MinLength { length: *length },
            WidgetConstraint::MaxLength { length } => WidgetConstraint::MaxLength { length: *length },
            WidgetConstraint::Pattern { regex } => WidgetConstraint::Pattern { regex: regex.clone() },
            WidgetConstraint::Options { values } => WidgetConstraint::Options { values: copy_strings(values) },
            WidgetConstraint::Required => WidgetConstraint::Required,
        }
    }
}

impl WidgetProperty {
    /// A numeric property with optional minimum, maximum and step.
    pub fn number(
        name: &str,
        description: &str,
        min: Option<&str>,
        max: Option<&str>,
        step: Option<&str>,
    ) -> (r: WidgetProperty)
        ensures
            r@ == plain_property(
                name@,
                description@,
                "number"@,
                opt_constraint(opt_str(min), |v: Seq<char>| ConstraintView::Min(v)) + opt_constraint(
                    opt_str(max),
                    |v: Seq<char>| ConstraintView::Max(v),
                ) + opt_constraint(opt_str(step), |v: Seq<char>| ConstraintView::Step(v)),
            ),
    {
        let mut constraints: Vec<WidgetConstraint> = Vec::new();
        if let Some(v) = min {
            constraints.push(WidgetConstraint::Min { value: to_owned_string(v) });
        }
        let ghost c1 = constraints@.map_values(|c: WidgetConstraint| c@);
        if let Some(v) = max {
            constraints.push(WidgetConstraint::Max { value: to_owned_string(v) });
        }
        let ghost c2 = constraints@.map_values(|c: WidgetConstraint| c@);
        if let Some(v) = step {
            constraints.push(WidgetConstraint::Step { value: to_owned_string(v) });
        }
        let r = WidgetProperty {
            name: to_owned_string(name),
            description: to_owned_string(description),
            data_type: to_owned_string("number"),
            default_value: None,
            required: false,
            constraints,
        };
        assert(c1 =~= opt_constraint(opt_str(min), |v: Seq<char>| ConstraintView::Min(v)));
        assert(c2 =~= c1 + opt_constraint(opt_str(max), |v: Seq<char>| ConstraintView::Max(v)));
        assert(r@.constraints =~= c2 + opt_constraint(opt_str(step), |v: Seq<char>| ConstraintView::Step(v)));
        r
    }

    /// A string property with an optional maximum length.
    pub fn string(name: &str, description: &str, max_length: Option<usize>) -> (r: WidgetProperty)
        ensures
            r@ == plain_property(
                name@,
                description@,
                "string"@,
                match max_length {
                    Some(n) => seq![ConstraintView::MaxLength(n)],
                    None => Seq::empty(),
                },
            ),
    {
        let mut constraints: Vec<WidgetConstraint> = Vec::new();
        if let Some(n) = max_length {
            constraints.push(WidgetConstraint::MaxLength { length: n });
        }
        let r = WidgetProperty {
            name: to_owned_string(name),
            description: to_owned_string(description),
            data_type: to_owned_string("string"),
            default_value: None,
            required: false,
            constraints,
        };
        assert(r@.constraints =~= match max_length {
            Some(n) => seq![ConstraintView::MaxLength(n)],
            None => Seq::empty(),
        });
        r
    }

    /// A boolean property.
    pub fn boolean(name: &str, description: &str) -> (r: WidgetProperty)
        ensures
            r@ == plain_property(name@, description@, "boolean"@, Seq::empty()),
    {
        let r = WidgetProperty {
            name: to_owned_string(name),
            description: to_owned_string(description),
            data_type: to_owned_string("boolean"),
            default_value: None,
            required: false,
            constraints: Vec::new(),
        };
        assert(r@.constraints =~= Seq::<ConstraintView>::empty());
        r
    }

    /// A string property restricted to the given values.
    pub fn options(name: &str, description: &str, values: Vec<&str>) -> (r: WidgetProperty)
        ensures
            r@ == plain_property(
                name@,
                description@,
                "string"@,
                seq![ConstraintView::Options(values@.map_values(|s: &str| s@))],
            ),
    {
        let mut owned: Vec<String> = Vec::new();
        let mut i: usize = 0;
        while i < values.len()
            invariant
                i <= values@.len(),
                owned@.len() == i,
                forall|j: int| 0 <= j < i ==> owned@[j]@ == values@[j]@,
            decreases values.len() - i,
        {
            owned.push(to_owned_string(values[i]));
            i = i + 1;
        }
        assert(views(owned@) =~= values@.map_values(|s: &str| s@));
        let mut constraints: Vec<WidgetConstraint> = Vec::new();
        constraints.push(WidgetConstraint::Options { values: owned });
        let r = WidgetProperty {
            name: to_owned_string(name),
            description: to_owned_string(description),
            data_type: to_owned_string("string"),
            default_value: None,
            required: false,
            constraints,
        };
        assert(r@.constraints =~= seq![ConstraintView::Options(values@.map_values(|s: &str| s@))]);
        r
    }

    /// Mark this property as required (adds a `Required` constraint).
    pub fn required(self) -> (r: WidgetProperty)
        ensures
            r@ == (PropertyView {
                required: true,
                constraints: self@.constraints.push(ConstraintView::Required),
                ..self@
            }),
    {
        let mut p = self;
        p.required = true;
        p.constraints.push(WidgetConstraint::Required);
        assert(p@.constraints =~= self@.constraints.push(ConstraintView::Required));
        p
    }

    /// Set a default value.
    pub fn with_default(self, value: DefaultValue) -> (r: WidgetProperty)
        ensures
            r@ == (PropertyView { default_value: Some(value@), ..self@ }),
    {
        let mut p = self;
        p.default_value = Some(value);
        p
    }

    /// A copy of this property.
    pub fn copy(&self) -> (r: WidgetProperty)
        ensures
            r@ == self@,
    {
        let mut constraints: Vec<WidgetConstraint> = Vec::new();
        let mut i: usize = 0;
        while i < self.constraints.len()
            invariant
                i <= self.constraints@.len(),
                constraints@.len() == i,
                forall|j: int| 0 <= j < i ==> constraints@[j]@ == self.constraints@[j]@,
            decreases self.constraints.len() - i,
        {
            constraints.push(self.constraints[i].copy());
            i = i + 1;
        }
        let r = WidgetProperty {
            name: self.name.clone(),
            description: self.description.clone(),
            data_type: self.data_type.clone(),
            default_value: match &self.default_value {
                Some(d) => Some(match d {
                    DefaultValue::Number(t) => DefaultValue::Number(t.clone()),
                    DefaultValue::Text(t) => DefaultValue::Text(t.clone()),
                    DefaultValue::Bool(b) => DefaultValue::Bool(*b),
                }),
                None => None,
            },
            required: self.required,
            constraints,
        };
        assert(r@.constraints =~= self@.constraints);
        r
    }
}

/// Example usage of a widget.
#[derive(Debug, Clone)]
pub struct WidgetExample {
    /// Example title
    pub title: String,
    /// Example description
    pub description: String,
    /// Example decorator line
    pub decorator: String,
    /// Example config line
    pub config_line: String,
}

/// Model of [`WidgetExample`].
pub struct ExampleView {
    pub title: Seq<char>,
    pub description: Seq<char>,
    pub decorator: Seq<char>,
    pub config_line: Seq<char>,
}

impl View for WidgetExample {
    type V = ExampleView;

    open spec fn view(&self) -> ExampleView {
        ExampleView {
            title: self.title@,
            description: self.description@,
            decorator: self.decorator@,
            config_line: self.config_line@,
        }
    }
}

impl WidgetExample {
    /// An example from its four texts.
    pub fn new(title: &str, description: &str, decorator: &str, config_line: &str) -> (r: WidgetExample)
        ensures
            r@ == (ExampleView {
                title: title@,
                description: description@,
                decorator: decorator@,
                config_line: config_line@,
            }),
    {
        WidgetExample {
            title: to_owned_string(title),
            description: to_owned_string(description),
            decorator: to_owned_string(decorator),
            config_line: to_owned_string(config_line),
        }
    }

    /// A copy of this example.
    pub fn copy(&self) -> (r: WidgetExample)
        ensures
            r@ == self@,
    {
        WidgetExample {
            title: self.title.clone(),
            description: self.description.clone(),
            decorator: self.decorator.clone(),
            config_line: self.config_line.clone(),
        }
    }
}

/// Comprehensive metadata for a widget type.
#[derive(Debug)]
pub struct WidgetMetadata {
    /// Widget type identifier (e.g. `slider`, `select`)
    pub widget_type: String,
    /// Human-readable name
    pub name: String,
    /// Detailed description
    pub description: String,
    /// Category for grouping in UI
    pub category: String,
    /// Properties this widget exposes
    pub properties: Vec<WidgetProperty>,
    /// Examples of usage
    pub examples: Vec<WidgetExample>,
    /// Version when this widget was introduced
    pub version: String,
    /// Whether this is a core widget or plugin
    pub core: bool,
}

/// Model of [`WidgetMetadata`].
pub struct MetadataView {
    pub widget_type: Seq<char>,
    pub name: Seq<char>,
    pub description: Seq<char>,
    pub category: Seq<char>,
    pub properties: Seq<PropertyView>,
    pub examples: Seq<ExampleView>,
    pub version: Seq<char>,
    pub core: bool,
}

impl View for WidgetMetadata {
    type V = MetadataView;

    open spec fn view(&self) -> MetadataView {
        MetadataView {
            widget_type: self.widget_type@,
            name: self.name@,
            description: self.description@,
            category: self.category@,
            properties: self.properties@.map_values(|p: WidgetProperty| p@),
            examples: self.examples@.map_values(|e: WidgetExample| e@),
            version: self.version@,
            core: self.core,
        }
    }
}

/// The names of some properties.
pub open spec fn property_names(ps: Seq<PropertyView>) -> Seq<Seq<char>> {
    ps.map_values(|p: PropertyView| p.name)
}

/// The required properties, in order.
pub open spec fn required_of(ps: Seq<PropertyView>) -> Seq<PropertyView>
    decreases ps.len(),
{
    if ps.len() == 0 {
        Seq::empty()
    } else {
        let r = required_of(ps.drop_last());
        if ps.last().required {
            r.push(ps.last())
        } else {
            r
        }
    }
}

/// The documentation line(s) of a constraint (only bounds, steps and options are listed).
pub open spec fn constraint_doc(c: ConstraintView) -> Seq<char> {
    match c {
        ConstraintView::Min(v) => "  - Minimum: "@ + v + "\n"@,
        ConstraintView::Max(v) => "  - Maximum: "@ + v + "\n"@,
        ConstraintView::Step(v) => "  - Step: "@ + v + "\n"@,
        ConstraintView::Options(vs) => "  - Options: "@ + join(vs, ", "@) + "\n"@,
        _ => Seq::empty(),
    }
}

/// The documentation of the first `n` constraints.
pub open spec fn constraints_doc(cs: Seq<ConstraintView>, n: int) -> Seq<char>
    decreases n,
{
    if n <= 0 {
        Seq::empty()
    } else {
        constraints_doc(cs, n - 1) + constraint_doc(cs[n - 1])
    }
}

/// The documentation of a property.
pub open spec fn property_doc(p: PropertyView) -> Seq<char> {
    "- **"@ + p.name + "** ("@ + p.data_type + "): "@ + p.description + "\n"@ + (if p.required {
        "  - Required\n"@
    } else {
        Seq::empty()
    }) + constraints_doc(p.constraints, p.constraints.len() as int) + "\n"@
}

/// The documentation of the first `n` properties.
pub open spec fn properties_doc(ps: Seq<PropertyView>, n: int) -> Seq<char>
    decreases n,
{
    if n <= 0 {
        Seq::empty()
    } else {
        properties_doc(ps, n - 1) + property_doc(ps[n - 1])
    }
}

/// The documentation of an example.
pub open spec fn example_doc(e: ExampleView) -> Seq<char> {
    "### "@ + e.title + "\n"@ + e.description + "\n\n```lua\n"@ + e.decorator + "\n"@
        + e.config_line + "\n```\n\n"@
}

/// The documentation of the first `n` examples.
pub open spec fn examples_doc(es: Seq<ExampleView>, n: int) -> Seq<char>
    decreases n,
{
    if n <= 0 {
        Seq::empty()
    } else {
        examples_doc(es, n - 1) + example_doc(es[n - 1])
    }
}

/// The Markdown documentation of a widget kind.
pub open spec fn docs_of(m: MetadataView) -> Seq<char> {
    "# "@ + m.name + "\n\n"@ + m.description + "\n\n"@ + (if m.properties.len() > 0 {
        "## Properties\n\n"@ + properties_doc(m.properties, m.properties.len() as int)
    } else {
        Seq::empty()
    }) + (if m.examples.len() > 0 {
        "## Examples\n\n"@ + examples_doc(m.examples, m.examples.len() as int)
    } else {
        Seq::empty()
    })
}

/// Appends the documentation of a property.
fn push_property_doc(out: &mut String, p: &WidgetProperty)
    ensures
        final(out)@ == old(out)@ + property_doc(p@),
{
    push_str(out, "- **");
    push_str(out, p.name.as_str());
    push_str(out, "** (");
    push_str(out, p.data_type.as_str());
    push_str(out, "): ");
    push_str(out, p.description.as_str());
    push_str(out, "\n");
    if p.required {
        push_str(out, "  - Required\n");
    }
    let ghost mid = out@;
    let ghost cs = p@.constraints;
    let mut i: usize = 0;
    while i < p.constraints.len()
        invariant
            i <= p.constraints@.len(),
            cs == p@.constraints,
            out@ == mid + constraints_doc(cs, i as int),
        decreases p.constraints.len() - i,
    {
        assert(cs[i as int] == p.constraints@[i as int]@);
        match &p.constraints[i] {
            WidgetConstraint::Min { value } => {
                push_str(out, "  - Minimum: ");
                push_str(out, value.as_str());
                push_str(out, "\n");
            },
            WidgetConstraint::Max { value } => {
                push_str(out, "  - Maximum: ");
                push_str(out, value.as_str());
                push_str(out, "\n");
            },
            WidgetConstraint::Step { value } => {
                push_str(out, "  - Step: ");
                push_str(out, value.as_str());
                push_str(out, "\n");
            },
            WidgetConstraint::Options { values } => {
                push_str(out, "  - Options: ");
                let joined = join_strings(values, ", ");
                push_str(out, joined.as_str());
                push_str(out, "\n");
            },
            _ => {},
        }
        assert(out@ =~= mid + constraints_doc(cs, i + 1));
        i = i + 1;
    }
    push_str(out, "\n");
    assert(final(out)@ =~= old(out)@ + property_doc(p@));
}

impl WidgetMetadata {
    /// New metadata with no properties or examples, version `1.0.0`, core.
    pub fn new(widget_type: &str, name: &str, description: &str, category: &str) -> (r: WidgetMetadata)
        ensures
            r@ == (MetadataView {
                widget_type: widget_type@,
                name: name@,
                description: description@,
                category: category@,
                properties: Seq::empty(),
                examples: Seq::empty(),
                version: "1.0.0"@,
                core: true,
            }),
    {
        let r = WidgetMetadata {
            widget_type: to_owned_string(widget_type),
            name: to_owned_string(name),
            description: to_owned_string(description),
            category: to_owned_string(category),
            properties: Vec::new(),
            examples: Vec::new(),
            version: to_owned_string("1.0.0"),
            core: true,
        };
        assert(r@.properties =~= Seq::<PropertyView>::empty());
        assert(r@.examples =~= Seq::<ExampleView>::empty());
        r
    }

    /// Add a property to this widget.
    pub fn with_property(self, property: WidgetProperty) -> (r: WidgetMetadata)
        ensures
            r@ == (MetadataView { properties: self@.properties.push(property@), ..self@ }),
    {
        let mut m = self;
        m.properties.push(property);
        assert(m@.properties =~= self@.properties.push(property@));
        m
    }

    /// Add an example to this widget.
    pub fn with_example(self, example: WidgetExample) -> (r: WidgetMetadata)
        ensures
            r@ == (MetadataView { examples: self@.examples.push(example@), ..self@ }),
    {
        let mut m = self;
        m.examples.push(example);
        assert(m@.examples =~= self@.examples.push(example@));
        m
    }

    /// Get the first property with the given name.
    pub fn get_property(&self, name: &str) -> (r: Option<&WidgetProperty>)
        ensures
            match first_index(property_names(self@.properties), name@) {
                Some(i) => r matches Some(p) && p@ == self@.properties[i],
                None => r is None,
            },
    {
        let ghost names = property_names(self@.properties);
        let mut i: usize = 0;
        while i < self.properties.len()
            invariant
                i <= self.properties@.len(),
                names == property_names(self@.properties),
                forall|j: int| 0 <= j < i ==> names[j] != name@,
            decreases self.properties.len() - i,
        {
            if str_eq(self.properties[i].name.as_str(), name) {
                proof {
                    lemma_first_index_at(names, name@, i as int);
                }
                return Some(&self.properties[i]);
            }
            i = i + 1;
        }
        proof {
            lemma_first_index(names, name@);
        }
        None
    }

    /// Get all required properties, in order.
    pub fn required_properties(&self) -> (r: Vec<&WidgetProperty>)
        ensures
            r@.map_values(|p: &WidgetProperty| p@) == required_of(self@.properties),
    {
        let ghost ps = self@.properties;
        let mut out: Vec<&WidgetProperty> = Vec::new();
        let mut i: usize = 0;
        while i < self.properties.len()
            invariant
                i <= self.properties@.len(),
                ps == self@.properties,
                out@.map_values(|p: &WidgetProperty| p@) == required_of(ps.take(i as int)),
            decreases self.properties.len() - i,
        {
            assert(ps.take(i + 1).drop_last() =~= ps.take(i as int));
            assert(ps.take(i + 1).last() == self.properties@[i as int]@);
            if self.properties[i].required {
                out.push(&self.properties[i]);
            }
            assert(out@.map_values(|p: &WidgetProperty| p@) =~= required_of(ps.take(i + 1)));
            i = i + 1;
        }
        assert(ps.take(i as int) =~= ps);
        out
    }

    /// Generate Markdown documentation for this widget.
    pub fn generate_docs(&self) -> (r: String)
        ensures
            r@ == docs_of(self@),
    {
        let mut docs = to_owned_string("# ");
        push_str(&mut docs, self.name.as_str());
        push_str(&mut docs, "\n\n");
        push_str(&mut docs, self.description.as_str());
        push_str(&mut docs, "\n\n");
        let ghost head = docs@;
        let ghost ps = self@.properties;
        if self.properties.len() > 0 {
            push_str(&mut docs, "## Properties\n\n");
            let ghost start = docs@;
            let mut i: usize = 0;
            while i < self.properties.len()
                invariant
                    i <= self.properties@.len(),
                    ps == self@.properties,
                    docs@ == start + properties_doc(ps, i as int),
                decreases self.properties.len() - i,
            {
                push_property_doc(&mut docs, &self.properties[i]);
                assert(docs@ =~= start + properties_doc(ps, i + 1));
                i = i + 1;
            }
        }
        let ghost mid = docs@;
        let ghost es = self@.examples;
        if self.examples.len() > 0 {
            push_str(&mut docs, "## Examples\n\n");
            let ghost start = docs@;
            let mut i: usize = 0;
            while i < self.examples.len()
                invariant
                    i <= self.examples@.len(),
                    es == self@.examples,
                    docs@ == start + examples_doc(es, i as int),
                decreases self.examples.len() - i,
            {
                let e = &self.examples[i];
                push_str(&mut docs, "### ");
                push_str(&mut docs, e.title.as_str());
                push_str(&mut docs, "\n");
                push_str(&mut docs, e.description.as_str());
                push_str(&mut docs, "\n\n```lua\n");
                push_str(&mut docs, e.decorator.as_str());
                push_str(&mut docs, "\n");
                push_str(&mut docs, e.config_line.as_str());
                push_str(&mut docs, "\n```\n\n");
                assert(docs@ =~= start + examples_doc(es, i + 1));
                i = i + 1;
            }
        }
        assert(docs@ =~= docs_of(self@));
        docs
    }

    /// A copy of this metadata.
    pub fn copy(&self) -> (r: WidgetMetadata)
        ensures
            r@ == self@,
    {
        let mut properties: Vec<WidgetProperty> = Vec::new();
        let mut i: usize = 0;
        while i < self.properties.len()
            invariant
                i <= self.properties@.len(),
                properties@.len() == i,
                forall|j: int| 0 <= j < i ==> properties@[j]@ == self.properties@[j]@,
            decreases self.properties.len() - i,
        {
            properties.push(self.properties[i].copy());
            i = i + 1;
        }
        let mut examples: Vec<WidgetExample> = Vec::new();
        let mut k: usize = 0;
        while k < self.examples.len()
            invariant
                k <= self.examples@.len(),
                examples@.len() == k,
                forall|j: int| 0 <= j < k ==> examples@[j]@ == self.examples@[j]@,
            decreases self.examples.len() - k,
        {
            examples.push(self.examples[k].copy());
            k = k + 1;
        }
        let r = WidgetMetadata {
            widget_type: self.widget_type.clone(),
            name: self.name.clone(),
            description: self.description.clone(),
            category: self.category.clone(),
            properties,
            examples,
            version: self.version.clone(),
            core: self.core,
        };
        assert(r@.properties =~= self@.properties);
        assert(r@.examples =~= self@.examples);
        r
    }
}

// ---------------------------------------------------------------------
// Built-in widget metadata
// ---------------------------------------------------------------------

/// Metadata of a core widget kind, version `1.0.0`.
pub open spec fn core_meta(
    widget_type: Seq<char>,
    name: Seq<char>,
    description: Seq<char>,
    category: Seq<char>,
    properties: Seq<PropertyView>,
    examples: Seq<ExampleView>,
) -> MetadataView {
    MetadataView {
        widget_type,
        name,
        description,
        category,
        properties,
        examples,
        version: "1.0.0"@,
        core: true,
    }
}

/// A property marked required.
pub open spec fn required_prop(p: PropertyView) -> PropertyView {
    PropertyView { required: true, constraints: p.constraints.push(ConstraintView::Required), ..p }
}

/// A property with a default value.
pub open spec fn defaulted(p: PropertyView, d: DefaultView) -> PropertyView {
    PropertyView { default_value: Some(d), ..p }
}

/// An example's model.
pub open spec fn example_view(
    title: Seq<char>,
    description: Seq<char>,
    decorator: Seq<char>,
    config_line: Seq<char>,
) -> ExampleView {
    ExampleView { title, description, decorator, config_line }
}

/// Metadata of the slider.
pub open spec fn slider_metadata() -> MetadataView {
    core_meta(
        "slider"@,
        "Slider"@,
        "A slider widget for selecting numeric values within a range"@,
        "Input"@,
        seq![
            required_prop(plain_property("min"@, "Minimum value"@, "number"@, Seq::empty())),
            required_prop(plain_property("max"@, "Maximum value"@, "number"@, Seq::empty())),
            defaulted(
                plain_property("step"@, "Step increment"@, "number"@, seq![ConstraintView::Min("0.001"@)]),
                DefaultView::Number("1.0"@),
            ),
        ],
        seq![
            example_view(
                "Font Size Slider"@,
                "Integer slider for font size"@,
                "-- @ui: slider(min=8, max=72, step=1) type=int"@,
                "config.font_size = 14"@,
            ),
        ],
    )
}

/// Metadata of the select dropdown.
pub open spec fn select_metadata() -> MetadataView {
    core_meta(
        "select"@,
        "Select Dropdown"@,
        "A dropdown selector for choosing from predefined options"@,
        "Input"@,
        seq![
            required_prop(
                plain_property(
                    "options"@,
                    "Comma-separated list of options"@,
                    "string"@,
                    seq![ConstraintView::MaxLength(1000)],
                ),
            ),
        ],
        seq![
            example_view(
                "Theme Selector"@,
                "Select from available themes"@,
                "-- @ui: select(options=\"Dark, Light, Auto\") type=string"@,
                "config.color_scheme = \"Dark\""@,
            ),
        ],
    )
}

/// Metadata of the color picker.
pub open spec fn color_picker_metadata() -> MetadataView {
    core_meta(
        "color_picker"@,
        "Color Picker"@,
        "A color picker widget for selecting colors"@,
        "Input"@,
        seq![
            defaulted(
                plain_property(
                    "format"@,
                    "Color format"@,
                    "string"@,
                    seq![ConstraintView::Options(seq!["hex"@, "rgb"@, "hsl"@, "rgba"@, "hsla"@])],
                ),
                DefaultView::Text("hex"@),
            ),
            defaulted(
                plain_property("alpha"@, "Enable alpha channel"@, "boolean"@, Seq::empty()),
                DefaultView::Bool(false),
            ),
        ],
        seq![
            example_view(
                "Background Color"@,
                "Pick a background color"@,
                "-- @ui: color_picker(format=\"hex\", alpha=false) type=color"@,
                "config.colors.background = \"#333333\""@,
            ),
        ],
    )
}

/// Metadata of the theme selector.
pub open spec fn theme_selector_metadata() -> MetadataView {
    core_meta(
        "theme_selector"@,
        "Theme Selector"@,
        "A theme selector widget with visual previews of predefined color schemes"@,
        "Theme"@,
        seq![
            defaulted(
                plain_property(
                    "themes"@,
                    "Available theme sets"@,
                    "string"@,
                    seq![ConstraintView::Options(seq!["builtin"@, "custom"@])],
                ),
                DefaultView::Text("builtin"@),
            ),
            defaulted(
                plain_property("allow_custom"@, "Allow custom theme names"@, "boolean"@, Seq::empty()),
                DefaultView::Bool(false),
            ),
            defaulted(
                plain_property(
                    "filter"@,
                    "Filter themes by type"@,
                    "string"@,
                    seq![ConstraintView::Options(seq!["all"@, "dark"@, "light"@])],
                ),
                DefaultView::Text("all"@),
            ),
        ],
        seq![
            example_view(
                "Color Scheme Selector"@,
                "Choose from built-in color schemes"@,
                "-- @ui: theme_selector(themes=\"builtin\", filter=\"all\") type=string"@,
                "config.color_scheme = \"dracula\""@,
            ),
        ],
    )
}

/// Built-in widget metadata definitions.
pub struct CoreWidgets;

impl CoreWidgets {
    /// Metadata for the slider widget.
    pub fn slider() -> (r: WidgetMetadata)
        ensures
            r@ == slider_metadata(),
    {
        let min = WidgetProperty::number("min", "Minimum value", None, None, None).required();
        let max = WidgetProperty::number("max", "Maximum value", None, None, None).required();
        let step = WidgetProperty::number("step", "Step increment", Some("0.001"), None, None).with_default(
            DefaultValue::Number(to_owned_string("1.0")),
        );
        assert(min@ == required_prop(plain_property("min"@, "Minimum value"@, "number"@, Seq::empty())));
        assert(max@ == required_prop(plain_property("max"@, "Maximum value"@, "number"@, Seq::empty())));
        assert(step@.constraints =~= seq![ConstraintView::Min("0.001"@)]);
        let r = WidgetMetadata::new(
            "slider",
            "Slider",
            "A slider widget for selecting numeric values within a range",
            "Input",
        ).with_property(min).with_property(max).with_property(step).with_example(
            WidgetExample::new(
                "Font Size Slider",
                "Integer slider for font size",
                "-- @ui: slider(min=8, max=72, step=1) type=int",
                "config.font_size = 14",
            ),
        );
        assert(r@.properties =~= slider_metadata().properties);
        assert(r@.examples =~= slider_metadata().examples);
        r
    }

    /// Metadata for the select widget.
    pub fn select() -> (r: WidgetMetadata)
        ensures
            r@ == select_metadata(),
    {
        let options = WidgetProperty::string("options", "Comma-separated list of options", Some(1000)).required();
        let r = WidgetMetadata::new(
            "select",
            "Select Dropdown",
            "A dropdown selector for choosing from predefined options",
            "Input",
        ).with_property(options).with_example(
            WidgetExample::new(
                "Theme Selector",
                "Select from available themes",
                "-- @ui: select(options=\"Dark, Light, Auto\") type=string",
                "config.color_scheme = \"Dark\"",
            ),
        );
        assert(r@.properties =~= select_metadata().properties);
        assert(r@.examples =~= select_metadata().examples);
        r
    }

    /// Metadata for the color picker widget.
    pub fn color_picker() -> (r: WidgetMetadata)
        ensures
            r@ == color_picker_metadata(),
    {
        let names: Vec<&str> = vec!["hex", "rgb", "hsl", "rgba", "hsla"];
        assert(names@.map_values(|s: &str| s@) =~= seq!["hex"@, "rgb"@, "hsl"@, "rgba"@, "hsla"@]);
        let format = WidgetProperty::options("format", "Color format", names).with_default(
            DefaultValue::Text(to_owned_string("hex")),
        );
        let alpha = WidgetProperty::boolean("alpha", "Enable alpha channel").with_default(DefaultValue::Bool(false));
        let r = WidgetMetadata::new(
            "color_picker",
            "Color Picker",
            "A color picker widget for selecting colors",
            "Input",
        ).with_property(format).with_property(alpha).with_example(
            WidgetExample::new(
                "Background Color",
                "Pick a background color",
                "-- @ui: color_picker(format=\"hex\", alpha=false) type=color",
                "config.colors.background = \"#333333\"",
            ),
        );
        assert(r@.properties =~= color_picker_metadata().properties);
        assert(r@.examples =~= color_picker_metadata().examples);
        r
    }

    /// Metadata for the theme selector widget.
    pub fn theme_selector() -> (r: WidgetMetadata)
        ensures
            r@ == theme_selector_metadata(),
    {
        let sets: Vec<&str> = vec!["builtin", "custom"];
        assert(sets@.map_values(|s: &str| s@) =~= seq!["builtin"@, "custom"@]);
        let themes = WidgetProperty::options("themes", "Available theme sets", sets).with_default(
            DefaultValue::Text(to_owned_string("builtin")),
        );
        let allow_custom = WidgetProperty::boolean("allow_custom", "Allow custom theme names").with_default(
            DefaultValue::Bool(false),
        );
        let kinds: Vec<&str> = vec!["all", "dark", "light"];
        assert(kinds@.map_values(|s: &str| s@) =~= seq!["all"@, "dark"@, "light"@]);
        let filter = WidgetProperty::options("filter", "Filter themes by type", kinds).with_default(
            DefaultValue::Text(to_owned_string("all")),
        );
        let r = WidgetMetadata::new(
            "theme_selector",
            "Theme Selector",
            "A theme selector widget with visual previews of predefined color schemes",
            "Theme",
        ).with_property(themes).with_property(allow_custom).with_property(filter).with_example(
            WidgetExample::new(
                "Color Scheme Selector",
                "Choose from built-in color schemes",
                "-- @ui: theme_selector(themes=\"builtin\", filter=\"all\") type=string",
                "config.color_scheme = \"dracula\"",
            ),
        );
        assert(r@.properties =~= theme_selector_metadata().properties);
        assert(r@.examples =~= theme_selector_metadata().examples);
        r
    }

    /// The metadata of every core widget kind, keyed by widget type.
    pub fn all() -> (r: Vec<(String, WidgetMetadata)>)
        ensures
            r@.len() == 4,
            r@[0].0@ == "slider"@ && r@[0].1@ == slider_metadata(),
            r@[1].0@ == "select"@ && r@[1].1@ == select_metadata(),
            r@[2].0@ == "color_picker"@ && r@[2].1@ == color_picker_metadata(),
            r@[3].0@ == "theme_selector"@ && r@[3].1@ == theme_selector_metadata(),
    {
        let mut widgets: Vec<(String, WidgetMetadata)> = Vec::new();
        let slider = Self::slider();
        widgets.push((slider.widget_type.clone(), slider));
        let select = Self::select();
        widgets.push((select.widget_type.clone(), select));
        let color_picker = Self::color_picker();
        widgets.push((color_picker.widget_type.clone(), color_picker));
        let theme_selector = Self::theme_selector();
        widgets.push((theme_selector.widget_type.clone(), theme_selector));
        widgets
    }
}

} // verus!

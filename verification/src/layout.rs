//! Layout of widgets: a tree of containers holding widget ids, and the
//! automatic layout that groups widgets by their config key.

use vstd::prelude::*;
use crate::error::{WezzteError, ErrorView};
use crate::text::{
    capitalize, capitalize_range, chars_of, chars_eq, find, first_index, join, join_strings,
    lemma_first_index, lemma_first_index_at, lemma_find, push_range, push_str, replace, replace_str,
    starts_with, str_eq, to_owned_string, vec_find, vec_starts_with, views, word_bounds, words,
};

verus! {

/// A JSON value; layouts carry such values as properties without reading them.
#[verifier::external_type_specification]
#[verifier::external_body]
pub struct ExJsonValue(serde_json::Value);

/// Layout container types.
#[derive(Debug, Clone, Copy, PartialEq, Eq, Structural)]
pub enum ContainerType {
    /// Simple vertical stack of widgets
    Column,
    /// Horizontal row of widgets
    Row,
    /// Tabbed interface
    Tabs,
    /// Collapsible section
    Section,
    /// Card/panel container
    Card,
    /// Grid layout with specified columns
    Grid { columns: usize },
}

/// Layout container that holds widgets or other containers.
#[derive(Debug)]
pub struct LayoutContainer {
    /// Container identifier
    pub id: String,
    /// Display title
    pub title: String,
    /// Container type
    pub container_type: ContainerType,
    /// Child widgets (by id)
    pub widgets: Vec<String>,
    /// Child containers
    pub children: Vec<LayoutContainer>,
    /// Container properties, one entry per key
    pub properties: Vec<(String, serde_json::Value)>,
    /// Whether this container is expanded/visible
    pub expanded: bool,
}

/// Model of [`LayoutContainer`].
pub struct ContainerView {
    pub id: Seq<char>,
    pub title: Seq<char>,
    pub container_type: ContainerType,
    pub widgets: Seq<Seq<char>>,
    pub children: Seq<ContainerView>,
    pub properties: Seq<(Seq<char>, serde_json::Value)>,
    pub expanded: bool,
}

/// The view of a property list.
pub open spec fn props_view(ps: Seq<(String, serde_json::Value)>) -> Seq<(Seq<char>, serde_json::Value)> {
    ps.map_values(|p: (String, serde_json::Value)| (p.0@, p.1))
}

pub open spec fn container_view(c: &LayoutContainer) -> ContainerView
    decreases c,
{
    ContainerView {
        id: c.id@,
        title: c.title@,
        container_type: c.container_type,
        widgets: views(c.widgets@),
        children: Seq::new(
            c.children@.len(),
            |i: int|
                if 0 <= i < c.children@.len() {
                    container_view(&c.children@[i])
                } else {
                    ContainerView {
                        id: Seq::empty(),
                        title: Seq::empty(),
                        container_type: ContainerType::Column,
                        widgets: Seq::empty(),
                        children: Seq::empty(),
                        properties: Seq::empty(),
                        expanded: false,
                    }
                },
        ),
        properties: props_view(c.properties@),
        expanded: c.expanded,
    }
}

impl View for LayoutContainer {
    type V = ContainerView;

    open spec fn view(&self) -> ContainerView {
        container_view(self)
    }
}

/// The container or one of its descendants has this id.
pub open spec fn contains_id(c: ContainerView, id: Seq<char>) -> bool
    decreases c, 1int,
{
    c.id == id || children_contain(c, id, c.children.len() as int)
}

/// One of the first `n` children of `c`, or a descendant of it, has this id.
pub open spec fn children_contain(c: ContainerView, id: Seq<char>, n: int) -> bool
    decreases c, 0int, n,
{
    if n <= 0 || n > c.children.len() {
        false
    } else {
        children_contain(c, id, n - 1) || contains_id(c.children[n - 1], id)
    }
}

/// Some child among the first `n` contains the id exactly when the
/// first-child search finds one.
pub proof fn lemma_children_contain(c: ContainerView, id: Seq<char>, n: int)
    requires
        0 <= n <= c.children.len(),
    ensures
        children_contain(c, id, n) == first_child_with(c.children, id, n) is Some,
    decreases n,
{
    if n > 0 {
        lemma_children_contain(c, id, n - 1);
    }
}

/// Index of the first child whose subtree has this id.
pub open spec fn first_child_with(cs: Seq<ContainerView>, id: Seq<char>, n: int) -> Option<int>
    decreases n,
{
    if n <= 0 {
        None
    } else {
        match first_child_with(cs, id, n - 1) {
            Some(k) => Some(k),
            None => if contains_id(cs[n - 1], id) {
                Some(n - 1)
            } else {
                None
            },
        }
    }
}

/// The first container with this id, in depth-first order.
pub open spec fn find_in(c: ContainerView, id: Seq<char>) -> Option<ContainerView>
    decreases c,
{
    if c.id == id {
        Some(c)
    } else {
        match first_child_with(c.children, id, c.children.len() as int) {
            Some(k) => if 0 <= k < c.children.len() {
                find_in(c.children[k], id)
            } else {
                None
            },
            None => None,
        }
    }
}

/// An edit made to one container of a layout.
pub enum LayoutEdit {
    /// Add a widget id (ignored when already present)
    AddWidget(String),
    /// Add a child container at the end
    AddChild(LayoutContainer),
}

/// Model of [`LayoutEdit`].
pub enum EditView {
    AddWidget(Seq<char>),
    AddChild(ContainerView),
}

/// The container with a widget id added unless present.
pub open spec fn with_widget(c: ContainerView, w: Seq<char>) -> ContainerView {
    if c.widgets.contains(w) {
        c
    } else {
        ContainerView { widgets: c.widgets.push(w), ..c }
    }
}

/// The container after an edit.
pub open spec fn edited(c: ContainerView, e: EditView) -> ContainerView {
    match e {
        EditView::AddWidget(w) => with_widget(c, w),
        EditView::AddChild(ch) => ContainerView { children: c.children.push(ch), ..c },
    }
}

/// The tree after editing the first container with this id (unchanged if none).
pub open spec fn edit_at(c: ContainerView, id: Seq<char>, e: EditView) -> ContainerView
    decreases c,
{
    if c.id == id {
        edited(c, e)
    } else {
        match first_child_with(c.children, id, c.children.len() as int) {
            Some(k) => if 0 <= k < c.children.len() {
                ContainerView { children: c.children.update(k, edit_at(c.children[k], id, e)), ..c }
            } else {
                c
            },
            None => c,
        }
    }
}

/// The widget ids of a container and its descendants, depth first.
pub open spec fn all_ids(c: ContainerView) -> Seq<Seq<char>>
    decreases c, 1int,
{
    c.widgets + children_ids(c, c.children.len() as int)
}

/// The widget ids of the first `n` children of `c`.
pub open spec fn children_ids(c: ContainerView, n: int) -> Seq<Seq<char>>
    decreases c, 0int, n,
{
    if n <= 0 || n > c.children.len() {
        Seq::empty()
    } else {
        children_ids(c, n - 1) + all_ids(c.children[n - 1])
    }
}

/// The first-child search stops at a child containing the id.
pub proof fn lemma_first_child_with(cs: Seq<ContainerView>, id: Seq<char>, n: int)
    requires
        0 <= n <= cs.len(),
    ensures
        first_child_with(cs, id, n) matches Some(k) ==> 0 <= k < n && contains_id(cs[k], id)
            && forall|j: int| 0 <= j < k ==> !contains_id(cs[j], id),
        first_child_with(cs, id, n) is None ==> forall|j: int| 0 <= j < n ==> !contains_id(cs[j], id),
    decreases n,
{
    if n > 0 {
        lemma_first_child_with(cs, id, n - 1);
    }
}

/// Keyed entries after setting `key` to `value`: in place where the key is
/// held, at the end where it is not.
pub open spec fn put_keyed(ps: Seq<(Seq<char>, serde_json::Value)>, key: Seq<char>, value: serde_json::Value) -> Seq<
    (Seq<char>, serde_json::Value),
> {
    match first_index(ps.map_values(|p: (Seq<char>, serde_json::Value)| p.0), key) {
        Some(i) => ps.update(i, (key, value)),
        None => ps.push((key, value)),
    }
}

/// No key is held twice among keyed entries.
pub open spec fn props_unique(ps: Seq<(Seq<char>, serde_json::Value)>) -> bool {
    forall|i: int, j: int| 0 <= i < j < ps.len() ==> (#[trigger] ps[i]).0 != (#[trigger] ps[j]).0
}

/// Setting a key keeps every key held once.
pub proof fn law_put_keyed_keeps_keys_unique(ps: Seq<(Seq<char>, serde_json::Value)>, key: Seq<char>, value: serde_json::Value)
    requires
        props_unique(ps),
    ensures
        props_unique(put_keyed(ps, key, value)),
{
    let keys = ps.map_values(|p: (Seq<char>, serde_json::Value)| p.0);
    lemma_first_index(keys, key);
    let r = put_keyed(ps, key, value);
    match first_index(keys, key) {
        Some(i) => {
            assert(keys[i] == ps[i].0);
            assert forall|a: int, b: int| 0 <= a < b < r.len() implies (#[trigger] r[a]).0 != (#[trigger] r[b]).0 by {
                assert(r[a].0 == ps[a].0 && r[b].0 == ps[b].0);
            }
        },
        None => {
            assert forall|a: int, b: int| 0 <= a < b < r.len() implies (#[trigger] r[a]).0 != (#[trigger] r[b]).0 by {
                if b < ps.len() {
                    assert(r[a] == ps[a] && r[b] == ps[b]);
                } else {
                    assert(r[a] == ps[a]);
                    assert(keys[a] == ps[a].0);
                }
            }
        },
    }
}

/// Set `key` to `value` among keyed entries.
fn put_keyed_entry(entries: &mut Vec<(String, serde_json::Value)>, key: String, value: serde_json::Value)
    ensures
        props_view(final(entries)@) == put_keyed(props_view(old(entries)@), key@, value),
{
    let ghost before = props_view(entries@);
    let ghost keys = before.map_values(|p: (Seq<char>, serde_json::Value)| p.0);
    let mut i: usize = 0;
    while i < entries.len()
        invariant
            i <= entries@.len(),
            before == props_view(entries@),
            before == props_view(old(entries)@),
            keys == before.map_values(|p: (Seq<char>, serde_json::Value)| p.0),
            keys.len() == entries@.len(),
            forall|j: int| 0 <= j < i ==> keys[j] != key@,
        decreases entries.len() - i,
    {
        assert(keys[i as int] == entries@[i as int].0@);
        if str_eq(entries[i].0.as_str(), key.as_str()) {
            proof {
                lemma_first_index_at(keys, key@, i as int);
            }
            let ghost kv = key@;
            entries.set(i, (key, value));
            assert(props_view(entries@) =~= before.update(i as int, (kv, value)));
            return;
        }
        i = i + 1;
    }
    proof {
        lemma_first_index(keys, key@);
    }
    let ghost kv = key@;
    entries.push((key, value));
    assert(props_view(entries@) =~= before.push((kv, value)));
}

impl LayoutContainer {
    /// Create a new, expanded, empty container.
    pub fn new(id: String, title: String, container_type: ContainerType) -> (r: LayoutContainer)
        ensures
            r@ == (ContainerView {
                id: id@,
                title: title@,
                container_type,
                widgets: Seq::empty(),
                children: Seq::empty(),
                properties: Seq::empty(),
                expanded: true,
            }),
    {
        let r = LayoutContainer {
            id,
            title,
            container_type,
            widgets: Vec::new(),
            children: Vec::new(),
            properties: Vec::new(),
            expanded: true,
        };
        assert(r@.widgets =~= Seq::<Seq<char>>::empty());
        assert(r@.children =~= Seq::<ContainerView>::empty());
        assert(r@.properties =~= Seq::<(Seq<char>, serde_json::Value)>::empty());
        r
    }

    /// Add a widget id to this container unless it is already there.
    pub fn add_widget(&mut self, widget_id: String)
        ensures
            final(self)@ == with_widget(old(self)@, widget_id@),
    {
        let ghost before = self@;
        let mut i: usize = 0;
        while i < self.widgets.len()
            invariant
                i <= self.widgets@.len(),
                before == self@,
                before == old(self)@,
                forall|j: int| 0 <= j < i ==> self.widgets@[j]@ != widget_id@,
            decreases self.widgets.len() - i,
        {
            if str_eq(self.widgets[i].as_str(), widget_id.as_str()) {
                assert(before.widgets[i as int] == widget_id@);
                return;
            }
            i = i + 1;
        }
        assert(!before.widgets.contains(widget_id@)) by {
            if before.widgets.contains(widget_id@) {
                let j = choose|j: int| 0 <= j < before.widgets.len() && before.widgets[j] == widget_id@;
                assert(self.widgets@[j]@ == widget_id@);
            }
        }
        self.widgets.push(widget_id);
        assert(self@.widgets =~= before.widgets.push(widget_id@));
        assert(self@.children =~= before.children);
        assert(self@.properties =~= before.properties);
    }

    /// Add a child container.
    pub fn add_child(&mut self, child: LayoutContainer)
        ensures
            final(self)@ == (ContainerView { children: old(self)@.children.push(child@), ..old(self)@ }),
    {
        let ghost before = self@;
        self.children.push(child);
        assert(self@.children =~= before.children.push(child@));
        assert(self@.widgets =~= before.widgets);
        assert(self@.properties =~= before.properties);
    }

    /// Set a property, replacing the value of an existing key.
    pub fn set_property(&mut self, key: String, value: serde_json::Value)
        ensures
            final(self)@ == (ContainerView { properties: put_keyed(old(self)@.properties, key@, value), ..old(self)@ }),
            props_unique(old(self)@.properties) ==> props_unique(final(self)@.properties),
    {
        proof {
            if props_unique(self@.properties) {
                law_put_keyed_keeps_keys_unique(self@.properties, key@, value);
            }
        }
        let ghost before = self@;
        put_keyed_entry(&mut self.properties, key, value);
        assert(self@.children =~= before.children);
        assert(self@.widgets =~= before.widgets);
    }

    /// Get a property value.
    pub fn get_property(&self, key: &str) -> (r: Option<&serde_json::Value>)
        ensures
            match first_index(self@.properties.map_values(|p: (Seq<char>, serde_json::Value)| p.0), key@) {
                Some(i) => r matches Some(v) && *v == self@.properties[i].1,
                None => r is None,
            },
    {
        let ghost keys = self@.properties.map_values(|p: (Seq<char>, serde_json::Value)| p.0);
        let mut i: usize = 0;
        while i < self.properties.len()
            invariant
                i <= self.properties@.len(),
                keys == self@.properties.map_values(|p: (Seq<char>, serde_json::Value)| p.0),
                keys.len() == self.properties@.len(),
                forall|j: int| 0 <= j < i ==> keys[j] != key@,
            decreases self.properties.len() - i,
        {
            assert(keys[i as int] == self.properties@[i as int].0@);
            if str_eq(self.properties[i].0.as_str(), key) {
                proof {
                    lemma_first_index_at(keys, key@, i as int);
                }
                return Some(&self.properties[i].1);
            }
            i = i + 1;
        }
        proof {
            lemma_first_index(keys, key@);
        }
        None
    }

    /// All widget ids of this container and its descendants, depth first.
    pub fn all_widget_ids(&self) -> (r: Vec<String>)
        ensures
            views(r@) == all_ids(self@),
        decreases self,
    {
        let mut ids: Vec<String> = Vec::new();
        let mut i: usize = 0;
        while i < self.widgets.len()
            invariant
                i <= self.widgets@.len(),
                ids@.len() == i,
                forall|j: int| 0 <= j < i ==> ids@[j]@ == self.widgets@[j]@,
            decreases self.widgets.len() - i,
        {
            ids.push(self.widgets[i].clone());
            i = i + 1;
        }
        assert(views(ids@) =~= self@.widgets);
        assert(self@.widgets + children_ids(self@, 0) =~= self@.widgets);
        let mut k: usize = 0;
        while k < self.children.len()
            invariant
                k <= self.children@.len(),
                forall|j: int| 0 <= j < self.children@.len() ==> decreases_to!(*self => #[trigger] self.children@[j]),
                views(ids@) == self@.widgets + children_ids(self@, k as int),
            decreases self.children.len() - k,
        {
            let sub = self.children[k].all_widget_ids();
            extend_strings(&mut ids, &sub);
            assert(self@.children[k as int] == self.children@[k as int]@);
            assert(views(ids@) =~= self@.widgets + children_ids(self@, k + 1));
            k = k + 1;
        }
        assert(views(ids@) == all_ids(self@));
        ids
    }

    /// Whether this container or a descendant has the id.
    pub fn contains(&self, id: &str) -> (r: bool)
        ensures
            r == contains_id(self@, id@),
        decreases self,
    {
        if str_eq(self.id.as_str(), id) {
            return true;
        }
        let mut k: usize = 0;
        while k < self.children.len()
            invariant
                k <= self.children@.len(),
                self@.id != id@,
                forall|j: int| 0 <= j < self.children@.len() ==> decreases_to!(*self => #[trigger] self.children@[j]),
                !children_contain(self@, id@, k as int),
            decreases self.children.len() - k,
        {
            assert(self@.children[k as int] == self.children@[k as int]@);
            if self.children[k].contains(id) {
                proof {
                    assert(children_contain(self@, id@, k + 1));
                    lemma_children_contain(self@, id@, k + 1);
                    lemma_children_contain(self@, id@, self@.children.len() as int);
                    lemma_first_child_stable(self@.children, id@, k + 1, self@.children.len() as int);
                }
                return true;
            }
            k = k + 1;
        }
        false
    }

    /// Find a container by id, depth first.
    pub fn find_container(&self, id: &str) -> (r: Option<&LayoutContainer>)
        ensures
            match find_in(self@, id@) {
                Some(c) => r matches Some(x) && x@ == c,
                None => r is None,
            },
        decreases self,
    {
        if str_eq(self.id.as_str(), id) {
            return Some(self);
        }
        let k = match self.child_with(id) {
            Some(k) => k,
            None => {
                return None;
            },
        };
        proof {
            assert(decreases_to!(*self => self.children@[k as int]));
        }
        assert(self@.children[k as int] == self.children@[k as int]@);
        self.children[k].find_container(id)
    }

    /// Index of the first child whose subtree has the id.
    fn child_with(&self, id: &str) -> (r: Option<usize>)
        ensures
            match first_child_with(self@.children, id@, self@.children.len() as int) {
                Some(k) => r matches Some(i) && i == k,
                None => r is None,
            },
            r matches Some(i) ==> i < self.children@.len(),
    {
        let ghost cs = self@.children;
        let mut k: usize = 0;
        while k < self.children.len()
            invariant
                k <= self.children@.len(),
                cs == self@.children,
                cs.len() == self.children@.len(),
                first_child_with(cs, id@, k as int) is None,
            decreases self.children.len() - k,
        {
            assert(cs[k as int] == self.children@[k as int]@);
            if self.children[k].contains(id) {
                proof {
                    lemma_first_child_stable(cs, id@, k + 1, cs.len() as int);
                }
                return Some(k);
            }
            k = k + 1;
        }
        None
    }

    /// Apply an edit to the first container with the id; whether one was found.
    pub fn edit(&mut self, id: &str, e: LayoutEdit) -> (r: bool)
        ensures
            r == contains_id(old(self)@, id@),
            final(self)@ == edit_at(old(self)@, id@, edit_view(&e)),
        decreases *old(self),
    {
        if str_eq(self.id.as_str(), id) {
            match e {
                LayoutEdit::AddWidget(w) => self.add_widget(w),
                LayoutEdit::AddChild(c) => self.add_child(c),
            }
            return true;
        }
        let k = match self.child_with(id) {
            Some(k) => k,
            None => {
                proof {
                    lemma_first_child_with(self@.children, id@, self@.children.len() as int);
                    lemma_children_contain(self@, id@, self@.children.len() as int);
                }
                return false;
            },
        };
        proof {
            lemma_first_child_with(self@.children, id@, self@.children.len() as int);
            assert(decreases_to!(*old(self) => old(self).children@[k as int]));
            assert(first_child_with(self@.children, id@, self@.children.len() as int) == Some(k as int));
            assert(contains_id(self@.children[k as int], id@));
            lemma_children_contain(self@, id@, self@.children.len() as int);
        }
        let ghost before = self@;
        let mut child = self.children.remove(k);
        let found = child.edit(id, e);
        self.children.insert(k, child);
        assert(self@.children =~= before.children.update(k as int, edit_at(before.children[k as int], id@, edit_view(&e))));
        assert(self@.widgets =~= before.widgets);
        assert(self@.properties =~= before.properties);
        found
    }

    /// Toggle expanded state for collapsible containers.
    pub fn toggle_expanded(&mut self)
        ensures
            final(self)@ == (ContainerView { expanded: !old(self)@.expanded, ..old(self)@ }),
    {
        let ghost before = self@;
        self.expanded = !self.expanded;
        assert(self@.children =~= before.children);
        assert(self@.widgets =~= before.widgets);
        assert(self@.properties =~= before.properties);
    }

    /// Check if this container has no widgets and no children.
    pub fn is_empty(&self) -> (r: bool)
        ensures
            r == (self@.widgets.len() == 0 && self@.children.len() == 0),
    {
        self.widgets.len() == 0 && self.children.len() == 0
    }
}

/// Appends copies of the strings of `sub` to `ids`.
fn extend_strings(ids: &mut Vec<String>, sub: &Vec<String>)
    ensures
        views(final(ids)@) == views(old(ids)@) + views(sub@),
{
    let mut j: usize = 0;
    while j < sub.len()
        invariant
            j <= sub@.len(),
            ids@.len() == old(ids)@.len() + j,
            forall|t: int| 0 <= t < old(ids)@.len() ==> ids@[t]@ == old(ids)@[t]@,
            forall|t: int| 0 <= t < j ==> ids@[old(ids)@.len() + t]@ == sub@[t]@,
        decreases sub.len() - j,
    {
        ids.push(sub[j].clone());
        j = j + 1;
    }
    assert(views(ids@) =~= views(old(ids)@) + views(sub@));
}

/// A tree without the id is left as it is by an edit.
pub proof fn lemma_edit_absent(c: ContainerView, id: Seq<char>, e: EditView)
    requires
        !contains_id(c, id),
    ensures
        edit_at(c, id, e) == c,
{
    lemma_children_contain(c, id, c.children.len() as int);
}

/// Complete layout definition.
#[derive(Debug)]
pub struct Layout {
    /// Layout name/identifier
    pub name: String,
    /// Root container
    pub root: LayoutContainer,
    /// Layout metadata, one entry per key
    pub metadata: Vec<(String, serde_json::Value)>,
}

/// Model of [`Layout`].
pub struct LayoutView {
    pub name: Seq<char>,
    pub root: ContainerView,
    pub metadata: Seq<(Seq<char>, serde_json::Value)>,
}

impl View for Layout {
    type V = LayoutView;

    open spec fn view(&self) -> LayoutView {
        LayoutView { name: self.name@, root: self.root@, metadata: props_view(self.metadata@) }
    }
}

/// A new container's model.
pub open spec fn empty_container(id: Seq<char>, title: Seq<char>, t: ContainerType) -> ContainerView {
    ContainerView {
        id,
        title,
        container_type: t,
        widgets: Seq::empty(),
        children: Seq::empty(),
        properties: Seq::empty(),
        expanded: true,
    }
}

/// The root container of a new layout.
pub open spec fn root_container() -> ContainerView {
    empty_container("root"@, "Configuration"@, ContainerType::Column)
}

/// Outcome of editing the container with an id; `missing` is the error
/// message prefix for an absent id.
pub open spec fn layout_edit(l: LayoutView, id: Seq<char>, e: EditView, missing: Seq<char>) -> Result<
    LayoutView,
    ErrorView,
> {
    if contains_id(l.root, id) {
        Ok(LayoutView { root: edit_at(l.root, id, e), ..l })
    } else {
        Err(ErrorView::Config { message: missing + id + "' not found"@ })
    }
}

impl Layout {
    /// Create a new layout with a root column titled `Configuration`.
    pub fn new(name: String) -> (r: Layout)
        ensures
            r@ == (LayoutView { name: name@, root: root_container(), metadata: Seq::empty() }),
    {
        let root = LayoutContainer::new(
            to_owned_string("root"),
            to_owned_string("Configuration"),
            ContainerType::Column,
        );
        let r = Layout { name, root, metadata: Vec::new() };
        assert(r@.metadata =~= Seq::<(Seq<char>, serde_json::Value)>::empty());
        r
    }

    /// Applies an edit to the container with the id, or reports it missing.
    fn edit_container(&mut self, id: &str, e: LayoutEdit, missing: &str) -> (r: Result<(), WezzteError>)
        ensures
            match layout_edit(old(self)@, id@, edit_view(&e), missing@) {
                Ok(l) => r is Ok && final(self)@ == l,
                Err(x) => r matches Err(y) && y@ == x && final(self)@ == old(self)@,
            },
    {
        let ghost ev = edit_view(&e);
        let ghost before = self.root@;
        let found = self.root.edit(id, e);
        if found {
            Ok(())
        } else {
            proof {
                lemma_edit_absent(before, id@, ev);
            }
            let mut m = to_owned_string(missing);
            push_str(&mut m, id);
            push_str(&mut m, "' not found");
            Err(WezzteError::config(m))
        }
    }

    /// Add a widget to a specific container.
    pub fn add_widget_to_container(&mut self, container_id: &str, widget_id: String) -> (r: Result<
        (),
        WezzteError,
    >)
        ensures
            match layout_edit(old(self)@, container_id@, EditView::AddWidget(widget_id@), "Container '"@) {
                Ok(l) => r is Ok && final(self)@ == l,
                Err(x) => r matches Err(y) && y@ == x && final(self)@ == old(self)@,
            },
    {
        self.edit_container(container_id, LayoutEdit::AddWidget(widget_id), "Container '")
    }

    /// Add a child container to an existing container.
    pub fn add_container_to_parent(&mut self, parent_id: &str, child: LayoutContainer) -> (r: Result<
        (),
        WezzteError,
    >)
        ensures
            match layout_edit(old(self)@, parent_id@, EditView::AddChild(child@), "Parent container '"@) {
                Ok(l) => r is Ok && final(self)@ == l,
                Err(x) => r matches Err(y) && y@ == x && final(self)@ == old(self)@,
            },
    {
        self.edit_container(parent_id, LayoutEdit::AddChild(child), "Parent container '")
    }

    /// Get all widget ids in the layout, depth first.
    pub fn all_widget_ids(&self) -> (r: Vec<String>)
        ensures
            views(r@) == all_ids(self@.root),
    {
        self.root.all_widget_ids()
    }

    /// Set a metadata entry, replacing the value of an existing key.
    pub fn set_metadata(&mut self, key: String, value: serde_json::Value)
        ensures
            final(self)@ == (LayoutView { metadata: put_keyed(old(self)@.metadata, key@, value), ..old(self)@ }),
            props_unique(old(self)@.metadata) ==> props_unique(final(self)@.metadata),
    {
        proof {
            if props_unique(self@.metadata) {
                law_put_keyed_keeps_keys_unique(self@.metadata, key@, value);
            }
        }
        put_keyed_entry(&mut self.metadata, key, value);
    }

    /// Find a container by id, depth first.
    pub fn find_container(&self, id: &str) -> (r: Option<&LayoutContainer>)
        ensures
            match find_in(self@.root, id@) {
                Some(c) => r matches Some(x) && x@ == c,
                None => r is None,
            },
    {
        self.root.find_container(id)
    }
}

/// Layout builder for creating layouts programmatically.
pub struct LayoutBuilder {
    layout: Layout,
}

impl View for LayoutBuilder {
    type V = LayoutView;

    closed spec fn view(&self) -> LayoutView {
        self.layout@
    }
}

/// The layout with a new container appended to the root.
pub open spec fn with_root_child(l: LayoutView, c: ContainerView) -> LayoutView {
    LayoutView { root: ContainerView { children: l.root.children.push(c), ..l.root }, ..l }
}

impl LayoutBuilder {
    /// Create a new layout builder.
    pub fn new(name: String) -> (r: LayoutBuilder)
        ensures
            r@ == (LayoutView { name: name@, root: root_container(), metadata: Seq::empty() }),
    {
        LayoutBuilder { layout: Layout::new(name) }
    }

    /// Add a section to the root.
    pub fn add_section(self, id: String, title: String) -> (r: LayoutBuilder)
        ensures
            r@ == with_root_child(self@, empty_container(id@, title@, ContainerType::Section)),
    {
        let mut b = self;
        b.layout.root.add_child(LayoutContainer::new(id, title, ContainerType::Section));
        b
    }

    /// Add a tab container to the root.
    pub fn add_tabs(self, id: String, title: String) -> (r: LayoutBuilder)
        ensures
            r@ == with_root_child(self@, empty_container(id@, title@, ContainerType::Tabs)),
    {
        let mut b = self;
        b.layout.root.add_child(LayoutContainer::new(id, title, ContainerType::Tabs));
        b
    }

    /// Add a grid container to the root.
    pub fn add_grid(self, id: String, title: String, columns: usize) -> (r: LayoutBuilder)
        ensures
            r@ == with_root_child(self@, empty_container(id@, title@, ContainerType::Grid { columns })),
    {
        let mut b = self;
        b.layout.root.add_child(LayoutContainer::new(id, title, ContainerType::Grid { columns }));
        b
    }

    /// Add a widget to a container.
    pub fn add_widget_to(self, container_id: &str, widget_id: String) -> (r: Result<LayoutBuilder, WezzteError>)
        ensures
            match layout_edit(self@, container_id@, EditView::AddWidget(widget_id@), "Container '"@) {
                Ok(l) => r matches Ok(b) && b@ == l,
                Err(x) => r matches Err(y) && y@ == x,
            },
    {
        let mut b = self;
        match b.layout.add_widget_to_container(container_id, widget_id) {
            Ok(()) => Ok(b),
            Err(e) => Err(e),
        }
    }

    /// Build the final layout.
    pub fn build(self) -> (r: Layout)
        ensures
            r@ == self@,
    {
        self.layout
    }
}

// ---------------------------------------------------------------------
// Automatic layout
// ---------------------------------------------------------------------

/// The group of a config key: `config.<first part>` for a nested key,
/// `config` for a direct one, the key itself otherwise.
pub open spec fn key_prefix(k: Seq<char>) -> Seq<char> {
    if !k.contains('.') {
        k
    } else if starts_with(k, "config."@) {
        let after = k.skip(7);
        match find(after, "."@) {
            Some(d) => "config."@ + after.take(d),
            None => "config"@,
        }
    } else {
        k
    }
}

/// The title of a group: `General Settings` for `config`, the Title Case
/// words of the rest of a `config.` prefix, the prefix itself otherwise.
pub open spec fn section_title(p: Seq<char>) -> Seq<char> {
    if p == "config"@ {
        "General Settings"@
    } else if starts_with(p, "config."@) {
        join(
            words(replace(replace(p.skip(7), "_"@, " "@), "-"@, " "@)).map_values(
                |w: Seq<char>| capitalize(w),
            ),
            " "@,
        )
    } else {
        p
    }
}

/// Groups of widget ids by the prefix of their config keys, in order of
/// first appearance.
pub open spec fn groups_of(ws: Seq<(Seq<char>, Seq<char>)>) -> Seq<(Seq<char>, Seq<Seq<char>>)>
    decreases ws.len(),
{
    if ws.len() == 0 {
        Seq::empty()
    } else {
        let gs = groups_of(ws.drop_last());
        let (id, key) = ws.last();
        let p = key_prefix(key);
        match first_index(gs.map_values(|g: (Seq<char>, Seq<Seq<char>>)| g.0), p) {
            Some(i) => gs.update(i, (p, gs[i].1.push(id))),
            None => gs.push((p, seq![id])),
        }
    }
}

/// A container after adding the widget ids one by one.
pub open spec fn with_widgets(c: ContainerView, ids: Seq<Seq<char>>) -> ContainerView
    decreases ids.len(),
{
    if ids.len() == 0 {
        c
    } else {
        with_widget(with_widgets(c, ids.drop_last()), ids.last())
    }
}

/// The section the automatic layout puts a config key in: `colors` for
/// `config.colors.*`, `fonts` for `config.font*`, `window` for
/// `config.window*`, and `general` for every other key.
pub open spec fn section_name(key: Seq<char>) -> Seq<char> {
    if starts_with(key, "config.colors."@) {
        "colors"@
    } else if starts_with(key, "config.font"@) {
        "fonts"@
    } else if starts_with(key, "config.window"@) {
        "window"@
    } else {
        "general"@
    }
}

/// The title of a section of the automatic layout.
pub open spec fn section_heading(name: Seq<char>) -> Seq<char> {
    if name == "colors"@ {
        "Colors"@
    } else if name == "fonts"@ {
        "Fonts"@
    } else if name == "window"@ {
        "Window"@
    } else {
        "General Settings"@
    }
}

/// Widget ids grouped by the section of their config keys: sections in
/// order of first appearance, ids in the order given.
pub open spec fn sections_of(ws: Seq<(Seq<char>, Seq<char>)>) -> Seq<(Seq<char>, Seq<Seq<char>>)>
    decreases ws.len(),
{
    if ws.len() == 0 {
        Seq::empty()
    } else {
        let gs = sections_of(ws.drop_last());
        let (id, key) = ws.last();
        let p = section_name(key);
        match first_index(gs.map_values(|g: (Seq<char>, Seq<Seq<char>>)| g.0), p) {
            Some(i) => gs.update(i, (p, gs[i].1.push(id))),
            None => gs.push((p, seq![id])),
        }
    }
}

/// The section container of the automatic layout for a section name and
/// its widget ids.
pub open spec fn auto_section(name: Seq<char>, ids: Seq<Seq<char>>) -> ContainerView {
    with_widgets(empty_container("section-"@ + name, section_heading(name), ContainerType::Section), ids)
}

/// The root after adding a section for each group, in order.
pub open spec fn placed(root: ContainerView, gs: Seq<(Seq<char>, Seq<Seq<char>>)>) -> ContainerView
    decreases gs.len(),
{
    if gs.len() == 0 {
        root
    } else {
        let r = placed(root, gs.drop_last());
        let (p, ids) = gs.last();
        ContainerView { children: r.children.push(auto_section(p, ids)), ..r }
    }
}

/// The group names of some groups.
pub open spec fn group_names(groups: &Vec<(String, Vec<String>)>) -> Seq<Seq<char>> {
    groups@.map_values(|g: (String, Vec<String>)| (g.0@, views(g.1@))).map_values(
        |g: (Seq<char>, Seq<Seq<char>>)| g.0,
    )
}

/// Index of the group named `p`.
fn group_index(groups: &Vec<(String, Vec<String>)>, p: &str) -> (r: Option<usize>)
    ensures
        match first_index(group_names(groups), p@) {
            Some(i) => r matches Some(k) && k == i,
            None => r is None,
        },
{
    let ghost names = group_names(groups);
    let mut j: usize = 0;
    while j < groups.len()
        invariant
            j <= groups@.len(),
            names == group_names(groups),
            names.len() == groups@.len(),
            forall|t: int| 0 <= t < j ==> names[t] != p@,
        decreases groups.len() - j,
    {
        assert(names[j as int] == groups@[j as int].0@);
        if str_eq(groups[j].0.as_str(), p) {
            proof {
                lemma_first_index_at(names, p@, j as int);
            }
            return Some(j);
        }
        j = j + 1;
    }
    proof {
        lemma_first_index(names, p@);
    }
    None
}

/// Automatic layout generator.
pub struct AutoLayoutGenerator;

impl AutoLayoutGenerator {
    /// The group a config key belongs to.
    pub fn config_key_prefix(config_key: &str) -> (r: String)
        ensures
            r@ == key_prefix(config_key@),
    {
        let v = chars_of(config_key);
        let dot = chars_of(".");
        let pre = chars_of("config.");
        proof {
            reveal_strlit(".");
            reveal_strlit("config.");
        }
        let has_dot = vec_find(&v, &dot).is_some();
        proof {
            lemma_find(v@, "."@);
            assert("."@.len() == 1 && "."@[0] == '.');
            assert(has_dot == v@.contains('.')) by {
                if v@.contains('.') {
                    let j = choose|j: int| 0 <= j < v@.len() && v@[j] == '.';
                    assert(v@.subrange(j, j + 1) =~= "."@);
                    assert(crate::text::occurs_at(v@, "."@, j));
                }
                match find(v@, "."@) {
                    Some(k) => {
                        assert(v@.subrange(k, k + 1)[0] == v@[k]);
                    },
                    None => {},
                }
            }
        }
        if !has_dot {
            return to_owned_string(config_key);
        }
        if !crate::text::vec_starts_with(&v, &pre) {
            return to_owned_string(config_key);
        }
        let mut after: Vec<char> = Vec::new();
        let mut i: usize = 7;
        while i < v.len()
            invariant
                7 <= i <= v@.len(),
                after@ == v@.subrange(7, i as int),
            decreases v.len() - i,
        {
            after.push(v[i]);
            i = i + 1;
            assert(after@ =~= v@.subrange(7, i as int));
        }
        assert(after@ =~= config_key@.skip(7));
        match vec_find(&after, &dot) {
            Some(d) => {
                proof {
                    lemma_find(after@, "."@);
                }
                let mut out = to_owned_string("config.");
                push_range(&mut out, &after, 0, d);
                assert(after@.subrange(0, d as int) =~= after@.take(d as int));
                out
            },
            None => to_owned_string("config"),
        }
    }

    /// Format a section title from a config key prefix.
    pub fn format_section_title(prefix: &str) -> (r: String)
        ensures
            r@ == section_title(prefix@),
    {
        proof {
            reveal_strlit("config.");
        }
        if str_eq(prefix, "config") {
            return to_owned_string("General Settings");
        }
        let v = chars_of(prefix);
        let pre = chars_of("config.");
        if !crate::text::vec_starts_with(&v, &pre) {
            return to_owned_string(prefix);
        }
        let mut after = String::new();
        push_range(&mut after, &v, 7, v.len());
        assert(after@ =~= prefix@.skip(7));
        proof {
            reveal_strlit("_");
            reveal_strlit(" ");
            reveal_strlit("-");
        }
        let a = replace_str(after.as_str(), "_", " ");
        let b = replace_str(a.as_str(), "-", " ");
        let bv = chars_of(b.as_str());
        assert(bv@.subrange(0, bv@.len() as int) =~= bv@);
        let bounds = word_bounds(&bv, 0, bv.len());
        let ghost ws = words(bv@);
        let mut parts: Vec<String> = Vec::new();
        let mut i: usize = 0;
        while i < bounds.len()
            invariant
                i <= bounds@.len(),
                bounds@.len() == ws.len(),
                forall|k: int|
                    0 <= k < bounds@.len() ==> (#[trigger] bounds@[k]).0 <= bounds@[k].1 <= bv@.len()
                        && bv@.subrange(bounds@[k].0 as int, bounds@[k].1 as int) == ws[k],
                parts@.len() == i,
                forall|k: int| 0 <= k < i ==> (#[trigger] parts@[k])@ == capitalize(ws[k]),
            decreases bounds.len() - i,
        {
            let (x, y) = bounds[i];
            parts.push(capitalize_range(&bv, x, y));
            i = i + 1;
        }
        assert(views(parts@) =~= ws.map_values(|w: Seq<char>| capitalize(w)));
        join_strings(&parts, " ")
    }

    /// Group widgets `(id, config key)` by the prefix of their config keys,
    /// in order of first appearance.
    pub fn group_widgets_by_prefix(widgets: &Vec<(String, String)>) -> (r: Vec<(String, Vec<String>)>)
        ensures
            r@.map_values(|g: (String, Vec<String>)| (g.0@, views(g.1@))) == groups_of(
                widgets@.map_values(|w: (String, String)| (w.0@, w.1@)),
            ),
    {
        let ghost ws = widgets@.map_values(|w: (String, String)| (w.0@, w.1@));
        let mut groups: Vec<(String, Vec<String>)> = Vec::new();
        let mut i: usize = 0;
        while i < widgets.len()
            invariant
                i <= widgets@.len(),
                ws == widgets@.map_values(|w: (String, String)| (w.0@, w.1@)),
                groups@.map_values(|g: (String, Vec<String>)| (g.0@, views(g.1@))) == groups_of(
                    ws.take(i as int),
                ),
            decreases widgets.len() - i,
        {
            let ghost gs = groups_of(ws.take(i as int));
            assert(ws.take(i + 1).drop_last() =~= ws.take(i as int));
            assert(ws.take(i + 1).last() == ws[i as int]);
            let p = Self::config_key_prefix(widgets[i].1.as_str());
            let ghost names = gs.map_values(|g: (Seq<char>, Seq<Seq<char>>)| g.0);
            let found = group_index(&groups, p.as_str());
            assert(names =~= group_names(&groups));
            proof {
                lemma_first_index(names, p@);
            }
            if let Some(j) = found {
                let ghost g0 = groups@;
                let (name, mut ids) = groups.remove(j);
                assert(name@ == names[j as int]);
                assert(views(ids@) == gs[j as int].1);
                ids.push(widgets[i].0.clone());
                assert(views(ids@) =~= gs[j as int].1.push(ws[i as int].0));
                let ghost entry = (name, ids);
                groups.insert(j, (name, ids));
                assert(groups@ =~= g0.update(j as int, entry));
                assert(groups@.map_values(|g: (String, Vec<String>)| (g.0@, views(g.1@))) =~= gs.update(
                    j as int,
                    (p@, gs[j as int].1.push(ws[i as int].0)),
                ));
            } else {
                let mut ids: Vec<String> = Vec::new();
                ids.push(widgets[i].0.clone());
                assert(views(ids@) =~= seq![ws[i as int].0]);
                groups.push((p, ids));
                assert(groups@.map_values(|g: (String, Vec<String>)| (g.0@, views(g.1@))) =~= gs.push(
                    (key_prefix(ws[i as int].1), seq![ws[i as int].0]),
                ));
            }
            i = i + 1;
        }
        assert(ws.take(i as int) =~= ws);
        groups
    }

    /// The section the automatic layout puts a config key in (see
    /// [`section_name`]).
    fn section_name_of(key: &str) -> (r: String)
        ensures
            r@ == section_name(key@),
    {
        let v = chars_of(key);
        if vec_starts_with(&v, &chars_of("config.colors.")) {
            to_owned_string("colors")
        } else if vec_starts_with(&v, &chars_of("config.font")) {
            to_owned_string("fonts")
        } else if vec_starts_with(&v, &chars_of("config.window")) {
            to_owned_string("window")
        } else {
            to_owned_string("general")
        }
    }

    /// The title of a section of the automatic layout.
    fn section_heading_of(name: &str) -> (r: String)
        ensures
            r@ == section_heading(name@),
    {
        if str_eq(name, "colors") {
            to_owned_string("Colors")
        } else if str_eq(name, "fonts") {
            to_owned_string("Fonts")
        } else if str_eq(name, "window") {
            to_owned_string("Window")
        } else {
            to_owned_string("General Settings")
        }
    }

    /// Group widgets `(id, config key)` by the section of their config
    /// keys, in order of first appearance.
    fn group_widgets_by_section(widgets: &Vec<(String, String)>) -> (r: Vec<(String, Vec<String>)>)
        ensures
            r@.map_values(|g: (String, Vec<String>)| (g.0@, views(g.1@))) == sections_of(
                widgets@.map_values(|w: (String, String)| (w.0@, w.1@)),
            ),
    {
        let ghost ws = widgets@.map_values(|w: (String, String)| (w.0@, w.1@));
        let mut groups: Vec<(String, Vec<String>)> = Vec::new();
        let mut i: usize = 0;
        while i < widgets.len()
            invariant
                i <= widgets@.len(),
                ws == widgets@.map_values(|w: (String, String)| (w.0@, w.1@)),
                groups@.map_values(|g: (String, Vec<String>)| (g.0@, views(g.1@))) == sections_of(
                    ws.take(i as int),
                ),
            decreases widgets.len() - i,
        {
            let ghost gs = sections_of(ws.take(i as int));
            assert(ws.take(i + 1).drop_last() =~= ws.take(i as int));
            assert(ws.take(i + 1).last() == ws[i as int]);
            let p = Self::section_name_of(widgets[i].1.as_str());
            let ghost names = gs.map_values(|g: (Seq<char>, Seq<Seq<char>>)| g.0);
            let found = group_index(&groups, p.as_str());
            assert(names =~= group_names(&groups));
            proof {
                lemma_first_index(names, p@);
            }
            if let Some(j) = found {
                let ghost g0 = groups@;
                let (name, mut ids) = groups.remove(j);
                assert(name@ == names[j as int]);
                assert(views(ids@) == gs[j as int].1);
                ids.push(widgets[i].0.clone());
                assert(views(ids@) =~= gs[j as int].1.push(ws[i as int].0));
                let ghost entry = (name, ids);
                groups.insert(j, (name, ids));
                assert(groups@ =~= g0.update(j as int, entry));
                assert(groups@.map_values(|g: (String, Vec<String>)| (g.0@, views(g.1@))) =~= gs.update(
                    j as int,
                    (p@, gs[j as int].1.push(ws[i as int].0)),
                ));
            } else {
                let mut ids: Vec<String> = Vec::new();
                ids.push(widgets[i].0.clone());
                assert(views(ids@) =~= seq![ws[i as int].0]);
                groups.push((p, ids));
                assert(groups@.map_values(|g: (String, Vec<String>)| (g.0@, views(g.1@))) =~= gs.push(
                    (section_name(ws[i as int].1), seq![ws[i as int].0]),
                ));
            }
            i = i + 1;
        }
        assert(ws.take(i as int) =~= ws);
        groups
    }

    /// Generate a layout for widgets `(id, config key)`: each widget goes
    /// into the section of its config key (General Settings, Colors, Fonts
    /// or Window), the sections in order of first appearance.
    pub fn generate_layout(widgets: &Vec<(String, String)>) -> (r: Layout)
        ensures
            r@ == (LayoutView {
                name: "Auto-Generated Layout"@,
                root: placed(
                    root_container(),
                    sections_of(widgets@.map_values(|w: (String, String)| (w.0@, w.1@))),
                ),
                metadata: Seq::empty(),
            }),
    {
        let mut layout = Layout::new(to_owned_string("Auto-Generated Layout"));
        let groups = Self::group_widgets_by_section(widgets);
        let ghost gs = groups@.map_values(|g: (String, Vec<String>)| (g.0@, views(g.1@)));
        let mut i: usize = 0;
        while i < groups.len()
            invariant
                i <= groups@.len(),
                gs == groups@.map_values(|g: (String, Vec<String>)| (g.0@, views(g.1@))),
                layout@.name == "Auto-Generated Layout"@,
                layout@.metadata == Seq::<(Seq<char>, serde_json::Value)>::empty(),
                layout@.root == placed(root_container(), gs.take(i as int)),
            decreases groups.len() - i,
        {
            assert(gs.take(i + 1).drop_last() =~= gs.take(i as int));
            assert(gs.take(i + 1).last() == gs[i as int]);
            let (name, ids) = (&groups[i].0, &groups[i].1);
            let mut sid = to_owned_string("section-");
            push_str(&mut sid, name.as_str());
            let title = Self::section_heading_of(name.as_str());
            let mut section = LayoutContainer::new(sid, title, ContainerType::Section);
            let mut k: usize = 0;
            while k < ids.len()
                invariant
                    k <= ids@.len(),
                    section@ == with_widgets(
                        empty_container("section-"@ + name@, section_heading(name@), ContainerType::Section),
                        views(ids@).take(k as int),
                    ),
                decreases ids.len() - k,
            {
                assert(views(ids@).take(k + 1).drop_last() =~= views(ids@).take(k as int));
                section.add_widget(ids[k].clone());
                k = k + 1;
            }
            assert(views(ids@).take(k as int) =~= views(ids@));
            layout.root.add_child(section);
            i = i + 1;
        }
        assert(gs.take(i as int) =~= gs);
        layout
    }
}

/// The ids of a child among the first `n` are among the ids of those children.
proof fn lemma_children_ids_include(c: ContainerView, n: int, k: int, x: Seq<char>)
    requires
        0 <= k < n <= c.children.len(),
        all_ids(c.children[k]).contains(x),
    ensures
        children_ids(c, n).contains(x),
    decreases n,
{
    if k == n - 1 {
        let a = children_ids(c, n - 1);
        let b = all_ids(c.children[n - 1]);
        let j = choose|j: int| 0 <= j < b.len() && b[j] == x;
        assert((a + b)[a.len() + j] == x);
    } else {
        lemma_children_ids_include(c, n - 1, k, x);
        let a = children_ids(c, n - 1);
        let j = choose|j: int| 0 <= j < a.len() && a[j] == x;
        assert((a + all_ids(c.children[n - 1]))[j] == x);
    }
}

/// After a widget is added to a container of the tree, the widget is among
/// the tree's widget ids.
pub proof fn law_added_widget_is_listed(c: ContainerView, id: Seq<char>, w: Seq<char>)
    requires
        contains_id(c, id),
    ensures
        all_ids(edit_at(c, id, EditView::AddWidget(w))).contains(w),
    decreases c,
{
    let r = edit_at(c, id, EditView::AddWidget(w));
    if c.id == id {
        assert(r.widgets.contains(w)) by {
            if !c.widgets.contains(w) {
                assert(r.widgets[c.widgets.len() as int] == w);
            }
        }
        let j = choose|j: int| 0 <= j < r.widgets.len() && r.widgets[j] == w;
        assert(all_ids(r)[j] == w);
    } else {
        lemma_children_contain(c, id, c.children.len() as int);
        lemma_first_child_with(c.children, id, c.children.len() as int);
        let k = first_child_with(c.children, id, c.children.len() as int)->0;
        law_added_widget_is_listed(c.children[k], id, w);
        assert(r.children[k] == edit_at(c.children[k], id, EditView::AddWidget(w)));
        lemma_children_ids_include(r, r.children.len() as int, k, w);
        let a = children_ids(r, r.children.len() as int);
        let j = choose|j: int| 0 <= j < a.len() && a[j] == w;
        assert(all_ids(r)[r.widgets.len() + j] == w);
    }
}

/// Adding a widget twice leaves the container as adding it once.
pub proof fn law_add_widget_idempotent(c: ContainerView, w: Seq<char>)
    ensures
        with_widget(with_widget(c, w), w) == with_widget(c, w),
{
    if !c.widgets.contains(w) {
        assert(with_widget(c, w).widgets[c.widgets.len() as int] == w);
    }
}

/// The model of an edit.
pub open spec fn edit_view(e: &LayoutEdit) -> EditView {
    match e {
        LayoutEdit::AddWidget(w) => EditView::AddWidget(w@),
        LayoutEdit::AddChild(c) => EditView::AddChild(c@),
    }
}

/// Once a child containing the id is found, later prefixes find the same one.
proof fn lemma_first_child_stable(cs: Seq<ContainerView>, id: Seq<char>, n: int, m: int)
    requires
        n <= m,
        first_child_with(cs, id, n) is Some,
    ensures
        first_child_with(cs, id, m) == first_child_with(cs, id, n),
    decreases m - n,
{
    if n < m {
        lemma_first_child_stable(cs, id, n, m - 1);
    }
}

/// An element of a concatenation comes from one of its two parts.
proof fn lemma_contains_concat<A>(a: Seq<A>, b: Seq<A>, x: A)
    ensures
        (a + b).contains(x) <==> (a.contains(x) || b.contains(x)),
{
    if a.contains(x) {
        let i = choose|i: int| 0 <= i < a.len() && a[i] == x;
        assert((a + b)[i] == x);
    }
    if b.contains(x) {
        let i = choose|i: int| 0 <= i < b.len() && b[i] == x;
        assert((a + b)[a.len() + i] == x);
    }
    if (a + b).contains(x) {
        let i = choose|i: int| 0 <= i < (a + b).len() && (a + b)[i] == x;
        if i < a.len() {
            assert(a[i] == x);
        } else {
            assert(b[i - a.len()] == x);
        }
    }
}

/// Every group of `sections_of` holds at least one id, and every input id
/// lands in some group.
proof fn lemma_sections_cover(ws: Seq<(Seq<char>, Seq<char>)>)
    ensures
        forall|g: int| 0 <= g < sections_of(ws).len() ==> #[trigger] sections_of(ws)[g].1.len() >= 1,
        forall|k: int|
            #![trigger ws[k]]
            0 <= k < ws.len() ==> exists|g: int|
                0 <= g < sections_of(ws).len() && (#[trigger] sections_of(ws)[g]).1.contains(ws[k].0)
                    && sections_of(ws)[g].0 == section_name(ws[k].1),
    decreases ws.len(),
{
    if ws.len() > 0 {
        let d = ws.drop_last();
        lemma_sections_cover(d);
        let gs = sections_of(d);
        let (id, key) = ws.last();
        let p = section_name(key);
        let names = gs.map_values(|g: (Seq<char>, Seq<Seq<char>>)| g.0);
        lemma_first_index(names, p);
        let r = sections_of(ws);
        match first_index(names, p) {
            Some(i) => {
                assert(r == gs.update(i, (p, gs[i].1.push(id))));
                assert forall|g: int| 0 <= g < r.len() implies #[trigger] r[g].1.len() >= 1 by {
                    if g != i {
                        assert(r[g] == gs[g]);
                    }
                }
                assert forall|k: int| #![trigger ws[k]] 0 <= k < ws.len() implies exists|g: int|
                    0 <= g < r.len() && (#[trigger] r[g]).1.contains(ws[k].0) && r[g].0 == section_name(ws[k].1) by {
                    if k == ws.len() - 1 {
                        assert(r[i].1[r[i].1.len() - 1] == id);
                        assert(r[i].1.contains(ws[k].0));
                    } else {
                        assert(d[k] == ws[k]);
                        let g = choose|g: int| 0 <= g < gs.len() && (#[trigger] gs[g]).1.contains(d[k].0)
                            && gs[g].0 == section_name(d[k].1);
                        let j = choose|j: int| 0 <= j < gs[g].1.len() && gs[g].1[j] == d[k].0;
                        if g == i {
                            assert(r[i].1[j] == ws[k].0);
                            assert(r[i].1.contains(ws[k].0));
                        } else {
                            assert(r[g] == gs[g]);
                            assert(r[g].1.contains(ws[k].0));
                        }
                    }
                }
            },
            None => {
                assert(r == gs.push((p, seq![id])));
                assert forall|g: int| 0 <= g < r.len() implies #[trigger] r[g].1.len() >= 1 by {
                    if g < gs.len() {
                        assert(r[g] == gs[g]);
                    }
                }
                assert forall|k: int| #![trigger ws[k]] 0 <= k < ws.len() implies exists|g: int|
                    0 <= g < r.len() && (#[trigger] r[g]).1.contains(ws[k].0) && r[g].0 == section_name(ws[k].1) by {
                    if k == ws.len() - 1 {
                        assert(r[gs.len() as int].1[0] == id);
                        assert(r[gs.len() as int].1.contains(ws[k].0));
                    } else {
                        assert(d[k] == ws[k]);
                        let g = choose|g: int| 0 <= g < gs.len() && (#[trigger] gs[g]).1.contains(d[k].0)
                            && gs[g].0 == section_name(d[k].1);
                        assert(r[g] == gs[g]);
                        assert(r[g].1.contains(ws[k].0));
                    }
                }
            },
        }
    }
}

/// The ids below the first `n` children depend on the children alone.
proof fn lemma_children_ids_same(a: ContainerView, b: ContainerView, n: int)
    requires
        a.children == b.children,
    ensures
        children_ids(a, n) == children_ids(b, n),
    decreases n,
{
    if n > 0 {
        lemma_children_ids_same(a, b, n - 1);
    }
}

/// Appending a child leaves the ids below the earlier children as they were.
proof fn lemma_children_ids_push(a: ContainerView, ch: ContainerView, n: int)
    requires
        0 <= n <= a.children.len(),
    ensures
        children_ids(ContainerView { children: a.children.push(ch), ..a }, n) == children_ids(a, n),
    decreases n,
{
    let b = ContainerView { children: a.children.push(ch), ..a };
    if n > 0 {
        lemma_children_ids_push(a, ch, n - 1);
        assert(b.children[n - 1] == a.children[n - 1]);
    }
}

/// Adding widget ids keeps the children and the ids already there, and
/// adds every id given.
proof fn lemma_with_widgets(c: ContainerView, ids: Seq<Seq<char>>)
    ensures
        with_widgets(c, ids).children == c.children,
        forall|x: Seq<char>| c.widgets.contains(x) ==> #[trigger] with_widgets(c, ids).widgets.contains(x),
        forall|j: int| 0 <= j < ids.len() ==> with_widgets(c, ids).widgets.contains(#[trigger] ids[j]),
    decreases ids.len(),
{
    if ids.len() > 0 {
        let d = ids.drop_last();
        lemma_with_widgets(c, d);
        let w = with_widgets(c, d);
        let r = with_widgets(c, ids);
        assert(r == with_widget(w, ids.last()));
        assert forall|x: Seq<char>| w.widgets.contains(x) implies #[trigger] r.widgets.contains(x) by {
            if !w.widgets.contains(ids.last()) {
                let i = choose|i: int| 0 <= i < w.widgets.len() && w.widgets[i] == x;
                assert(r.widgets[i] == x);
            }
        }
        assert(r.widgets.contains(ids.last())) by {
            if !w.widgets.contains(ids.last()) {
                assert(r.widgets[w.widgets.len() as int] == ids.last());
            }
        }
        assert forall|j: int| 0 <= j < ids.len() implies r.widgets.contains(#[trigger] ids[j]) by {
            if j < ids.len() - 1 {
                assert(d[j] == ids[j]);
                assert(w.widgets.contains(d[j]));
            }
        }
    }
}

/// Adding a child keeps every id and adds those of the child.
proof fn lemma_with_child_ids(c: ContainerView, ch: ContainerView)
    ensures
        forall|x: Seq<char>| all_ids(c).contains(x) || all_ids(ch).contains(x) ==> #[trigger] all_ids(
            ContainerView { children: c.children.push(ch), ..c },
        ).contains(x),
{
    let r = ContainerView { children: c.children.push(ch), ..c };
    let n = c.children.len() as int;
    lemma_children_ids_push(c, ch, n);
    assert(r.children[n] == ch);
    assert(children_ids(r, n + 1) == children_ids(r, n) + all_ids(ch));
    assert forall|x: Seq<char>| all_ids(c).contains(x) || all_ids(ch).contains(x) implies #[trigger] all_ids(
        r,
    ).contains(x) by {
        lemma_contains_concat(c.widgets, children_ids(c, n), x);
        lemma_contains_concat(children_ids(c, n), all_ids(ch), x);
        lemma_contains_concat(r.widgets, children_ids(r, n + 1), x);
    }
}

/// Adding a section for each group puts each of their ids in the tree, and
/// keeps the ids already there.
proof fn lemma_placed_ids(root: ContainerView, gs: Seq<(Seq<char>, Seq<Seq<char>>)>)
    ensures
        forall|x: Seq<char>| all_ids(root).contains(x) ==> #[trigger] all_ids(placed(root, gs)).contains(x),
        forall|g: int, j: int|
            0 <= g < gs.len() && 0 <= j < gs[g].1.len() ==> all_ids(placed(root, gs)).contains(
                #[trigger] gs[g].1[j],
            ),
    decreases gs.len(),
{
    if gs.len() > 0 {
        let d = gs.drop_last();
        lemma_placed_ids(root, d);
        let r = placed(root, d);
        let (p, ids) = gs.last();
        let out = placed(root, gs);
        let sec = auto_section(p, ids);
        lemma_with_child_ids(r, sec);
        lemma_with_widgets(empty_container("section-"@ + p, section_heading(p), ContainerType::Section), ids);
        assert forall|j: int| 0 <= j < ids.len() implies all_ids(sec).contains(#[trigger] ids[j]) by {
            lemma_contains_concat(sec.widgets, children_ids(sec, sec.children.len() as int), ids[j]);
        }
        assert forall|g: int, j: int|
            0 <= g < gs.len() && 0 <= j < gs[g].1.len() implies all_ids(out).contains(
                #[trigger] gs[g].1[j],
            ) by {
            if g < d.len() {
                assert(d[g] == gs[g]);
                assert(all_ids(r).contains(d[g].1[j]));
            } else {
                assert(all_ids(auto_section(p, ids)).contains(ids[j]));
            }
        }
    }
}

/// Adding widget ids keeps a container's id, title and type.
proof fn lemma_with_widgets_keeps(c: ContainerView, ids: Seq<Seq<char>>)
    ensures
        with_widgets(c, ids).id == c.id,
        with_widgets(c, ids).title == c.title,
        with_widgets(c, ids).container_type == c.container_type,
    decreases ids.len(),
{
    if ids.len() > 0 {
        lemma_with_widgets_keeps(c, ids.drop_last());
    }
}

/// The root after adding a section for each group holds those sections,
/// in order, after its own children.
proof fn lemma_placed_children(root: ContainerView, gs: Seq<(Seq<char>, Seq<Seq<char>>)>)
    ensures
        placed(root, gs).children.len() == root.children.len() + gs.len(),
        forall|g: int|
            0 <= g < gs.len() ==> #[trigger] placed(root, gs).children[root.children.len() + g]
                == auto_section(gs[g].0, gs[g].1),
    decreases gs.len(),
{
    if gs.len() > 0 {
        let d = gs.drop_last();
        lemma_placed_children(root, d);
        assert forall|g: int| 0 <= g < gs.len() implies #[trigger] placed(root, gs).children[root.children.len() + g]
            == auto_section(gs[g].0, gs[g].1) by {
            if g < d.len() {
                assert(d[g] == gs[g]);
                assert(placed(root, gs).children[root.children.len() + g] == placed(root, d).children[root.children.len() + g]);
            }
        }
    }
}

/// Every widget handed to the automatic layout is placed in the generated
/// tree, in the section of its config key: a child of the root with id
/// `section-` and the section's name, titled after the section.
pub proof fn law_auto_layout_places_every_widget(ws: Seq<(Seq<char>, Seq<char>)>, k: int)
    requires
        0 <= k < ws.len(),
    ensures
        all_ids(placed(root_container(), sections_of(ws))).contains(ws[k].0),
        exists|g: int|
            0 <= g < placed(root_container(), sections_of(ws)).children.len() && {
                let c = #[trigger] placed(root_container(), sections_of(ws)).children[g];
                &&& c.id == "section-"@ + section_name(ws[k].1)
                &&& c.title == section_heading(section_name(ws[k].1))
                &&& c.container_type == ContainerType::Section
                &&& c.widgets.contains(ws[k].0)
            },
{
    let gs = sections_of(ws);
    lemma_sections_cover(ws);
    lemma_placed_ids(root_container(), gs);
    lemma_placed_children(root_container(), gs);
    assert(ws[k] == ws[k]);
    let g = choose|g: int| 0 <= g < gs.len() && (#[trigger] gs[g]).1.contains(ws[k].0) && gs[g].0 == section_name(ws[k].1);
    let j = choose|j: int| 0 <= j < gs[g].1.len() && gs[g].1[j] == ws[k].0;
    assert(all_ids(placed(root_container(), gs)).contains(gs[g].1[j]));
    let p = gs[g].0;
    let ids = gs[g].1;
    let base = empty_container("section-"@ + p, section_heading(p), ContainerType::Section);
    lemma_with_widgets(base, ids);
    lemma_with_widgets_keeps(base, ids);
    let c = placed(root_container(), gs).children[0 + g];
    assert(c == auto_section(p, ids));
    assert(c.widgets.contains(ids[j]));
}

} // verus!

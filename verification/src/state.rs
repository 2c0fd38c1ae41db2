//! Widget values held apart from the widgets while a user edits them, with
//! the ids of those that changed since the changes were last taken.

use vstd::prelude::*;
use crate::text::{first_index, lemma_first_index, str_eq, views};
use crate::widgets::traits::{WidgetValue, WVal};

verus! {

/// The ids of some entries, in order.
pub open spec fn keys_of(vals: Seq<(Seq<char>, WVal)>) -> Seq<Seq<char>> {
    vals.map_values(|e: (Seq<char>, WVal)| e.0)
}

/// The value held for an id.
pub open spec fn value_for(vals: Seq<(Seq<char>, WVal)>, id: Seq<char>) -> Option<WVal> {
    match first_index(keys_of(vals), id) {
        Some(i) => Some(vals[i].1),
        None => None,
    }
}

/// The entries after holding `v` for `id`: in place where the id is held,
/// at the end where it is not.
pub open spec fn put(vals: Seq<(Seq<char>, WVal)>, id: Seq<char>, v: WVal) -> Seq<(Seq<char>, WVal)> {
    match first_index(keys_of(vals), id) {
        Some(i) => vals.update(i, (id, v)),
        None => vals.push((id, v)),
    }
}

/// The entries after holding each pair in turn.
pub open spec fn put_all(vals: Seq<(Seq<char>, WVal)>, items: Seq<(Seq<char>, WVal)>) -> Seq<
    (Seq<char>, WVal),
>
    decreases items.len(),
{
    if items.len() == 0 {
        vals
    } else {
        put(put_all(vals, items.drop_last()), items.last().0, items.last().1)
    }
}

/// What a state manager holds: the values by widget id, and the ids whose
/// values changed, in the order they first changed.
pub struct StateView {
    pub values: Seq<(Seq<char>, WVal)>,
    pub changed: Seq<Seq<char>>,
}

/// No id is held twice, none is listed twice as changed, and every changed
/// id has a value.
pub open spec fn state_wf(s: StateView) -> bool {
    &&& keys_of(s.values).no_duplicates()
    &&& s.changed.no_duplicates()
    &&& forall|i: int| 0 <= i < s.changed.len() ==> keys_of(s.values).contains(#[trigger] s.changed[i])
}

/// Whether holding `v` for `id` changes what is held (numbers compare by
/// their text).
pub open spec fn changes(s: StateView, id: Seq<char>, v: WVal) -> bool {
    match value_for(s.values, id) {
        Some(c) => c != v,
        None => true,
    }
}

/// The state after an update of `id` to `v`: unchanged when the value is
/// already held, else the value is held and the id is listed as changed.
pub open spec fn updated(s: StateView, id: Seq<char>, v: WVal) -> StateView {
    if changes(s, id, v) {
        StateView {
            values: put(s.values, id, v),
            changed: if s.changed.contains(id) {
                s.changed
            } else {
                s.changed.push(id)
            },
        }
    } else {
        s
    }
}

/// The changed ids with their values, in the order they first changed.
pub open spec fn changed_entries(s: StateView) -> Seq<(Seq<char>, WVal)> {
    s.changed.map_values(|k: Seq<char>| (k, value_for(s.values, k)->0))
}

/// Holding a value keeps the ids distinct, holds the value for its id,
/// and leaves the values of the other ids as they were.
pub proof fn lemma_put(vals: Seq<(Seq<char>, WVal)>, id: Seq<char>, v: WVal)
    ensures
        keys_of(vals).no_duplicates() ==> keys_of(put(vals, id, v)).no_duplicates(),
        keys_of(put(vals, id, v)).contains(id),
        forall|k: Seq<char>| keys_of(vals).contains(k) ==> #[trigger] keys_of(put(vals, id, v)).contains(k),
        value_for(put(vals, id, v), id) == Some(v),
        forall|k: Seq<char>| k != id ==> #[trigger] value_for(put(vals, id, v), k) == value_for(vals, k),
        first_index(keys_of(vals), id) is None ==> keys_of(put(vals, id, v)) == keys_of(vals).push(id),
        first_index(keys_of(vals), id) is Some ==> keys_of(put(vals, id, v)) == keys_of(vals),
{
    let ks = keys_of(vals);
    lemma_first_index(ks, id);
    let p = put(vals, id, v);
    match first_index(ks, id) {
        Some(i) => {
            assert(keys_of(p) =~= ks);
            assert(p[i].1 == v);
            assert forall|k: Seq<char>| k != id implies #[trigger] value_for(p, k) == value_for(vals, k) by {
                lemma_first_index(ks, k);
                if let Some(j) = first_index(ks, k) {
                    assert(j != i);
                    assert(p[j] == vals[j]);
                }
            }
        },
        None => {
            assert(keys_of(p) =~= ks.push(id));
            assert(keys_of(p).drop_last() =~= ks);
            assert(first_index(keys_of(p), id) == Some(ks.len() as int));
            assert forall|k: Seq<char>| k != id implies #[trigger] value_for(p, k) == value_for(vals, k) by {
                assert(first_index(keys_of(p), k) == first_index(ks, k));
                lemma_first_index(ks, k);
                if let Some(j) = first_index(ks, k) {
                    assert(p[j] == vals[j]);
                }
            }
            assert(keys_of(p)[ks.len() as int] == id);
            assert forall|k: Seq<char>| ks.contains(k) implies #[trigger] keys_of(p).contains(k) by {
                let j = choose|j: int| 0 <= j < ks.len() && ks[j] == k;
                assert(keys_of(p)[j] == k);
            }
            if ks.no_duplicates() {
                assert forall|a: int, b: int|
                    0 <= a < keys_of(p).len() && 0 <= b < keys_of(p).len() && a != b
                    implies keys_of(p)[a] != keys_of(p)[b] by {
                    if a < ks.len() {
                        assert(keys_of(p)[a] == ks[a]);
                    } else {
                        assert(keys_of(p)[a] == id);
                    }
                    if b < ks.len() {
                        assert(keys_of(p)[b] == ks[b]);
                    } else {
                        assert(keys_of(p)[b] == id);
                    }
                }
            }
        },
    }
}

/// Widget values by id, kept apart from the widgets while they are edited.
pub struct WidgetStateManager {
    widget_values: Vec<(String, WidgetValue)>,
    changed_widgets: Vec<String>,
}

impl View for WidgetStateManager {
    type V = StateView;

    closed spec fn view(&self) -> StateView {
        StateView {
            values: self.widget_values@.map_values(|e: (String, WidgetValue)| (e.0@, e.1@)),
            changed: views(self.changed_widgets@),
        }
    }
}

impl WidgetStateManager {
    /// The manager's invariant.
    pub open spec fn wf(&self) -> bool {
        state_wf(self@)
    }

    /// An empty manager.
    pub fn new() -> (r: WidgetStateManager)
        ensures
            r.wf(),
            r@.values == Seq::<(Seq<char>, WVal)>::empty(),
            r@.changed == Seq::<Seq<char>>::empty(),
    {
        let r = WidgetStateManager { widget_values: Vec::new(), changed_widgets: Vec::new() };
        assert(r@.values =~= Seq::<(Seq<char>, WVal)>::empty());
        assert(r@.changed =~= Seq::<Seq<char>>::empty());
        r
    }

    /// Where the id is held.
    fn position(&self, id: &str) -> (r: Option<usize>)
        ensures
            r matches Some(i) ==> first_index(keys_of(self@.values), id@) == Some(i as int)
                && i < self.widget_values@.len(),
            r is None ==> first_index(keys_of(self@.values), id@) is None,
            self@.values.len() == self.widget_values@.len(),
            forall|j: int| 0 <= j < self.widget_values@.len() ==> #[trigger] self@.values[j] == (
                self.widget_values@[j].0@,
                self.widget_values@[j].1@,
            ),
    {
        let ghost ks = keys_of(self@.values);
        proof {
            lemma_first_index(ks, id@);
        }
        let mut i: usize = 0;
        while i < self.widget_values.len()
            invariant
                i <= self.widget_values@.len(),
                ks == keys_of(self@.values),
                ks.len() == self.widget_values@.len(),
                forall|j: int| 0 <= j < i ==> ks[j] != id@,
                first_index(ks, id@) matches Some(k) ==> ks[k] == id@ && 0 <= k < ks.len()
                    && forall|j: int| 0 <= j < k ==> ks[j] != id@,
                first_index(ks, id@) is None ==> forall|j: int| 0 <= j < ks.len() ==> ks[j] != id@,
            decreases self.widget_values.len() - i,
        {
            assert(ks[i as int] == self.widget_values@[i as int].0@);
            if str_eq(self.widget_values[i].0.as_str(), id) {
                return Some(i);
            }
            i = i + 1;
        }
        None
    }

    /// The current value for a widget.
    pub fn get_value(&self, widget_id: &str) -> (r: Option<&WidgetValue>)
        ensures
            match r {
                Some(x) => value_for(self@.values, widget_id@) == Some(x@),
                None => value_for(self@.values, widget_id@) is None,
            },
    {
        match self.position(widget_id) {
            Some(i) => Some(&self.widget_values[i].1),
            None => None,
        }
    }

    /// Hold `value` for `id`, in place where the id is held.
    fn put_value(&mut self, widget_id: String, value: WidgetValue)
        requires
            keys_of(old(self)@.values).no_duplicates(),
        ensures
            final(self)@.values == put(old(self)@.values, widget_id@, value@),
            final(self)@.changed == old(self)@.changed,
    {
        let pos = self.position(widget_id.as_str());
        let ghost old_vals = self@.values;
        match pos {
            Some(i) => {
                self.widget_values.set(i, (widget_id, value));
            },
            None => {
                self.widget_values.push((widget_id, value));
            },
        }
        assert(self@.values =~= put(old_vals, widget_id@, value@));
    }

    /// Update a widget's value and list it as changed; returns whether
    /// the value differs from the one held.
    pub fn update_value(&mut self, widget_id: String, value: WidgetValue) -> (r: bool)
        requires
            old(self).wf(),
        ensures
            final(self).wf(),
            r == changes(old(self)@, widget_id@, value@),
            final(self)@ == updated(old(self)@, widget_id@, value@),
    {
        let changed = match self.position(widget_id.as_str()) {
            Some(i) => !self.widget_values[i].1.same_as(&value),
            None => true,
        };
        if changed {
            let ghost s = self@;
            proof {
                lemma_put(s.values, widget_id@, value@);
            }
            let listed = self.is_listed(widget_id.as_str());
            self.put_value(widget_id.clone(), value);
            if !listed {
                self.changed_widgets.push(widget_id);
                assert(self@.changed =~= s.changed.push(widget_id@));
                assert forall|a: int, b: int|
                    0 <= a < self@.changed.len() && 0 <= b < self@.changed.len() && a != b
                    implies self@.changed[a] != self@.changed[b] by {
                    if a < s.changed.len() && b < s.changed.len() {
                    } else if a < s.changed.len() {
                        assert(s.changed.contains(s.changed[a]));
                    } else {
                        assert(s.changed.contains(s.changed[b]));
                    }
                }
            }
            assert forall|i: int| 0 <= i < self@.changed.len() implies keys_of(self@.values).contains(
                #[trigger] self@.changed[i],
            ) by {
                if i < s.changed.len() {
                    assert(keys_of(s.values).contains(s.changed[i]));
                }
            }
        }
        changed
    }

    /// Whether the id is listed as changed.
    fn is_listed(&self, widget_id: &str) -> (r: bool)
        ensures
            r == self@.changed.contains(widget_id@),
    {
        let mut i: usize = 0;
        while i < self.changed_widgets.len()
            invariant
                i <= self.changed_widgets@.len(),
                self@.changed.len() == self.changed_widgets@.len(),
                forall|j: int| 0 <= j < i ==> self@.changed[j] != widget_id@,
            decreases self.changed_widgets.len() - i,
        {
            assert(self@.changed[i as int] == self.changed_widgets@[i as int]@);
            if str_eq(self.changed_widgets[i].as_str(), widget_id) {
                assert(self@.changed[i as int] == widget_id@);
                return true;
            }
            i = i + 1;
        }
        false
    }

    /// Hold the given values in place of all others, with no change listed.
    pub fn initialize_from_values(&mut self, values: &Vec<(String, WidgetValue)>)
        ensures
            final(self).wf(),
            final(self)@.values == put_all(
                Seq::empty(),
                values@.map_values(|e: (String, WidgetValue)| (e.0@, e.1@)),
            ),
            final(self)@.changed == Seq::<Seq<char>>::empty(),
    {
        let ghost items = values@.map_values(|e: (String, WidgetValue)| (e.0@, e.1@));
        self.changed_widgets = Vec::new();
        self.widget_values = Vec::new();
        assert(self@.values =~= put_all(Seq::empty(), items.take(0)));
        assert(self@.changed =~= Seq::<Seq<char>>::empty());
        let mut i: usize = 0;
        while i < values.len()
            invariant
                i <= values@.len(),
                items == values@.map_values(|e: (String, WidgetValue)| (e.0@, e.1@)),
                self@.values == put_all(Seq::empty(), items.take(i as int)),
                self@.changed == Seq::<Seq<char>>::empty(),
                keys_of(self@.values).no_duplicates(),
            decreases values.len() - i,
        {
            assert(items.take(i + 1).drop_last() =~= items.take(i as int));
            assert(items.take(i + 1).last() == items[i as int]);
            proof {
                lemma_put(self@.values, items[i as int].0, items[i as int].1);
            }
            self.put_value(values[i].0.clone(), values[i].1.copy());
            i = i + 1;
        }
        assert(items.take(values.len() as int) =~= items);
    }

    /// The changed ids with their values, in the order they first changed;
    /// afterwards no change is listed.
    pub fn take_changes(&mut self) -> (r: Vec<(String, WidgetValue)>)
        requires
            old(self).wf(),
        ensures
            final(self).wf(),
            final(self)@.values == old(self)@.values,
            final(self)@.changed == Seq::<Seq<char>>::empty(),
            r@.map_values(|e: (String, WidgetValue)| (e.0@, e.1@)) == changed_entries(old(self)@),
    {
        let ghost s = self@;
        let mut out: Vec<(String, WidgetValue)> = Vec::new();
        let mut i: usize = 0;
        while i < self.changed_widgets.len()
            invariant
                self@ == s,
                state_wf(s),
                i <= s.changed.len(),
                s.changed.len() == self.changed_widgets@.len(),
                out@.map_values(|e: (String, WidgetValue)| (e.0@, e.1@)) == changed_entries(s).take(
                    i as int,
                ),
            decreases self.changed_widgets.len() - i,
        {
            let id = &self.changed_widgets[i];
            assert(s.changed[i as int] == id@);
            assert(keys_of(s.values).contains(s.changed[i as int]));
            proof {
                lemma_first_index(keys_of(s.values), id@);
            }
            match self.position(id.as_str()) {
                Some(p) => {
                    let ghost before = out@.map_values(|e: (String, WidgetValue)| (e.0@, e.1@));
                    out.push((id.clone(), self.widget_values[p].1.copy()));
                    assert(out@.map_values(|e: (String, WidgetValue)| (e.0@, e.1@)) =~= before.push(
                        changed_entries(s)[i as int],
                    ));
                    assert(changed_entries(s).take(i + 1) =~= changed_entries(s).take(i as int).push(
                        changed_entries(s)[i as int],
                    ));
                },
                None => {
                    proof {
                        let k = choose|k: int| 0 <= k < keys_of(s.values).len() && keys_of(s.values)[k]
                            == s.changed[i as int];
                        assert(keys_of(s.values)[k] != id@);
                    }
                    assert(false);
                    return out;
                },
            }
            i = i + 1;
        }
        assert(changed_entries(s).take(s.changed.len() as int) =~= changed_entries(s));
        self.changed_widgets = Vec::new();
        assert(self@.changed =~= Seq::<Seq<char>>::empty());
        out
    }

    /// The ids of all held values, in the order they were first held.
    pub fn widget_ids(&self) -> (r: Vec<String>)
        ensures
            views(r@) == keys_of(self@.values),
    {
        let mut out: Vec<String> = Vec::new();
        let mut i: usize = 0;
        while i < self.widget_values.len()
            invariant
                i <= self.widget_values@.len(),
                keys_of(self@.values).len() == self.widget_values@.len(),
                views(out@) == keys_of(self@.values).take(i as int),
            decreases self.widget_values.len() - i,
        {
            let ghost before = out@;
            out.push(self.widget_values[i].0.clone());
            assert(out@ == before.push(self.widget_values@[i as int].0));
            assert(self@.values[i as int].0 == self.widget_values@[i as int].0@);
            assert(keys_of(self@.values)[i as int] == self.widget_values@[i as int].0@);
            assert(views(out@) =~= views(before).push(self.widget_values@[i as int].0@));
            assert(keys_of(self@.values).take(i + 1) =~= keys_of(self@.values).take(i as int).push(
                keys_of(self@.values)[i as int],
            ));
            i = i + 1;
        }
        assert(keys_of(self@.values).take(i as int) =~= keys_of(self@.values));
        out
    }

    /// Whether any value changed since the changes were last taken or cleared.
    pub fn has_changes(&self) -> (r: bool)
        ensures
            r == (self@.changed.len() > 0),
    {
        proof {
            assert(self@.changed.len() == self.changed_widgets@.len());
        }
        self.changed_widgets.len() > 0
    }

    /// Forget which values changed, keeping the values.
    pub fn clear_changes(&mut self)
        requires
            old(self).wf(),
        ensures
            final(self).wf(),
            final(self)@.values == old(self)@.values,
            final(self)@.changed == Seq::<Seq<char>>::empty(),
    {
        self.changed_widgets = Vec::new();
        assert(self@.changed =~= Seq::<Seq<char>>::empty());
    }
}

/// After an update the widget's value is the one given, whatever was held.
pub proof fn law_update_then_get(s: StateView, id: Seq<char>, v: WVal)
    requires
        state_wf(s),
    ensures
        value_for(updated(s, id, v).values, id) == Some(v),
{
    lemma_put(s.values, id, v);
}

/// Updating a widget to the value it already holds changes nothing.
pub proof fn law_repeated_update_is_unchanged(s: StateView, id: Seq<char>, v: WVal)
    requires
        state_wf(s),
    ensures
        !changes(updated(s, id, v), id, v),
        updated(updated(s, id, v), id, v) == updated(s, id, v),
{
    lemma_put(s.values, id, v);
}

/// An update leaves the values of the other widgets as they were.
pub proof fn law_update_keeps_others(s: StateView, id: Seq<char>, v: WVal, other: Seq<char>)
    requires
        state_wf(s),
        other != id,
    ensures
        value_for(updated(s, id, v).values, other) == value_for(s.values, other),
{
    lemma_put(s.values, id, v);
}

} // verus!

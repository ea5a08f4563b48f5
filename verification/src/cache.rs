use vstd::prelude::*;
use crate::key::CheckBoxId;

verus! {

struct Slot<W> {
    key: CheckBoxId,
    widget: W,
    visited: bool,
}

/// The widgets of a list, each under the key of its row.
///
/// A cache holds at most one widget per key. During a draw pass every key that
/// is resolved gets marked; `retain_visited` ends the pass by dropping what was
/// not marked. The order in which the slots stand is not part of the model:
/// `keys` names it, and nothing is promised about it beyond `wf`.
pub struct WidgetCache<W> {
    slots: Vec<Slot<W>>,
}

impl<W> View for WidgetCache<W> {
    type V = Map<CheckBoxId, W>;

    closed spec fn view(&self) -> Map<CheckBoxId, W> {
        Map::new(
            |k: CheckBoxId| self.has_slot(k),
            |k: CheckBoxId| self.slots@[self.slot_of(k)].widget,
        )
    }
}

impl<W> Default for WidgetCache<W> {
    fn default() -> (cache: WidgetCache<W>)
        ensures
            cache.wf(),
            cache@ == Map::<CheckBoxId, W>::empty(),
            cache.visited() == Set::<CheckBoxId>::empty(),
            cache.keys() == Seq::<CheckBoxId>::empty(),
    {
        WidgetCache::new()
    }
}

/// The widget behind a borrowed result, if there is one.
pub open spec fn owned<W>(widget: Option<&W>) -> Option<W> {
    match widget {
        Some(w) => Some(*w),
        None => None,
    }
}

impl<W> WidgetCache<W> {
    spec fn has_slot(&self, key: CheckBoxId) -> bool {
        exists|i: int| 0 <= i < self.slots@.len() && self.slots@[i].key == key
    }

    spec fn slot_of(&self, key: CheckBoxId) -> int {
        choose|i: int| 0 <= i < self.slots@.len() && self.slots@[i].key == key
    }

    spec fn distinct(&self) -> bool {
        forall|i: int, j: int|
            0 <= i < self.slots@.len() && 0 <= j < self.slots@.len() && self.slots@[i].key
                == self.slots@[j].key ==> i == j
    }

    /// The keys in the order of their slots.
    pub closed spec fn keys(&self) -> Seq<CheckBoxId> {
        Seq::new(self.slots@.len(), |i: int| self.slots@[i].key)
    }

    /// The keys that were marked since the last `retain_visited`.
    pub closed spec fn visited(&self) -> Set<CheckBoxId> {
        Set::new(
            |k: CheckBoxId|
                exists|i: int|
                    0 <= i < self.slots@.len() && self.slots@[i].key == k
                        && self.slots@[i].visited,
        )
    }

    /// No key stands in two slots, the slots hold just the keys of the
    /// mapping, and only keys of the mapping are marked.
    pub open spec fn wf(&self) -> bool {
        &&& self.keys().no_duplicates()
        &&& forall|k: CheckBoxId| self.keys().contains(k) <==> self@.contains_key(k)
        &&& forall|k: CheckBoxId| self.visited().contains(k) ==> self@.contains_key(k)
    }

    proof fn lemma_slot(&self, i: int)
        requires
            self.distinct(),
            0 <= i < self.slots@.len(),
        ensures
            self.has_slot(self.slots@[i].key),
            self.slot_of(self.slots@[i].key) == i,
            self@.contains_key(self.slots@[i].key),
            self@[self.slots@[i].key] == self.slots@[i].widget,
            self.keys()[i] == self.slots@[i].key,
            self.visited().contains(self.slots@[i].key) == self.slots@[i].visited,
    {
    }

    proof fn lemma_wf(&self)
        requires
            self.distinct(),
        ensures
            self.wf(),
    {
        assert forall|k: CheckBoxId| self.keys().contains(k) implies self@.contains_key(k) by {
            let i = choose|i: int| 0 <= i < self.keys().len() && self.keys()[i] == k;
            self.lemma_slot(i);
        }
        assert forall|k: CheckBoxId| self@.contains_key(k) implies self.keys().contains(k) by {
            let i = self.slot_of(k);
            assert(self.keys()[i] == k);
        }
    }

    proof fn lemma_distinct(&self)
        requires
            self.wf(),
        ensures
            self.distinct(),
    {
        assert forall|i: int, j: int|
            0 <= i < self.slots@.len() && 0 <= j < self.slots@.len() && self.slots@[i].key
                == self.slots@[j].key implies i == j by {
            assert(self.keys()[i] == self.keys()[j]);
        }
    }

    /// A cache that holds nothing.
    pub fn new() -> (cache: WidgetCache<W>)
        ensures
            cache.wf(),
            cache@ == Map::<CheckBoxId, W>::empty(),
            cache.visited() == Set::<CheckBoxId>::empty(),
            cache.keys() == Seq::<CheckBoxId>::empty(),
    {
        let cache = WidgetCache { slots: Vec::new() };
        proof {
            cache.lemma_wf();
            assert(cache@ =~= Map::<CheckBoxId, W>::empty());
            assert(cache.visited() =~= Set::<CheckBoxId>::empty());
            assert(cache.keys() =~= Seq::<CheckBoxId>::empty());
        }
        cache
    }

    /// The number of widgets held.
    pub fn len(&self) -> (n: usize)
        requires
            self.wf(),
        ensures
            n == self.keys().len(),
            n == self@.len(),
            self@.dom().finite(),
    {
        proof {
            self.keys().unique_seq_to_set();
            assert(self@.dom() =~= self.keys().to_set());
        }
        self.slots.len()
    }

    fn find(&self, key: CheckBoxId) -> (found: Option<usize>)
        ensures
            found is Some ==> found.unwrap() < self.slots@.len() && self.slots@[found.unwrap() as int].key
                == key,
            found is None ==> !self.has_slot(key),
    {
        let hint = key.0;
        if hint < self.slots.len() as u64 {
            let probe = hint as usize;
            if self.slots[probe].key == key {
                return Some(probe);
            }
        }
        let mut i: usize = 0;
        while i < self.slots.len()
            invariant
                i <= self.slots@.len(),
                forall|j: int| 0 <= j < i ==> self.slots@[j].key != key,
            decreases self.slots@.len() - i,
        {
            if self.slots[i].key == key {
                return Some(i);
            }
            i += 1;
        }
        None
    }

    /// Whether a widget is held under `key`.
    pub fn contains(&self, key: CheckBoxId) -> (held: bool)
        requires
            self.wf(),
        ensures
            held == self@.contains_key(key),
    {
        self.find(key).is_some()
    }

    /// The widget held under `key`, if there is one.
    pub fn get(&self, key: CheckBoxId) -> (widget: Option<&W>)
        requires
            self.wf(),
        ensures
            widget is Some <==> self@.contains_key(key),
            widget is Some ==> *widget.unwrap() == self@[key],
    {
        match self.find(key) {
            Some(i) => {
                proof {
                    self.lemma_distinct();
                    self.lemma_slot(i as int);
                }
                Some(&self.slots[i].widget)
            },
            None => None,
        }
    }

    /// Whether `key` was marked since the last `retain_visited`.
    pub fn is_visited(&self, key: CheckBoxId) -> (marked: bool)
        requires
            self.wf(),
        ensures
            marked == self.visited().contains(key),
    {
        match self.find(key) {
            Some(i) => {
                proof {
                    self.lemma_distinct();
                    self.lemma_slot(i as int);
                }
                self.slots[i].visited
            },
            None => false,
        }
    }

    /// The key in slot `index`.
    pub fn key_at(&self, index: usize) -> (key: CheckBoxId)
        requires
            self.wf(),
            index < self.keys().len(),
        ensures
            key == self.keys()[index as int],
    {
        self.slots[index].key
    }

    /// The widget in slot `index`.
    pub fn widget_at(&self, index: usize) -> (widget: &W)
        requires
            self.wf(),
            index < self.keys().len(),
        ensures
            self@.contains_key(self.keys()[index as int]),
            *widget == self@[self.keys()[index as int]],
    {
        proof {
            self.lemma_distinct();
            self.lemma_slot(index as int);
        }
        &self.slots[index].widget
    }

    /// Resolves `key`: the widget held under it, or else a new one from
    /// `factory`, which is then held under `key`.
    ///
    /// The factory is called only where nothing is held under `key`. It takes
    /// the context and gives it back with the new widget; where it gives no
    /// widget, nothing is held under `key` afterwards either.
    pub fn get_or_create<C, F>(&mut self, cx: C, key: CheckBoxId, factory: &F) -> (out: (
        C,
        Option<&W>,
    )) where F: Fn(C) -> (C, Option<W>)
        requires
            old(self).wf(),
            !old(self)@.contains_key(key) ==> factory.requires((cx,)),
        ensures
            final(self).wf(),
            final(self).visited() == old(self).visited(),
            old(self)@.contains_key(key) ==> out.0 == cx && out.1 == Some(&old(self)@[key])
                && final(self)@ == old(self)@ && final(self).keys() == old(self).keys(),
            !old(self)@.contains_key(key) ==> factory.ensures((cx,), (out.0, owned(out.1))),
            !old(self)@.contains_key(key) && out.1 is Some ==> final(self)@ == old(self)@.insert(
                key,
                *out.1.unwrap(),
            ) && final(self).keys() == old(self).keys().push(key),
            !old(self)@.contains_key(key) && out.1 is None ==> final(self)@ == old(self)@
                && final(self).keys() == old(self).keys(),
    {
        proof {
            self.lemma_distinct();
        }
        match self.find(key) {
            Some(i) => {
                proof {
                    self.lemma_slot(i as int);
                }
                (cx, Some(&self.slots[i].widget))
            },
            None => {
                let (cx, made) = factory(cx);
                match made {
                    Some(widget) => {
                        let ghost before = *self;
                        self.slots.push(Slot { key, widget, visited: false });
                        let last = self.slots.len() - 1;
                        proof {
                            assert(self.distinct());
                            self.lemma_wf();
                            self.lemma_slot(last as int);
                            assert forall|k: CheckBoxId| before.has_slot(k) implies self.has_slot(k)
                                && self.slots@[self.slot_of(k)].widget == before.slots@[before.slot_of(
                                k,
                            )].widget by {
                                let i = before.slot_of(k);
                                before.lemma_slot(i);
                                self.lemma_slot(i);
                            }
                            assert forall|k: CheckBoxId| self.has_slot(k) implies k == key
                                || before.has_slot(k) by {
                                let i = self.slot_of(k);
                                if i < last {
                                    before.lemma_slot(i);
                                }
                            }
                            assert(self@ =~= before@.insert(key, widget));
                            assert(self.keys() =~= before.keys().push(key));
                            assert forall|k: CheckBoxId| self.visited().contains(k)
                                == before.visited().contains(k) by {
                                if self.visited().contains(k) {
                                    let i = choose|i: int|
                                        0 <= i < self.slots@.len() && self.slots@[i].key == k
                                            && self.slots@[i].visited;
                                    before.lemma_slot(i);
                                }
                                if before.visited().contains(k) {
                                    let i = choose|i: int|
                                        0 <= i < before.slots@.len() && before.slots@[i].key == k
                                            && before.slots@[i].visited;
                                    self.lemma_slot(i);
                                }
                            }
                            assert(self.visited() =~= before.visited());
                        }
                        (cx, Some(&self.slots[last].widget))
                    },
                    None => (cx, None),
                }
            },
        }
    }

    /// Records that `key` was resolved in the pass that is under way.
    ///
    /// A key is resolved once in a pass: to mark one that is marked already
    /// is a fault of the caller. Where nothing is held under `key` there is
    /// nothing to record.
    pub fn mark_visited(&mut self, key: CheckBoxId)
        requires
            old(self).wf(),
            !old(self).visited().contains(key),
        ensures
            final(self).wf(),
            final(self)@ == old(self)@,
            final(self).keys() == old(self).keys(),
            old(self)@.contains_key(key) ==> final(self).visited() == old(self).visited().insert(
                key,
            ),
            !old(self)@.contains_key(key) ==> final(self).visited() == old(self).visited(),
    {
        proof {
            self.lemma_distinct();
        }
        let ghost before = *self;
        match self.find(key) {
            Some(i) => {
                proof {
                    self.lemma_slot(i as int);
                }
                self.slots[i].visited = true;
                proof {
                    assert(self.keys() =~= before.keys());
                    assert(self.distinct());
                    self.lemma_wf();
                    assert forall|k: CheckBoxId| before.has_slot(k) implies self.has_slot(k)
                        && self.slots@[self.slot_of(k)].widget == before.slots@[before.slot_of(
                        k,
                    )].widget by {
                        let j = before.slot_of(k);
                        before.lemma_slot(j);
                        self.lemma_slot(j);
                    }
                    assert forall|k: CheckBoxId| self.has_slot(k) implies before.has_slot(k) by {
                        let j = self.slot_of(k);
                        before.lemma_slot(j);
                    }
                    assert(self@ =~= before@);
                    assert forall|k: CheckBoxId| self.visited().contains(k) == (k == key
                        || before.visited().contains(k)) by {
                        if self.visited().contains(k) {
                            let j = choose|j: int|
                                0 <= j < self.slots@.len() && self.slots@[j].key == k
                                    && self.slots@[j].visited;
                            before.lemma_slot(j);
                        }
                        if before.visited().contains(k) {
                            let j = choose|j: int|
                                0 <= j < before.slots@.len() && before.slots@[j].key == k
                                    && before.slots@[j].visited;
                            self.lemma_slot(j);
                        }
                        if k == key {
                            self.lemma_slot(i as int);
                        }
                    }
                    assert(self.visited() =~= before.visited().insert(key));
                }
            },
            None => {},
        }
    }

    /// Ends a pass: drops every widget whose key was not marked, and clears
    /// the marks of those that stay.
    pub fn retain_visited(&mut self)
        requires
            old(self).wf(),
        ensures
            final(self).wf(),
            final(self)@ == old(self)@.restrict(old(self).visited()),
            final(self).visited() == Set::<CheckBoxId>::empty(),
    {
        proof {
            self.lemma_distinct();
        }
        let ghost before = *self;
        let mut i: usize = 0;
        while i < self.slots.len()
            invariant
                i <= self.slots@.len(),
                before.distinct(),
                self.distinct(),
                forall|j: int|
                    0 <= j < self.slots@.len() ==> before.has_slot(#[trigger] self.slots@[j].key)
                        && before@[self.slots@[j].key] == self.slots@[j].widget,
                forall|j: int|
                    0 <= j < i ==> !(#[trigger] self.slots@[j]).visited && before.visited().contains(
                        self.slots@[j].key,
                    ),
                forall|j: int|
                    i <= j < self.slots@.len() ==> (#[trigger] self.slots@[j]).visited
                        == before.visited().contains(self.slots@[j].key),
                forall|k: CheckBoxId|
                    before.visited().contains(k) ==> #[trigger] self.has_slot(k),
            decreases self.slots@.len() - i,
        {
            let ghost current = *self;
            if self.slots[i].visited {
                self.slots[i].visited = false;
                proof {
                    assert forall|k: CheckBoxId| before.visited().contains(k) implies self.has_slot(
                        k,
                    ) by {
                        let j = current.slot_of(k);
                        assert(current.has_slot(k));
                        assert(self.slots@[j].key == k);
                    }
                }
                i += 1;
            } else {
                let _ = self.slots.swap_remove(i);
                proof {
                    assert forall|k: CheckBoxId| before.visited().contains(k) implies self.has_slot(
                        k,
                    ) by {
                        assert(current.has_slot(k));
                        let j = current.slot_of(k);
                        assert(j != i);
                        if j == current.slots@.len() - 1 {
                            assert(self.slots@[i as int].key == k);
                        } else {
                            assert(self.slots@[j].key == k);
                        }
                    }
                }
            }
        }
        proof {
            self.lemma_wf();
            assert forall|k: CheckBoxId| self.has_slot(k) implies before@.contains_key(k)
                && before.visited().contains(k) && self@[k] == before@[k] by {
                let j = self.slot_of(k);
                self.lemma_slot(j);
            }
            assert(self@ =~= before@.restrict(before.visited()));
            assert(self.visited() =~= Set::<CheckBoxId>::empty());
        }
    }
}

} // verus!

//! The functions by the place they start at, in the order of places.
use crate::mapping::FunctionId;
use crate::source::{SourceRef, Standing};
use vstd::prelude::*;

verus! {

/// One row of the table: a place and the function that starts there.
#[derive(Debug)]
pub struct Row {
    pub place: SourceRef,
    pub func: FunctionId,
}

/// Functions by place. The rows are in the order of places, and no place occurs twice.
#[derive(Debug)]
pub struct SourceTable {
    rows: Vec<Row>,
}

impl View for SourceTable {
    type V = Map<crate::source::Place, FunctionId>;

    closed spec fn view(&self) -> Map<crate::source::Place, FunctionId> {
        Map::new(
            |k: crate::source::Place| exists|i: int| self.row_is(i, k),
            |k: crate::source::Place| self.rows@[choose|i: int| self.row_is(i, k)].func,
        )
    }
}

impl SourceTable {
    spec fn row_is(&self, i: int, k: crate::source::Place) -> bool {
        0 <= i < self.rows@.len() && self.rows@[i].place@ == k
    }

    /// The places of the rows, from the first to the last.
    pub closed spec fn places(&self) -> Seq<crate::source::Place> {
        Seq::new(self.rows@.len(), |i: int| self.rows@[i].place@)
    }

    /// The rows are in the order of places.
    pub open spec fn wf(&self) -> bool {
        forall|i: int, j: int|
            0 <= i < j < self.places().len() ==> crate::source::place_less(
                #[trigger] self.places()[i],
                #[trigger] self.places()[j],
            )
    }

    proof fn lemma_row(&self, i: int)
        requires
            self.wf(),
            0 <= i < self.rows@.len(),
        ensures
            self@.contains_key(self.rows@[i].place@),
            self@[self.rows@[i].place@] == self.rows@[i].func,
    {
        let k = self.rows@[i].place@;
        assert(self.row_is(i, k));
        let j = choose|j: int| self.row_is(j, k);
        assert(self.places()[i] == self.places()[j]);
        crate::source::law_place_order_irreflexive(k);
        assert(i == j);
    }

    /// The keys of the table are the places of its rows.
    pub proof fn lemma_keys(&self)
        ensures
            forall|k: crate::source::Place|
                self@.contains_key(k) <==> #[trigger] self.places().contains(k),
    {
        assert forall|k: crate::source::Place|
            self@.contains_key(k) == #[trigger] self.places().contains(k) by {
            if self@.contains_key(k) {
                let i = choose|i: int| self.row_is(i, k);
                assert(self.places()[i] == k);
            }
            if self.places().contains(k) {
                let i = choose|i: int| 0 <= i < self.places().len() && self.places()[i] == k;
                assert(self.row_is(i, k));
            }
        }
    }

    /// An empty table.
    pub fn new() -> (r: Self)
        ensures
            r.wf(),
            r@ == Map::<crate::source::Place, FunctionId>::empty(),
    {
        let r = SourceTable { rows: Vec::new() };
        assert(r@ =~= Map::<crate::source::Place, FunctionId>::empty());
        r
    }

    /// The number of rows.
    pub fn len(&self) -> (r: usize)
        ensures
            r == self.places().len(),
    {
        self.rows.len()
    }

    /// The row at `i`.
    pub fn row(&self, i: usize) -> (r: &Row)
        requires
            self.wf(),
            i < self.places().len(),
        ensures
            r.place@ == self.places()[i as int],
            self@.contains_key(r.place@),
            r.func == self@[r.place@],
    {
        proof {
            self.lemma_row(i as int);
        }
        &self.rows[i]
    }

    /// The first row whose place does not come before `key`.
    pub fn first_from(&self, key: &SourceRef) -> (r: usize)
        requires
            self.wf(),
        ensures
            r <= self.places().len(),
            forall|i: int| 0 <= i < r ==> crate::source::place_less(#[trigger] self.places()[i], key@),
            forall|i: int|
                r <= i < self.places().len() ==> !crate::source::place_less(
                    #[trigger] self.places()[i],
                    key@,
                ),
    {
        let mut lo: usize = 0;
        let mut hi: usize = self.rows.len();
        while lo < hi
            invariant
                self.wf(),
                lo <= hi <= self.rows@.len(),
                forall|i: int|
                    0 <= i < lo ==> crate::source::place_less(#[trigger] self.places()[i], key@),
                forall|i: int|
                    hi <= i < self.places().len() ==> !crate::source::place_less(
                        #[trigger] self.places()[i],
                        key@,
                    ),
            decreases hi - lo,
        {
            let mid: usize = lo + (hi - lo) / 2;
            let standing = self.rows[mid].place.compare(key);
            assert(self.places()[mid as int] == self.rows@[mid as int].place@);
            match standing {
                Standing::Before => {
                    assert forall|i: int| 0 <= i < mid + 1 implies crate::source::place_less(
                        #[trigger] self.places()[i],
                        key@,
                    ) by {
                        if i < mid {
                            crate::source::law_place_order_transitive(
                                self.places()[i],
                                self.places()[mid as int],
                                key@,
                            );
                        }
                    }
                    lo = mid + 1;
                },
                _ => {
                    assert forall|i: int|
                        mid <= i < self.places().len() implies !crate::source::place_less(
                        #[trigger] self.places()[i],
                        key@,
                    ) by {
                        if mid < i && crate::source::place_less(self.places()[i], key@) {
                            crate::source::law_place_order_transitive(
                                self.places()[mid as int],
                                self.places()[i],
                                key@,
                            );
                        }
                    }
                    hi = mid;
                },
            }
        }
        lo
    }

    proof fn lemma_absent(&self, at: int, key: crate::source::Place)
        requires
            self.wf(),
            0 <= at <= self.places().len(),
            forall|i: int| 0 <= i < at ==> crate::source::place_less(#[trigger] self.places()[i], key),
            at < self.places().len() ==> crate::source::place_less(key, self.places()[at]),
        ensures
            !self@.contains_key(key),
            forall|i: int|
                at <= i < self.places().len() ==> crate::source::place_less(
                    key,
                    #[trigger] self.places()[i],
                ),
    {
        assert forall|i: int| at <= i < self.places().len() implies crate::source::place_less(
            key,
            #[trigger] self.places()[i],
        ) by {
            if at < i {
                crate::source::law_place_order_transitive(key, self.places()[at], self.places()[i]);
            }
        }
        if self@.contains_key(key) {
            let i = choose|i: int| self.row_is(i, key);
            assert(self.places()[i] == key);
            crate::source::law_place_order_irreflexive(key);
        }
    }

    /// Sets the function at `key`, and returns the one that was there.
    pub fn insert(&mut self, key: SourceRef, func: FunctionId) -> (r: Option<FunctionId>)
        requires
            old(self).wf(),
        ensures
            final(self).wf(),
            final(self)@ == old(self)@.insert(key@, func),
            match r {
                Some(f) => old(self)@.contains_key(key@) && f == old(self)@[key@],
                None => !old(self)@.contains_key(key@),
            },
    {
        let at: usize = self.first_from(&key);
        let ghost before = *self;
        let present: bool = if at < self.rows.len() {
            let standing = self.rows[at].place.compare(&key);
            assert(self.places()[at as int] == self.rows@[at as int].place@);
            match standing {
                Standing::Same => true,
                _ => false,
            }
        } else {
            false
        };
        if present {
            proof {
                self.lemma_row(at as int);
            }
            let gone = self.rows.remove(at);
            let ghost place = key@;
            self.rows.insert(at, Row { place: key, func });
            proof {
                assert(self.places() =~= before.places());
                before.lemma_keys();
                self.lemma_keys();
                assert forall|k: crate::source::Place|
                    self@.contains_key(k) == before@.insert(place, func).contains_key(k) by {
                    assert(self.places().contains(k) == before.places().contains(k));
                }
                assert forall|k: crate::source::Place| self@.contains_key(k) implies self@[k]
                    == before@.insert(place, func)[k] by {
                    let i = choose|i: int| self.row_is(i, k);
                    self.lemma_row(i);
                    assert(before.rows@[i].place@ == k) by {
                        assert(self.places()[i] == before.places()[i]);
                    }
                    before.lemma_row(i);
                    if k == place {
                        self.lemma_row(at as int);
                        assert(self.rows@[at as int].place@ == place);
                    } else {
                        assert(i != at);
                        assert(self.rows@[i] == before.rows@[i]);
                    }
                }
                assert(self@ =~= before@.insert(place, func));
            }
            Some(gone.func)
        } else {
            let ghost place = key@;
            proof {
                if at < self.rows@.len() {
                    crate::source::law_place_order_total(place, self.places()[at as int]);
                }
                self.lemma_absent(at as int, place);
            }
            self.rows.insert(at, Row { place: key, func });
            proof {
                assert(self.places() =~= before.places().insert(at as int, place));
                assert(self.wf());
                assert forall|k: crate::source::Place|
                    self@.contains_key(k) == before@.insert(place, func).contains_key(k) by {
                    if self@.contains_key(k) {
                        let i = choose|i: int| self.row_is(i, k);
                        if i < at {
                            assert(before.row_is(i, k));
                        } else if i > at {
                            assert(before.row_is(i - 1, k));
                        }
                    }
                    if before@.contains_key(k) {
                        let i = choose|i: int| before.row_is(i, k);
                        if i < at {
                            assert(self.row_is(i, k));
                        } else {
                            assert(self.row_is(i + 1, k));
                        }
                    }
                    if k == place {
                        assert(self.row_is(at as int, k));
                    }
                }
                assert forall|k: crate::source::Place| self@.contains_key(k) implies self@[k]
                    == before@.insert(place, func)[k] by {
                    let i = choose|i: int| self.row_is(i, k);
                    self.lemma_row(i);
                    if i < at {
                        before.lemma_row(i);
                        assert(before.places()[i] == k);
                    } else if i > at {
                        before.lemma_row(i - 1);
                        assert(before.places()[i - 1] == k);
                    }
                    crate::source::law_place_order_irreflexive(place);
                }
                assert(self@ =~= before@.insert(place, func));
            }
            None
        }
    }

    /// Drops the row at `key`, and returns the function that was there.
    pub fn remove(&mut self, key: &SourceRef) -> (r: Option<FunctionId>)
        requires
            old(self).wf(),
        ensures
            final(self).wf(),
            final(self)@ == old(self)@.remove(key@),
            match r {
                Some(f) => old(self)@.contains_key(key@) && f == old(self)@[key@],
                None => !old(self)@.contains_key(key@),
            },
    {
        let at: usize = self.first_from(key);
        let ghost before = *self;
        let present: bool = if at < self.rows.len() {
            let standing = self.rows[at].place.compare(key);
            assert(self.places()[at as int] == self.rows@[at as int].place@);
            match standing {
                Standing::Same => true,
                _ => false,
            }
        } else {
            false
        };
        if present {
            proof {
                self.lemma_row(at as int);
            }
            let gone = self.rows.remove(at);
            proof {
                assert(self.places() =~= before.places().remove(at as int));
                assert(self.wf());
                assert forall|k: crate::source::Place|
                    self@.contains_key(k) == before@.remove(key@).contains_key(k) by {
                    if self@.contains_key(k) {
                        let i = choose|i: int| self.row_is(i, k);
                        let j = if i < at {
                            i
                        } else {
                            i + 1
                        };
                        assert(before.row_is(j, k));
                        assert(before.places()[j] == k && before.places()[at as int] == key@);
                        crate::source::law_place_order_irreflexive(key@);
                        assert(k != key@);
                    }
                    if before@.remove(key@).contains_key(k) {
                        let i = choose|i: int| before.row_is(i, k);
                        if i < at {
                            assert(self.row_is(i, k));
                        } else {
                            assert(i != at);
                            assert(self.row_is(i - 1, k));
                        }
                    }
                }
                assert forall|k: crate::source::Place| self@.contains_key(k) implies self@[k]
                    == before@.remove(key@)[k] by {
                    let i = choose|i: int| self.row_is(i, k);
                    self.lemma_row(i);
                    let j = if i < at {
                        i
                    } else {
                        i + 1
                    };
                    before.lemma_row(j);
                }
                assert(self@ =~= before@.remove(key@));
            }
            Some(gone.func)
        } else {
            proof {
                if at < self.rows@.len() {
                    crate::source::law_place_order_total(key@, self.places()[at as int]);
                }
                self.lemma_absent(at as int, key@);
                assert(self@ =~= before@.remove(key@));
            }
            None
        }
    }
}

} // verus!

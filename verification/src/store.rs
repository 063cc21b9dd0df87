//! The state store.
//!
//! One table for the whole tree: each cell is kept under the identity of the
//! node that owns it. A cell is made the first time its node is visited and
//! stays, with its value, until a sweep finds its identity unreachable.

use crate::value::AnyValue;
use crate::viewid::{path_set, ViewID};
use vstd::prelude::*;

verus! {

/// One cell of the store: a tagged value under the identity that owns it.
pub struct StateCell {
    id: ViewID,
    value: AnyValue,
}

/// The store: a table from identity to cell, in which no identity occurs
/// twice.
///
/// Its mathematical model is the map from the path of each identity that has
/// a cell to the value of that cell (`store@`).
pub struct StateMap {
    cells: Vec<StateCell>,
}

/// Some cell is kept under the path `p`.
spec fn has_cell(cells: Seq<StateCell>, p: Seq<u64>) -> bool {
    exists|i: int| 0 <= i < cells.len() && #[trigger] cells[i].id@ == p
}

/// The place of a cell that is kept under the path `p`.
spec fn place_of(cells: Seq<StateCell>, p: Seq<u64>) -> int {
    choose|i: int| 0 <= i < cells.len() && #[trigger] cells[i].id@ == p
}

/// No two cells are kept under the same path.
spec fn distinct(cells: Seq<StateCell>) -> bool {
    forall|i: int, j: int|
        0 <= i < j < cells.len() ==> #[trigger] cells[i].id@ != #[trigger] cells[j].id@
}

/// The map that a sequence of cells stands for.
spec fn cells_map(cells: Seq<StateCell>) -> Map<Seq<u64>, AnyValue> {
    Map::new(|p: Seq<u64>| has_cell(cells, p), |p: Seq<u64>| cells[place_of(cells, p)].value)
}

/// In a table without doubles, the map has at the path of each cell the value
/// of that cell.
proof fn lemma_map_at(cells: Seq<StateCell>, i: int)
    requires
        distinct(cells),
        0 <= i < cells.len(),
    ensures
        cells_map(cells).contains_key(cells[i].id@),
        cells_map(cells)[cells[i].id@] == cells[i].value,
{
    let p = cells[i].id@;
    assert(has_cell(cells, p));
    let j = place_of(cells, p);
    assert(0 <= j < cells.len() && cells[j].id@ == p);
    if j < i {
        assert(cells[j].id@ != cells[i].id@);
    } else if i < j {
        assert(cells[i].id@ != cells[j].id@);
    }
}

/// Writing a value into one cell writes it into the map at the path of that
/// cell.
proof fn lemma_map_update(cells: Seq<StateCell>, i: int, value: AnyValue)
    requires
        distinct(cells),
        0 <= i < cells.len(),
    ensures
        distinct(cells.update(i, StateCell { id: cells[i].id, value })),
        cells_map(cells.update(i, StateCell { id: cells[i].id, value })) == cells_map(
            cells,
        ).insert(cells[i].id@, value),
{
    let after = cells.update(i, StateCell { id: cells[i].id, value });
    assert(after.len() == cells.len());
    assert forall|j: int| 0 <= j < cells.len() implies #[trigger] after[j].id@ == cells[j].id@ by {}
    assert(distinct(after)) by {
        assert forall|a: int, b: int| 0 <= a < b < after.len() implies #[trigger] after[a].id@
            != #[trigger] after[b].id@ by {
            assert(cells[a].id@ != cells[b].id@);
        }
    }
    let m0 = cells_map(cells).insert(cells[i].id@, value);
    let m1 = cells_map(after);
    assert forall|p: Seq<u64>| m0.contains_key(p) == m1.contains_key(p) by {
        if has_cell(cells, p) {
            let j = place_of(cells, p);
            assert(after[j].id@ == p);
        }
        if has_cell(after, p) {
            let j = place_of(after, p);
            assert(cells[j].id@ == p);
        }
        if p == cells[i].id@ {
            assert(after[i].id@ == p);
        }
    }
    assert forall|p: Seq<u64>| m0.contains_key(p) implies m0[p] == m1[p] by {
        let j = place_of(after, p);
        assert(has_cell(after, p));
        assert(0 <= j < after.len() && after[j].id@ == p);
        lemma_map_at(after, j);
        if j == i {
        } else {
            lemma_map_at(cells, j);
            assert(cells[j].id@ != cells[i].id@) by {
                if j < i {
                    assert(cells[j].id@ != cells[i].id@);
                } else {
                    assert(cells[i].id@ != cells[j].id@);
                }
            }
        }
    }
    assert(m0 =~= m1);
}

/// Adding a cell under a path that has none adds it to the map.
proof fn lemma_map_push(cells: Seq<StateCell>, cell: StateCell)
    requires
        distinct(cells),
        !cells_map(cells).contains_key(cell.id@),
    ensures
        distinct(cells.push(cell)),
        cells_map(cells.push(cell)) == cells_map(cells).insert(cell.id@, cell.value),
{
    let after = cells.push(cell);
    let n = cells.len() as int;
    assert(distinct(after)) by {
        assert forall|a: int, b: int| 0 <= a < b < after.len() implies #[trigger] after[a].id@
            != #[trigger] after[b].id@ by {
            if b < n {
                assert(cells[a].id@ != cells[b].id@);
            } else {
                if cells[a].id@ == cell.id@ {
                    assert(has_cell(cells, cell.id@));
                }
            }
        }
    }
    let m0 = cells_map(cells).insert(cell.id@, cell.value);
    let m1 = cells_map(after);
    assert forall|p: Seq<u64>| m0.contains_key(p) == m1.contains_key(p) by {
        if has_cell(cells, p) {
            let j = place_of(cells, p);
            assert(after[j].id@ == p);
        }
        if has_cell(after, p) {
            let j = place_of(after, p);
            if j < n {
                assert(cells[j].id@ == p);
            }
        }
        if p == cell.id@ {
            assert(after[n].id@ == p);
        }
    }
    assert forall|p: Seq<u64>| m0.contains_key(p) implies m0[p] == m1[p] by {
        assert(has_cell(after, p));
        let j = place_of(after, p);
        assert(0 <= j < after.len() && after[j].id@ == p);
        lemma_map_at(after, j);
        if j < n {
            lemma_map_at(cells, j);
        }
    }
    assert(m0 =~= m1);
}

/// Taking one cell away takes its path out of the map.
proof fn lemma_map_remove(cells: Seq<StateCell>, i: int)
    requires
        distinct(cells),
        0 <= i < cells.len(),
    ensures
        distinct(cells.remove(i)),
        cells_map(cells.remove(i)) == cells_map(cells).remove(cells[i].id@),
{
    let after = cells.remove(i);
    assert forall|j: int| 0 <= j < after.len() implies #[trigger] after[j] == (if j < i {
        cells[j]
    } else {
        cells[j + 1]
    }) by {}
    assert(distinct(after)) by {
        assert forall|a: int, b: int| 0 <= a < b < after.len() implies #[trigger] after[a].id@
            != #[trigger] after[b].id@ by {
            let a0 = if a < i {
                a
            } else {
                a + 1
            };
            let b0 = if b < i {
                b
            } else {
                b + 1
            };
            assert(cells[a0].id@ != cells[b0].id@);
        }
    }
    let m0 = cells_map(cells).remove(cells[i].id@);
    let m1 = cells_map(after);
    assert forall|p: Seq<u64>| m0.contains_key(p) == m1.contains_key(p) by {
        if has_cell(cells, p) && p != cells[i].id@ {
            let j = place_of(cells, p);
            if j < i {
                assert(after[j].id@ == p);
            } else {
                assert(after[j - 1].id@ == p);
            }
        }
        if has_cell(after, p) {
            let j = place_of(after, p);
            let j0 = if j < i {
                j
            } else {
                j + 1
            };
            assert(cells[j0].id@ == p);
            if j0 < i {
                assert(cells[j0].id@ != cells[i].id@);
            } else {
                assert(cells[i].id@ != cells[j0].id@);
            }
        }
    }
    assert forall|p: Seq<u64>| m0.contains_key(p) implies m0[p] == m1[p] by {
        assert(has_cell(after, p));
        let j = place_of(after, p);
        assert(0 <= j < after.len() && after[j].id@ == p);
        lemma_map_at(after, j);
        let j0 = if j < i {
            j
        } else {
            j + 1
        };
        lemma_map_at(cells, j0);
    }
    assert(m0 =~= m1);
}

/// A table without doubles stands for a map with as many keys as the table
/// has cells.
proof fn lemma_map_len(cells: Seq<StateCell>)
    requires
        distinct(cells),
    ensures
        cells_map(cells).dom().finite(),
        cells_map(cells).dom().len() == cells.len(),
    decreases cells.len(),
{
    if cells.len() == 0 {
        assert(cells_map(cells).dom() =~= Set::<Seq<u64>>::empty()) by {
            assert forall|p: Seq<u64>| !has_cell(cells, p) by {}
        }
    } else {
        let front = cells.drop_last();
        let last = cells.last();
        assert(distinct(front)) by {
            assert forall|a: int, b: int| 0 <= a < b < front.len() implies #[trigger] front[a].id@
                != #[trigger] front[b].id@ by {
                assert(cells[a].id@ != cells[b].id@);
            }
        }
        assert(!cells_map(front).contains_key(last.id@)) by {
            if has_cell(front, last.id@) {
                let j = place_of(front, last.id@);
                assert(cells[j].id@ != cells[cells.len() - 1].id@);
            }
        }
        lemma_map_len(front);
        lemma_map_push(front, last);
        assert(front.push(last) =~= cells);
        assert(cells_map(cells).dom() =~= cells_map(front).dom().insert(last.id@));
    }
}

impl View for StateMap {
    type V = Map<Seq<u64>, AnyValue>;

    closed spec fn view(&self) -> Map<Seq<u64>, AnyValue> {
        cells_map(self.cells@)
    }
}

impl StateMap {
    /// The table is sound: no identity has two cells.
    pub closed spec fn wf(&self) -> bool {
        distinct(self.cells@)
    }

    /// The empty store.
    pub fn new() -> (store: StateMap)
        ensures
            store.wf(),
            store@ == Map::<Seq<u64>, AnyValue>::empty(),
    {
        let store = StateMap { cells: Vec::new() };
        assert(store@ =~= Map::<Seq<u64>, AnyValue>::empty()) by {
            assert forall|p: Seq<u64>| !has_cell(store.cells@, p) by {}
        }
        store
    }

    /// The number of cells.
    pub fn len(&self) -> (n: usize)
        requires
            self.wf(),
        ensures
            self@.dom().finite(),
            n == self@.dom().len(),
    {
        proof {
            lemma_map_len(self.cells@);
        }
        self.cells.len()
    }

    /// Where the cell of `id` stands in the table.
    fn position(&self, id: &ViewID) -> (r: Option<usize>)
        requires
            self.wf(),
        ensures
            r is Some <==> self@.contains_key(id@),
            r matches Some(i) ==> i < self.cells@.len() && self.cells@[i as int].id@ == id@
                && self@[id@] == self.cells@[i as int].value,
    {
        let mut i: usize = 0;
        while i < self.cells.len()
            invariant
                self.wf(),
                i <= self.cells@.len(),
                forall|j: int| 0 <= j < i ==> #[trigger] self.cells@[j].id@ != id@,
            decreases self.cells@.len() - i,
        {
            if self.cells[i].id == *id {
                proof {
                    lemma_map_at(self.cells@, i as int);
                }
                return Some(i);
            }
            i = i + 1;
        }
        assert(!has_cell(self.cells@, id@));
        None
    }

    /// Whether `id` has a cell.
    pub fn contains(&self, id: &ViewID) -> (b: bool)
        requires
            self.wf(),
        ensures
            b == self@.contains_key(id@),
    {
        self.position(id).is_some()
    }

    /// The value in the cell of `id`; `None` where `id` has no cell.
    pub fn get(&self, id: &ViewID) -> (r: Option<&AnyValue>)
        requires
            self.wf(),
        ensures
            r is Some <==> self@.contains_key(id@),
            r matches Some(v) ==> *v == self@[id@],
    {
        match self.position(id) {
            Some(i) => Some(&self.cells[i].value),
            None => None,
        }
    }

    /// The cell of `id`, for writing; `None` where `id` has no cell. What is
    /// written through the reference becomes the value of that cell, and no
    /// other cell changes.
    pub fn get_mut(&mut self, id: &ViewID) -> (r: Option<&mut AnyValue>)
        requires
            old(self).wf(),
        ensures
            final(self).wf(),
            r is Some <==> old(self)@.contains_key(id@),
            r matches Some(v) ==> *v == old(self)@[id@] && final(self)@ == old(self)@.insert(
                id@,
                *final(v),
            ),
            r is None ==> final(self)@ == old(self)@,
    {
        match self.position(id) {
            Some(i) => {
                proof {
                    let cells = self.cells@;
                    assert forall|value: AnyValue|
                        distinct(
                            #[trigger] cells.update(
                                i as int,
                                StateCell { id: cells[i as int].id, value },
                            ),
                        ) && cells_map(
                            cells.update(i as int, StateCell { id: cells[i as int].id, value }),
                        ) == cells_map(cells).insert(id@, value) by {
                        lemma_map_update(cells, i as int, value);
                    }
                }
                Some(&mut self.cells[i].value)
            },
            None => None,
        }
    }

    /// Makes a cell for `id`, which has none, holding `value`.
    pub fn insert(&mut self, id: ViewID, value: AnyValue)
        requires
            old(self).wf(),
            !old(self)@.contains_key(id@),
        ensures
            final(self).wf(),
            final(self)@ == old(self)@.insert(id@, value),
    {
        let cell = StateCell { id, value };
        proof {
            lemma_map_push(self.cells@, cell);
        }
        self.cells.push(cell);
    }

    /// Removes every cell whose identity does not occur in `live`, and leaves
    /// the others as they are.
    pub fn retain(&mut self, live: &Vec<ViewID>)
        requires
            old(self).wf(),
        ensures
            final(self).wf(),
            final(self)@ == old(self)@.restrict(path_set(live@)),
    {
        let ghost keep = path_set(live@);
        let mut i: usize = 0;
        assert(self@.restrict(keep) =~= old(self)@.restrict(keep));
        while i < self.cells.len()
            invariant
                keep == path_set(live@),
                self.wf(),
                i <= self.cells@.len(),
                self@.restrict(keep) == old(self)@.restrict(keep),
                forall|j: int| 0 <= j < i ==> keep.contains(#[trigger] self.cells@[j].id@),
            decreases self.cells@.len() - i,
        {
            if self.cells[i].id.occurs_in(live) {
                i = i + 1;
            } else {
                let ghost before = self@;
                proof {
                    lemma_map_remove(self.cells@, i as int);
                }
                let gone = self.cells.remove(i);
                assert(self@ == before.remove(gone.id@));
                assert(self@.restrict(keep) =~= before.restrict(keep));
            }
        }
        assert(self@ =~= self@.restrict(keep)) by {
            assert forall|p: Seq<u64>| self@.contains_key(p) implies keep.contains(p) by {
                assert(has_cell(self.cells@, p));
                let j = place_of(self.cells@, p);
                assert(keep.contains(self.cells@[j].id@));
            }
        }
    }
}

} // verus!

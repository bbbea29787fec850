//! Per-cell bags of food entities, owned by the cell their position falls in.
use vstd::prelude::*;
use crate::body::{Pursuer, pursuers_wf};
use crate::geometry::Pos;
use crate::grid::{Cell, Grid};

verus! {

/// An entity with a position in the arena.
pub trait Located {
    /// Where the entity stands.
    spec fn location(&self) -> Pos;

    /// Where the entity stands.
    fn pos(&self) -> (p: Pos)
        ensures
            p == self.location(),
    ;
}

/// An entity that bodies can pursue: it has an identity and a list of the
/// bodies pursuing it.
pub trait Pursuable: Located + Sized {
    /// The identity.
    spec fn ident(&self) -> u64;

    /// The bodies pursuing it.
    spec fn pursuers(&self) -> Seq<Pursuer>;

    /// Its own invariant.
    spec fn valid(&self) -> bool;

    /// `self` and `other` agree on everything but their pursuer lists.
    spec fn same_but_pursuers(&self, other: Self) -> bool;

    /// The identity.
    fn id(&self) -> (r: u64)
        ensures
            r == self.ident(),
    ;

    /// The bodies pursuing it.
    fn followers(&self) -> (r: &Vec<Pursuer>)
        ensures
            r@ == self.pursuers(),
    ;

    /// Replaces the list of pursuers; nothing else changes.
    fn set_followers(&mut self, f: Vec<Pursuer>)
        requires
            old(self).valid(),
            pursuers_wf(f@),
        ensures
            final(self).valid(),
            final(self).pursuers() == f@,
            final(self).ident() == old(self).ident(),
            final(self).location() == old(self).location(),
            final(self).same_but_pursuers(*old(self)),
    ;
}

/// The entities of one kind, in one bag per cell: `bags[i][j]` holds those
/// whose position falls in the cell of row `i` and column `j`.
pub struct SpatialStore<T> {
    pub bags: Vec<Vec<Vec<T>>>,
}

/// The number of entities in the first `j` bags of a row.
pub open spec fn row_total<T>(row: Seq<Vec<T>>, j: int) -> nat
    decreases j,
{
    if j <= 0 || j > row.len() {
        0
    } else {
        row_total(row, j - 1) + row[j - 1]@.len()
    }
}

/// The number of entities in the first `i` rows of bags.
pub open spec fn rows_total<T>(bags: Seq<Vec<Vec<T>>>, i: int) -> nat
    decreases i,
{
    if i <= 0 || i > bags.len() {
        0
    } else {
        rows_total(bags, i - 1) + row_total(bags[i - 1]@, bags[i - 1]@.len() as int)
    }
}

impl<T> SpatialStore<T> {
    /// The number of entities in the store.
    pub open spec fn total(&self) -> nat {
        rows_total(self.bags@, self.bags@.len() as int)
    }
}

impl<T: Located> SpatialStore<T> {
    /// The entity in slot `s` of the bag of cell `(i, j)`.
    pub open spec fn item(&self, i: int, j: int, s: int) -> T {
        self.bags@[i]@[j]@[s]
    }

    /// `(i, j, s)` names an occupied slot.
    pub open spec fn has_slot(&self, i: int, j: int, s: int) -> bool {
        &&& 0 <= i < self.bags@.len()
        &&& 0 <= j < self.bags@[i]@.len()
        &&& 0 <= s < self.bags@[i]@[j]@.len()
    }

    /// One bag per cell of the grid, each entity in the arena and in the bag
    /// of its own cell.
    pub open spec fn wf(&self, g: Grid) -> bool {
        &&& self.bags@.len() == g.rows
        &&& forall|i: int| 0 <= i < g.rows ==> #[trigger] self.bags@[i]@.len() == g.columns
        &&& forall|i: int, j: int, s: int|
            #[trigger] self.has_slot(i, j, s) ==> {
                let p = self.item(i, j, s).location();
                &&& g.contains(p)
                &&& g.row_of(p.y as int) == i
                &&& g.col_of(p.x as int) == j
            }
    }

    /// A store with an empty bag for every cell of the grid.
    pub fn new(g: &Grid) -> (r: Self)
        requires
            g.wf(),
        ensures
            r.wf(*g),
            forall|i: int, j: int, s: int| !r.has_slot(i, j, s),
    {
        let mut bags: Vec<Vec<Vec<T>>> = Vec::new();
        let mut i: usize = 0;
        while i < g.rows
            invariant
                i <= g.rows,
                bags@.len() == i,
                forall|k: int| 0 <= k < i ==> #[trigger] bags@[k]@.len() == g.columns,
                forall|k: int, j: int| 0 <= k < i && 0 <= j < g.columns ==> #[trigger] bags@[k]@[j]@.len() == 0,
            decreases g.rows - i,
        {
            let mut row: Vec<Vec<T>> = Vec::new();
            let mut j: usize = 0;
            while j < g.columns
                invariant
                    j <= g.columns,
                    row@.len() == j,
                    forall|k: int| 0 <= k < j ==> #[trigger] row@[k]@.len() == 0,
                decreases g.columns - j,
            {
                row.push(Vec::new());
                j = j + 1;
            }
            bags.push(row);
            i = i + 1;
        }
        let r = SpatialStore { bags };
        assert forall|i: int, j: int, s: int| !r.has_slot(i, j, s) by {
            if 0 <= i < r.bags@.len() && 0 <= j < r.bags@[i]@.len() {
                assert(r.bags@[i]@[j]@.len() == 0);
            }
        }
        r
    }

    /// The bag of a cell.
    pub fn bag_of(&self, g: &Grid, cell: Cell) -> (b: &Vec<T>)
        requires
            self.wf(*g),
            g.has_cell(cell),
        ensures
            b@ == self.bags@[cell.i as int]@[cell.j as int]@,
    {
        &self.bags[cell.i][cell.j]
    }

    /// Puts an entity of the arena into the bag of its cell, last.
    pub fn insert(&mut self, g: &Grid, item: T)
        requires
            old(self).wf(*g),
            g.wf(),
            g.contains(item.location()),
        ensures
            final(self).wf(*g),
            ({
                let c = g.cell_of(item.location());
                &&& final(self).bags@.len() == old(self).bags@.len()
                &&& forall|i: int| 0 <= i < g.rows && i != c.i ==> #[trigger] final(self).bags@[i] == old(self).bags@[i]
                &&& forall|j: int| 0 <= j < g.columns && j != c.j ==> #[trigger] final(self).bags@[c.i as int]@[j] == old(self).bags@[c.i as int]@[j]
                &&& final(self).bags@[c.i as int]@[c.j as int]@ == old(self).bags@[c.i as int]@[c.j as int]@.push(item)
            }),
    {
        let p = item.pos();
        let c = g.get_cell_by_pos(&p);
        self.bags[c.i][c.j].push(item);
        proof {
            let c2 = g.cell_of(item.location());
            assert forall|i: int, j: int, s: int| #[trigger] self.has_slot(i, j, s) implies {
                let q = self.item(i, j, s).location();
                &&& g.contains(q)
                &&& g.row_of(q.y as int) == i
                &&& g.col_of(q.x as int) == j
            } by {
                if i == c2.i && j == c2.j && s == old(self).bags@[i]@[j]@.len() {
                } else {
                    assert(old(self).has_slot(i, j, s));
                }
            }
        }
    }

    /// Takes the entity out of slot `s` of the bag of a cell; the last entity
    /// of that bag moves into the slot.
    pub fn remove(&mut self, g: &Grid, cell: Cell, s: usize) -> (item: T)
        requires
            old(self).wf(*g),
            g.has_cell(cell),
            old(self).has_slot(cell.i as int, cell.j as int, s as int),
        ensures
            final(self).wf(*g),
            item == old(self).item(cell.i as int, cell.j as int, s as int),
            final(self).bags@.len() == old(self).bags@.len(),
            forall|i: int| 0 <= i < g.rows && i != cell.i ==> #[trigger] final(self).bags@[i] == old(self).bags@[i],
            forall|j: int| 0 <= j < g.columns && j != cell.j ==> #[trigger] final(self).bags@[cell.i as int]@[j] == old(self).bags@[cell.i as int]@[j],
            final(self).bags@[cell.i as int]@[cell.j as int]@.to_multiset()
                == old(self).bags@[cell.i as int]@[cell.j as int]@.to_multiset().remove(item),
            final(self).bags@[cell.i as int]@.len() == old(self).bags@[cell.i as int]@.len(),
            final(self).bags@[cell.i as int]@[cell.j as int]@ == old(self).bags@[cell.i as int]@[cell.j as int]@.update(
                s as int,
                old(self).bags@[cell.i as int]@[cell.j as int]@.last(),
            ).drop_last(),
    {
        let ghost before = self.bags@[cell.i as int]@[cell.j as int]@;
        let item = self.bags[cell.i][cell.j].swap_remove(s);
        proof {
            lemma_swap_remove_multiset(before, s as int);
        }
        proof {
            assert forall|i: int, j: int, k: int| #[trigger] self.has_slot(i, j, k) implies {
                let q = self.item(i, j, k).location();
                &&& g.contains(q)
                &&& g.row_of(q.y as int) == i
                &&& g.col_of(q.x as int) == j
            } by {
                if i == cell.i && j == cell.j {
                    if k == s {
                        assert(old(self).has_slot(i, j, before.len() - 1));
                    } else {
                        assert(old(self).has_slot(i, j, k));
                    }
                } else {
                    assert(old(self).has_slot(i, j, k));
                }
            }
        }
        item
    }
}

impl<T: Pursuable> SpatialStore<T> {
    /// Every entity is valid.
    pub open spec fn all_valid(&self) -> bool {
        forall|i: int, j: int, s: int| #[trigger] self.has_slot(i, j, s) ==> self.item(i, j, s).valid()
    }

    /// The first slot of a cell's bag holding the identity, if any.
    pub fn find(&self, g: &Grid, cell: Cell, id: u64) -> (r: Option<usize>)
        requires
            self.wf(*g),
            g.has_cell(cell),
        ensures
            r matches Some(s) ==> self.has_slot(cell.i as int, cell.j as int, s as int)
                && self.item(cell.i as int, cell.j as int, s as int).ident() == id,
            r is None ==> forall|s: int| #[trigger] self.has_slot(cell.i as int, cell.j as int, s)
                ==> self.item(cell.i as int, cell.j as int, s).ident() != id,
    {
        let bag = &self.bags[cell.i][cell.j];
        let mut s: usize = 0;
        while s < bag.len()
            invariant
                bag@ == self.bags@[cell.i as int]@[cell.j as int]@,
                s <= bag@.len(),
                self.wf(*g),
                g.has_cell(cell),
                forall|k: int| 0 <= k < s ==> (#[trigger] self.item(cell.i as int, cell.j as int, k)).ident() != id,
            decreases bag@.len() - s,
        {
            if bag[s].id() == id {
                return Some(s);
            }
            s = s + 1;
        }
        None
    }

    /// Replaces the pursuers of the entity in a slot; every other slot, and
    /// the entity's identity and position, stay as they were.
    pub fn set_followers_at(&mut self, g: &Grid, cell: Cell, s: usize, f: Vec<Pursuer>)
        requires
            old(self).wf(*g),
            old(self).all_valid(),
            g.has_cell(cell),
            old(self).has_slot(cell.i as int, cell.j as int, s as int),
            pursuers_wf(f@),
        ensures
            final(self).wf(*g),
            final(self).all_valid(),
            forall|i: int, j: int, k: int| #[trigger] final(self).has_slot(i, j, k) == old(self).has_slot(i, j, k),
            final(self).bags@.len() == old(self).bags@.len(),
            forall|i: int| 0 <= i < old(self).bags@.len() ==> #[trigger] final(self).bags@[i]@.len() == old(self).bags@[i]@.len(),
            forall|i: int, j: int| 0 <= i < old(self).bags@.len() && 0 <= j < old(self).bags@[i]@.len()
                ==> #[trigger] final(self).bags@[i]@[j]@.len() == old(self).bags@[i]@[j]@.len(),
            forall|i: int, j: int, k: int| old(self).has_slot(i, j, k) && !(i == cell.i && j == cell.j && k == s)
                ==> #[trigger] final(self).item(i, j, k) == old(self).item(i, j, k),
            final(self).item(cell.i as int, cell.j as int, s as int).pursuers() == f@,
            final(self).item(cell.i as int, cell.j as int, s as int).ident() == old(self).item(cell.i as int, cell.j as int, s as int).ident(),
            final(self).item(cell.i as int, cell.j as int, s as int).location() == old(self).item(cell.i as int, cell.j as int, s as int).location(),
            final(self).item(cell.i as int, cell.j as int, s as int).same_but_pursuers(old(self).item(cell.i as int, cell.j as int, s as int)),
    {
        self.bags[cell.i][cell.j][s].set_followers(f);
        proof {
            assert forall|i: int, j: int, k: int| #[trigger] self.has_slot(i, j, k) implies {
                let q = self.item(i, j, k).location();
                &&& g.contains(q)
                &&& g.row_of(q.y as int) == i
                &&& g.col_of(q.x as int) == j
            } && self.item(i, j, k).valid() by {
                assert(old(self).has_slot(i, j, k));
            }
            assert forall|i: int, j: int, k: int| #[trigger] self.has_slot(i, j, k) == old(self).has_slot(i, j, k) by {}
        }
    }
}

proof fn lemma_swap_remove_multiset<T>(v: Seq<T>, s: int)
    requires
        0 <= s < v.len(),
    ensures
        v.update(s, v.last()).drop_last().to_multiset() == v.to_multiset().remove(v[s]),
{
    broadcast use vstd::seq_lib::group_to_multiset_ensures;
    broadcast use vstd::multiset::group_multiset_axioms;
    let x = v.last();
    let u = v.update(s, x);
    vstd::seq_lib::to_multiset_update(v, s, x);
    assert(u == u.drop_last().push(x));
    assert(u.drop_last().to_multiset() =~= u.to_multiset().remove(x));
    assert(v.to_multiset().insert(x).remove(v[s]).remove(x) =~= v.to_multiset().remove(v[s]));
}

} // verus!

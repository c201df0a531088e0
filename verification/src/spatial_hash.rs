//! Uniform-grid spatial hash for broad-phase collision detection.
//!
//! Space is cut into cubic cells addressed by integer coordinates. An entry
//! occupies every cell of the cell box its bounding box touches; a query over
//! a cell box returns every entry that shares at least one cell with it.
//! Turning world positions into cell coordinates divides by the cell size and
//! rounds down, which happens in floating point outside this module.

use vstd::prelude::*;

verus! {

broadcast use vstd::seq_lib::lemma_seq_contains_after_push;

/// Whether cell `c` lies in the box of cells from `lo` to `hi`, bounds included.
pub open spec fn in_cell_box(c: (i32, i32, i32), lo: (i32, i32, i32), hi: (i32, i32, i32)) -> bool {
    &&& lo.0 <= c.0 <= hi.0
    &&& lo.1 <= c.1 <= hi.1
    &&& lo.2 <= c.2 <= hi.2
}

/// Cells of the box that come before `(x, y, z)` in x-major order.
spec fn swept(
    c: (i32, i32, i32),
    lo: (i32, i32, i32),
    hi: (i32, i32, i32),
    x: int,
    y: int,
    z: int,
) -> bool {
    &&& in_cell_box(c, lo, hi)
    &&& (c.0 < x || (c.0 == x && (c.1 < y || (c.1 == y && c.2 < z))))
}

/// Spatial hash: the entries stored in each occupied cell, in insertion order.
pub struct SpatialHash {
    cells: Vec<(i32, i32, i32)>,
    lists: Vec<Vec<usize>>,
}

impl SpatialHash {
    /// The cell table is consistent: one list per cell, each cell once.
    pub closed spec fn wf(&self) -> bool {
        &&& self.cells.len() == self.lists.len()
        &&& self.cells@.no_duplicates()
    }

    /// The entries stored in cell `c`, in insertion order (empty if none).
    pub closed spec fn entries(&self, c: (i32, i32, i32)) -> Seq<usize> {
        if self.cells@.contains(c) {
            self.lists@[self.cells@.index_of(c)]@
        } else {
            Seq::empty()
        }
    }

    /// An empty spatial hash.
    pub fn new() -> (h: SpatialHash)
        ensures
            h.wf(),
            forall|c: (i32, i32, i32)| #[trigger] h.entries(c) == Seq::<usize>::empty(),
    {
        SpatialHash { cells: Vec::new(), lists: Vec::new() }
    }

    /// Removes every entry.
    pub fn clear(&mut self)
        ensures
            final(self).wf(),
            forall|c: (i32, i32, i32)| #[trigger] final(self).entries(c) == Seq::<usize>::empty(),
    {
        self.cells = Vec::new();
        self.lists = Vec::new();
    }

    /// Position of cell `c` in the table, if it is occupied.
    fn find(&self, c: (i32, i32, i32)) -> (r: Option<usize>)
        requires
            self.wf(),
        ensures
            match r {
                Some(i) => i < self.cells.len() && self.cells@[i as int] == c
                    && self.cells@.index_of(c) == i,
                None => !self.cells@.contains(c),
            },
    {
        let mut i: usize = 0;
        while i < self.cells.len()
            invariant
                self.wf(),
                i <= self.cells.len(),
                forall|j: int| 0 <= j < i ==> self.cells@[j] != c,
            decreases self.cells.len() - i,
        {
            let k = self.cells[i];
            if k.0 == c.0 && k.1 == c.1 && k.2 == c.2 {
                proof {
                    lemma_index_of_unique(self.cells@, i as int);
                }
                return Some(i);
            }
            i = i + 1;
        }
        None
    }

    /// Appends `index` to the list of cell `c`.
    fn push_at(&mut self, c: (i32, i32, i32), index: usize)
        requires
            old(self).wf(),
        ensures
            final(self).wf(),
            forall|d: (i32, i32, i32)| #[trigger] final(self).entries(d) == if d == c {
                old(self).entries(d).push(index)
            } else {
                old(self).entries(d)
            },
    {
        match self.find(c) {
            Some(i) => {
                let mut list = self.lists[i].clone();
                proof {
                    assert(list@ =~= self.lists@[i as int]@);
                }
                list.push(index);
                self.lists.set(i, list);
            },
            None => {
                let ghost old_cells = self.cells@;
                self.cells.push(c);
                self.lists.push(vec![index]);
                proof {
                    assert(self.cells@.no_duplicates());
                    assert(self.cells@[old_cells.len() as int] == c);
                    lemma_index_of_unique(self.cells@, old_cells.len() as int);
                    assert forall|d: (i32, i32, i32)| old_cells.contains(d) implies
                        self.cells@.index_of(d) == old_cells.index_of(d) by {
                        let k = old_cells.index_of(d);
                        assert(old_cells[k] == d);
                        assert(self.cells@[k] == d);
                        lemma_index_of_unique(self.cells@, k);
                    }
                    assert forall|d: (i32, i32, i32)| self.cells@.contains(d) && d != c implies
                        old_cells.contains(d) by {
                        let k = self.cells@.index_of(d);
                        assert(self.cells@[k] == d);
                        assert(k < old_cells.len());
                        assert(old_cells[k] == d);
                    }
                }
            },
        }
    }

    /// Inserts entry `index` into every cell of the box from `lo` to `hi`.
    pub fn insert(&mut self, index: usize, lo: (i32, i32, i32), hi: (i32, i32, i32))
        requires
            old(self).wf(),
        ensures
            final(self).wf(),
            forall|c: (i32, i32, i32)| #[trigger] final(self).entries(c) == if in_cell_box(c, lo, hi) {
                old(self).entries(c).push(index)
            } else {
                old(self).entries(c)
            },
    {
        let ghost start = *self;
        let mut x: i64 = lo.0 as i64;
        while x <= hi.0 as i64
            invariant
                self.wf(),
                lo.0 <= x <= hi.0 + 1 || hi.0 < lo.0,
                x >= lo.0,
                x <= i32::MAX + 1,
                forall|c: (i32, i32, i32)| #[trigger] self.entries(c) == if swept(c, lo, hi, x as int, lo.1 as int, lo.2 as int) {
                    start.entries(c).push(index)
                } else {
                    start.entries(c)
                },
            decreases hi.0 + 1 - x,
        {
            let mut y: i64 = lo.1 as i64;
            while y <= hi.1 as i64
                invariant
                    self.wf(),
                    lo.0 <= x <= hi.0,
                    y >= lo.1,
                    y <= i32::MAX + 1,
                    forall|c: (i32, i32, i32)| #[trigger] self.entries(c) == if swept(c, lo, hi, x as int, y as int, lo.2 as int) {
                        start.entries(c).push(index)
                    } else {
                        start.entries(c)
                    },
                decreases hi.1 + 1 - y,
            {
                let mut z: i64 = lo.2 as i64;
                while z <= hi.2 as i64
                    invariant
                        self.wf(),
                        lo.0 <= x <= hi.0,
                        lo.1 <= y <= hi.1,
                        z >= lo.2,
                        z <= i32::MAX + 1,
                        forall|c: (i32, i32, i32)| #[trigger] self.entries(c) == if swept(c, lo, hi, x as int, y as int, z as int) {
                            start.entries(c).push(index)
                        } else {
                            start.entries(c)
                        },
                    decreases hi.2 + 1 - z,
                {
                    let cell = (x as i32, y as i32, z as i32);
                    self.push_at(cell, index);
                    z = z + 1;
                }
                y = y + 1;
            }
            x = x + 1;
        }
    }

    /// Every entry stored in some cell of the box from `lo` to `hi`, each once,
    /// in the order first met walking the cells x-major and each cell's list
    /// front to back.
    pub fn query(&self, lo: (i32, i32, i32), hi: (i32, i32, i32)) -> (found: Vec<usize>)
        requires
            self.wf(),
        ensures
            found@ == first_found(self.entries_flat(box_order(lo, hi))),
            found@.no_duplicates(),
            forall|i: usize| found@.contains(i) <==> #[trigger] self.stored_in_box(i, lo, hi),
    {
        let cells = cells_in_box(lo, hi);
        proof {
            assert(is_box_order(cells@, lo, hi));
            let chosen = box_order(lo, hi);
            assert(is_box_order(chosen, lo, hi));
            assert forall|c: (i32, i32, i32)| cells@.contains(c) <==> chosen.contains(c) by {
                if in_cell_box(c, lo, hi) {
                    assert(cells@.contains(c));
                }
            }
            lemma_sorted_cells_unique(cells@, chosen);
            assert(cells@.take(0) =~= Seq::<(i32, i32, i32)>::empty());
        }
        let mut found: Vec<usize> = Vec::new();
        let mut k: usize = 0;
        while k < cells.len()
            invariant
                self.wf(),
                k <= cells.len(),
                found@ == first_found(self.entries_flat(cells@.take(k as int))),
            decreases cells.len() - k,
        {
            let cell = cells[k];
            let ghost prefix = self.entries_flat(cells@.take(k as int));
            proof {
                assert(cells@.take(k + 1).drop_last() =~= cells@.take(k as int));
                assert(cells@.take(k + 1).last() == cell);
                assert(self.entries_flat(cells@.take(k + 1)) == prefix + self.entries(cell));
            }
            match self.find(cell) {
                Some(idx) => {
                    let list = &self.lists[idx];
                    proof {
                        assert(self.entries(cell) == list@);
                        assert(prefix + list@.take(0) =~= prefix);
                    }
                    let mut j: usize = 0;
                    while j < list.len()
                        invariant
                            j <= list.len(),
                            found@ == first_found(prefix + list@.take(j as int)),
                        decreases list.len() - j,
                    {
                        let e = list[j];
                        proof {
                            let t = prefix + list@.take(j + 1);
                            assert(t.drop_last() =~= prefix + list@.take(j as int));
                            assert(t.last() == e);
                            lemma_first_found_contains(prefix + list@.take(j as int));
                        }
                        if !contains_index(&found, e) {
                            found.push(e);
                        }
                        j = j + 1;
                    }
                    proof {
                        assert(list@.take(list.len() as int) =~= list@);
                    }
                },
                None => {
                    proof {
                        assert(self.entries(cell) == Seq::<usize>::empty());
                        assert(prefix + self.entries(cell) =~= prefix);
                    }
                },
            }
            k = k + 1;
        }
        proof {
            assert(cells@.take(cells.len() as int) =~= cells@);
            let flat = self.entries_flat(cells@);
            lemma_first_found_contains(flat);
            self.lemma_flat_contains(cells@);
            assert forall|i: usize| found@.contains(i) <==> #[trigger] self.stored_in_box(i, lo, hi) by {
                if found@.contains(i) {
                    assert(flat.contains(i));
                    let c = choose|c: (i32, i32, i32)| cells@.contains(c) && #[trigger] self.entries(c).contains(i);
                    assert(in_cell_box(c, lo, hi));
                }
                if self.stored_in_box(i, lo, hi) {
                    let c = choose|c: (i32, i32, i32)| in_cell_box(c, lo, hi) && #[trigger] self.entries(c).contains(i);
                    assert(cells@.contains(c));
                    assert(flat.contains(i));
                }
            }
        }
        found
    }

    /// The entries of the given cells, cell after cell, each list front to back.
    pub closed spec fn entries_flat(&self, cells: Seq<(i32, i32, i32)>) -> Seq<usize>
        decreases cells.len(),
    {
        if cells.len() == 0 {
            Seq::empty()
        } else {
            self.entries_flat(cells.drop_last()) + self.entries(cells.last())
        }
    }

    proof fn lemma_flat_contains(&self, cells: Seq<(i32, i32, i32)>)
        ensures
            forall|e: usize| #[trigger] self.entries_flat(cells).contains(e) <==> exists|c: (i32, i32, i32)|
                cells.contains(c) && #[trigger] self.entries(c).contains(e),
        decreases cells.len(),
    {
        if cells.len() > 0 {
            let init = cells.drop_last();
            let last = cells.last();
            self.lemma_flat_contains(init);
            assert forall|e: usize| #[trigger] self.entries_flat(cells).contains(e) <==> exists|c: (i32, i32, i32)|
                cells.contains(c) && #[trigger] self.entries(c).contains(e) by {
                let f = self.entries_flat(init);
                let l = self.entries(last);
                assert(self.entries_flat(cells) == f + l);
                if (f + l).contains(e) {
                    let k = choose|k: int| 0 <= k < (f + l).len() && (f + l)[k] == e;
                    if k < f.len() {
                        assert(f[k] == e);
                        assert(f.contains(e));
                        let c = choose|c: (i32, i32, i32)| init.contains(c) && #[trigger] self.entries(c).contains(e);
                        let m = choose|m: int| 0 <= m < init.len() && init[m] == c;
                        assert(cells[m] == c);
                        assert(cells.contains(c));
                    } else {
                        assert(l[k - f.len()] == e);
                        assert(l.contains(e));
                        assert(cells[cells.len() - 1] == last);
                        assert(cells.contains(last));
                    }
                }
                if exists|c: (i32, i32, i32)| cells.contains(c) && #[trigger] self.entries(c).contains(e) {
                    let c = choose|c: (i32, i32, i32)| cells.contains(c) && #[trigger] self.entries(c).contains(e);
                    let m = choose|m: int| 0 <= m < cells.len() && cells[m] == c;
                    let q = choose|q: int| 0 <= q < self.entries(c).len() && self.entries(c)[q] == e;
                    if m < cells.len() - 1 {
                        assert(init[m] == c);
                        assert(init.contains(c));
                        assert(f.contains(e));
                        let k = choose|k: int| 0 <= k < f.len() && f[k] == e;
                        assert((f + l)[k] == e);
                    } else {
                        assert(c == last);
                        assert((f + l)[f.len() + q] == e);
                    }
                }
            }
        }
    }

    /// Entry `i` is stored in some cell of the box.
    pub closed spec fn stored_in_box(&self, i: usize, lo: (i32, i32, i32), hi: (i32, i32, i32)) -> bool {
        exists|c: (i32, i32, i32)| in_cell_box(c, lo, hi) && #[trigger] self.entries(c).contains(i)
    }

}

proof fn lemma_push_fresh(s: Seq<usize>, e: usize)
    requires
        s.no_duplicates(),
        !s.contains(e),
    ensures
        s.push(e).no_duplicates(),
{
    assert forall|a: int, b: int| 0 <= a < b < s.len() + 1 implies s.push(e)[a] != s.push(e)[b] by {
        if b == s.len() {
            assert(s[a] == s.push(e)[a]);
        }
    }
}

/// Cells in x-major order.
pub open spec fn cell_less(a: (i32, i32, i32), b: (i32, i32, i32)) -> bool {
    a.0 < b.0 || (a.0 == b.0 && (a.1 < b.1 || (a.1 == b.1 && a.2 < b.2)))
}

/// Every cell of the box from `lo` to `hi`, in x-major order, each once.
pub fn cells_in_box(lo: (i32, i32, i32), hi: (i32, i32, i32)) -> (cells: Vec<(i32, i32, i32)>)
    ensures
        forall|c: (i32, i32, i32)| cells@.contains(c) <==> #[trigger] in_cell_box(c, lo, hi),
        forall|i: int, j: int| 0 <= i < j < cells@.len() ==> cell_less(#[trigger] cells@[i], #[trigger] cells@[j]),
{
    let mut cells: Vec<(i32, i32, i32)> = Vec::new();
    let mut x: i64 = lo.0 as i64;
    while x <= hi.0 as i64
        invariant
            x >= lo.0,
            x <= i32::MAX + 1,
            forall|c: (i32, i32, i32)| cells@.contains(c) <==> #[trigger] swept(c, lo, hi, x as int, lo.1 as int, lo.2 as int),
            forall|i: int, j: int| 0 <= i < j < cells@.len() ==> cell_less(#[trigger] cells@[i], #[trigger] cells@[j]),
            forall|i: int| 0 <= i < cells@.len() ==> (#[trigger] cells@[i]).0 < x,
        decreases hi.0 + 1 - x,
    {
        let mut y: i64 = lo.1 as i64;
        while y <= hi.1 as i64
            invariant
                lo.0 <= x <= hi.0,
                y >= lo.1,
                y <= i32::MAX + 1,
                forall|c: (i32, i32, i32)| cells@.contains(c) <==> #[trigger] swept(c, lo, hi, x as int, y as int, lo.2 as int),
                forall|i: int, j: int| 0 <= i < j < cells@.len() ==> cell_less(#[trigger] cells@[i], #[trigger] cells@[j]),
                forall|i: int| 0 <= i < cells@.len() ==> (#[trigger] cells@[i]).0 < x || (cells@[i].0 == x && cells@[i].1 < y),
            decreases hi.1 + 1 - y,
        {
            let mut z: i64 = lo.2 as i64;
            while z <= hi.2 as i64
                invariant
                    lo.0 <= x <= hi.0,
                    lo.1 <= y <= hi.1,
                    z >= lo.2,
                    z <= i32::MAX + 1,
                    forall|c: (i32, i32, i32)| cells@.contains(c) <==> #[trigger] swept(c, lo, hi, x as int, y as int, z as int),
                    forall|i: int, j: int| 0 <= i < j < cells@.len() ==> cell_less(#[trigger] cells@[i], #[trigger] cells@[j]),
                    forall|i: int| 0 <= i < cells@.len() ==> (#[trigger] cells@[i]).0 < x || (cells@[i].0 == x && (cells@[i].1 < y
                        || (cells@[i].1 == y && cells@[i].2 < z))),
                decreases hi.2 + 1 - z,
            {
                let c = (x as i32, y as i32, z as i32);
                let ghost before = cells@;
                cells.push(c);
                proof {
                    assert(cells@ == before.push(c));
                    assert(cells@[before.len() as int] == c);
                    assert(c.0 == x && c.1 == y && c.2 == z);
                    assert forall|d: (i32, i32, i32)| cells@.contains(d) <==> #[trigger] swept(d, lo, hi, x as int, y as int, z + 1) by {
                        if d.0 == c.0 && d.1 == c.1 && d.2 == c.2 {
                            assert(d == c);
                        }
                        if cells@.contains(d) && d != c {
                            let k = choose|k: int| 0 <= k < cells@.len() && cells@[k] == d;
                            assert(k != before.len());
                            assert(before[k] == d);
                            assert(before.contains(d));
                            assert(swept(d, lo, hi, x as int, y as int, z as int));
                        }
                        if swept(d, lo, hi, x as int, y as int, z + 1) && d != c {
                            assert(swept(d, lo, hi, x as int, y as int, z as int));
                            assert(before.contains(d));
                            let k = choose|k: int| 0 <= k < before.len() && before[k] == d;
                            assert(cells@[k] == d);
                        }
                        if d == c {
                            assert(cells@.contains(c));
                            assert(swept(c, lo, hi, x as int, y as int, z + 1));
                        }
                    }
                }
                z = z + 1;
            }
            proof {
                assert forall|d: (i32, i32, i32)| cells@.contains(d) <==> #[trigger] swept(d, lo, hi, x as int, y + 1, lo.2 as int) by {
                    assert(cells@.contains(d) <==> swept(d, lo, hi, x as int, y as int, z as int));
                }
            }
            y = y + 1;
        }
        proof {
            assert forall|d: (i32, i32, i32)| cells@.contains(d) <==> #[trigger] swept(d, lo, hi, x + 1, lo.1 as int, lo.2 as int) by {
                assert(cells@.contains(d) <==> swept(d, lo, hi, x as int, y as int, lo.2 as int));
            }
        }
        x = x + 1;
    }
    proof {
        assert forall|d: (i32, i32, i32)| cells@.contains(d) <==> #[trigger] in_cell_box(d, lo, hi) by {
            assert(cells@.contains(d) <==> swept(d, lo, hi, x as int, lo.1 as int, lo.2 as int));
        }
    }
    cells
}

/// The cells of the box in x-major order, each once.
pub open spec fn is_box_order(s: Seq<(i32, i32, i32)>, lo: (i32, i32, i32), hi: (i32, i32, i32)) -> bool {
    &&& forall|c: (i32, i32, i32)| s.contains(c) <==> #[trigger] in_cell_box(c, lo, hi)
    &&& forall|i: int, j: int| 0 <= i < j < s.len() ==> cell_less(#[trigger] s[i], #[trigger] s[j])
}

/// The cells of the box from `lo` to `hi` in x-major order (the one sequence
/// `is_box_order` describes).
pub open spec fn box_order(lo: (i32, i32, i32), hi: (i32, i32, i32)) -> Seq<(i32, i32, i32)> {
    choose|s: Seq<(i32, i32, i32)>| is_box_order(s, lo, hi)
}

/// The distinct entries of `s`, in the order of their first occurrence.
pub open spec fn first_found(s: Seq<usize>) -> Seq<usize>
    decreases s.len(),
{
    if s.len() == 0 {
        Seq::empty()
    } else {
        let rest = first_found(s.drop_last());
        if rest.contains(s.last()) {
            rest
        } else {
            rest.push(s.last())
        }
    }
}

proof fn lemma_first_found_contains(s: Seq<usize>)
    ensures
        forall|e: usize| #[trigger] first_found(s).contains(e) <==> s.contains(e),
        first_found(s).no_duplicates(),
    decreases s.len(),
{
    if s.len() > 0 {
        let init = s.drop_last();
        lemma_first_found_contains(init);
        let rest = first_found(init);
        assert forall|e: usize| #[trigger] first_found(s).contains(e) <==> s.contains(e) by {
            if init.contains(e) {
                let k = choose|k: int| 0 <= k < init.len() && init[k] == e;
                assert(s[k] == e);
            }
            if s.contains(e) && e != s.last() {
                let k = choose|k: int| 0 <= k < s.len() && s[k] == e;
                assert(k < s.len() - 1);
                assert(init[k] == e);
            }
            if e == s.last() {
                assert(s[s.len() - 1] == e);
            }
        }
        if !rest.contains(s.last()) {
            lemma_push_fresh(rest, s.last());
        }
    }
}

/// Two strictly x-major-sorted cell sequences holding the same cells are equal.
proof fn lemma_sorted_cells_unique(a: Seq<(i32, i32, i32)>, b: Seq<(i32, i32, i32)>)
    requires
        forall|i: int, j: int| 0 <= i < j < a.len() ==> cell_less(#[trigger] a[i], #[trigger] a[j]),
        forall|i: int, j: int| 0 <= i < j < b.len() ==> cell_less(#[trigger] b[i], #[trigger] b[j]),
        forall|c: (i32, i32, i32)| a.contains(c) <==> b.contains(c),
    ensures
        a == b,
    decreases a.len() + b.len(),
{
    if a.len() == 0 || b.len() == 0 {
        if a.len() > 0 {
            assert(a.contains(a[0]));
        }
        if b.len() > 0 {
            assert(b.contains(b[0]));
        }
        assert(a =~= b);
    } else {
        assert(a.contains(a[0]));
        assert(b.contains(b[0]));
        let j = choose|j: int| 0 <= j < b.len() && b[j] == a[0];
        let i = choose|i: int| 0 <= i < a.len() && a[i] == b[0];
        if j > 0 {
            assert(cell_less(b[0], b[j]));
            if i > 0 {
                assert(cell_less(a[0], a[i]));
            }
            assert(false);
        }
        assert(a[0] == b[0]);
        let at = a.drop_first();
        let bt = b.drop_first();
        assert forall|c: (i32, i32, i32)| at.contains(c) <==> bt.contains(c) by {
            if at.contains(c) {
                let k = choose|k: int| 0 <= k < at.len() && at[k] == c;
                assert(a[k + 1] == c);
                assert(cell_less(a[0], a[k + 1]));
                assert(a.contains(c));
                assert(b.contains(c));
                let m = choose|m: int| 0 <= m < b.len() && b[m] == c;
                assert(m != 0);
                assert(bt[m - 1] == c);
            }
            if bt.contains(c) {
                let k = choose|k: int| 0 <= k < bt.len() && bt[k] == c;
                assert(b[k + 1] == c);
                assert(cell_less(b[0], b[k + 1]));
                assert(b.contains(c));
                assert(a.contains(c));
                let m = choose|m: int| 0 <= m < a.len() && a[m] == c;
                assert(m != 0);
                assert(at[m - 1] == c);
            }
        }
        assert forall|x: int, y: int| 0 <= x < y < at.len() implies cell_less(#[trigger] at[x], #[trigger] at[y]) by {
            assert(at[x] == a[x + 1] && at[y] == a[y + 1]);
        }
        assert forall|x: int, y: int| 0 <= x < y < bt.len() implies cell_less(#[trigger] bt[x], #[trigger] bt[y]) by {
            assert(bt[x] == b[x + 1] && bt[y] == b[y + 1]);
        }
        lemma_sorted_cells_unique(at, bt);
        assert(at.len() == bt.len());
        assert(a.len() == b.len());
        assert(a =~= b) by {
            assert forall|k: int| 0 <= k < a.len() implies a[k] == b[k] by {
                if k > 0 {
                    assert(a[k] == at[k - 1]);
                    assert(b[k] == bt[k - 1]);
                }
            }
        }
    }
}

/// An entry inserted over a cell box is reported by every later query over
/// a box that shares a cell with it.
pub proof fn lemma_query_finds_inserted(
    before: SpatialHash,
    after: SpatialHash,
    index: usize,
    lo: (i32, i32, i32),
    hi: (i32, i32, i32),
    query_lo: (i32, i32, i32),
    query_hi: (i32, i32, i32),
    shared: (i32, i32, i32),
)
    requires
        forall|c: (i32, i32, i32)| #[trigger] after.entries(c) == if in_cell_box(c, lo, hi) {
            before.entries(c).push(index)
        } else {
            before.entries(c)
        },
        in_cell_box(shared, lo, hi),
        in_cell_box(shared, query_lo, query_hi),
    ensures
        after.stored_in_box(index, query_lo, query_hi),
{
    assert(after.entries(shared) == before.entries(shared).push(index));
    assert(after.entries(shared).last() == index);
    assert(after.entries(shared).contains(index));
}

/// Whether `v` holds `e`.
fn contains_index(v: &Vec<usize>, e: usize) -> (r: bool)
    ensures
        r == v@.contains(e),
{
    let mut i: usize = 0;
    while i < v.len()
        invariant
            i <= v.len(),
            forall|j: int| 0 <= j < i ==> v@[j] != e,
        decreases v.len() - i,
    {
        if v[i] == e {
            return true;
        }
        i = i + 1;
    }
    false
}

/// In a sequence without duplicates, `index_of` finds the one position of each element.
proof fn lemma_index_of_unique(s: Seq<(i32, i32, i32)>, k: int)
    requires
        s.no_duplicates(),
        0 <= k < s.len(),
    ensures
        s.contains(s[k]),
        s.index_of(s[k]) == k,
{
    assert(s.contains(s[k]));
    let j = s.index_of(s[k]);
    assert(0 <= j < s.len() && s[j] == s[k]);
}

} // verus!

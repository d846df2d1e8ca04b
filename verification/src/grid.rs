//! Uniform-cell spatial hash grid: the broad phase of collision detection.
//!
//! An entity is bucketed, by id, into every cell that its bounding box
//! touches. A query returns every id that shares a cell with the query box:
//! a superset of the entities whose boxes intersect it, never a subset.

use std::collections::{HashMap, HashSet};
use vstd::arithmetic::div_mod::{
    lemma_div_is_ordered, lemma_fundamental_div_mod, lemma_fundamental_div_mod_converse,
    lemma_mod_bound,
};
use vstd::prelude::*;
use vstd::std_specs::hash::group_hash_axioms;

verus! {

/// An axis-aligned bounding box with inclusive integer corners.
#[derive(Clone, Copy, Debug, PartialEq, Eq, Structural)]
pub struct Aabb {
    pub min_x: i64,
    pub min_y: i64,
    pub max_x: i64,
    pub max_y: i64,
}

/// One bucket entry of a grid: entity `id` is listed in cell `(cx, cy)`.
pub struct Membership {
    pub cx: int,
    pub cy: int,
    pub id: usize,
}

/// The index, along one axis, of the cell that holds `coord`: the floor of
/// `coord / cell_size`.
pub open spec fn cell_of(coord: int, cell_size: int) -> int {
    coord / cell_size
}

impl Aabb {
    /// The two boxes share at least one point.
    pub open spec fn intersects(self, other: Aabb) -> bool {
        &&& self.min_x <= self.max_x
        &&& self.min_y <= self.max_y
        &&& other.min_x <= other.max_x
        &&& other.min_y <= other.max_y
        &&& self.min_x <= other.max_x
        &&& other.min_x <= self.max_x
        &&& self.min_y <= other.max_y
        &&& other.min_y <= self.max_y
    }

    /// Cell `(cx, cy)` lies in the rectangular span of cells that the box
    /// touches on a grid of the given cell size.
    pub open spec fn covers_cell(self, cell_size: int, cx: int, cy: int) -> bool {
        &&& cell_of(self.min_x as int, cell_size) <= cx <= cell_of(self.max_x as int, cell_size)
        &&& cell_of(self.min_y as int, cell_size) <= cy <= cell_of(self.max_y as int, cell_size)
    }

    /// Every bucket entry that inserting the box under `id` creates.
    pub open spec fn footprint(self, id: usize, cell_size: int) -> Set<Membership> {
        Set::new(|m: Membership| m.id == id && self.covers_cell(cell_size, m.cx, m.cy))
    }
}

/// The ids that `entries` lists in at least one cell that the query box
/// touches on a grid of the given cell size.
pub open spec fn candidates_among(entries: Set<Membership>, cell_size: int, aabb: Aabb) -> Set<
    usize,
> {
    Set::new(
        |id: usize|
            exists|cx: int, cy: int|
                aabb.covers_cell(cell_size, cx, cy) && entries.contains(Membership { cx, cy, id }),
    )
}

/// Computes the cell index of a coordinate without leaving `i64`.
pub fn cell_index(coord: i64, cell_size: i64) -> (cell: i64)
    requires
        cell_size > 0,
    ensures
        cell == cell_of(coord as int, cell_size as int),
{
    if coord >= 0 {
        coord / cell_size
    } else {
        let below: i64 = -(coord + 1);
        let q: i64 = below / cell_size;
        proof {
            let d = cell_size as int;
            let r = (below as int) % d;
            lemma_fundamental_div_mod(below as int, d);
            lemma_mod_bound(below as int, d);
            assert(coord as int == (-(q as int) - 1) * d + (d - 1 - r)) by (nonlinear_arith)
                requires
                    below as int == d * (q as int) + r,
                    coord as int == -(below as int) - 1,
            ;
            lemma_fundamental_div_mod_converse(coord as int, d, -(q as int) - 1, d - 1 - r);
        }
        -q - 1
    }
}

spec fn in_i64(v: int) -> bool {
    i64::MIN <= v <= i64::MAX
}

/// Packs a cell's two indices into one map key, injectively over `i64` pairs.
spec fn cell_key(cx: int, cy: int) -> int {
    cx * 0x1_0000_0000_0000_0000 + (cy + 0x8000_0000_0000_0000)
}

fn pack_cell(cx: i64, cy: i64) -> (key: i128)
    ensures
        key == cell_key(cx as int, cy as int),
{
    (cx as i128) * 0x1_0000_0000_0000_0000i128 + ((cy as i128) + 0x8000_0000_0000_0000i128)
}

proof fn lemma_cell_key_injective(ax: int, ay: int, bx: int, by: int)
    requires
        in_i64(ax),
        in_i64(ay),
        in_i64(bx),
        in_i64(by),
        cell_key(ax, ay) == cell_key(bx, by),
    ensures
        ax == bx,
        ay == by,
{
}

/// The entries for `id` in the cells of columns `x0..cx` and, in column
/// `cx`, of rows below `cy`; all within rows `y0..=y1`.
spec fn span_prefix(id: usize, x0: int, y0: int, y1: int, cx: int, cy: int) -> Set<Membership> {
    Set::new(
        |m: Membership|
            m.id == id && y0 <= m.cy <= y1 && (x0 <= m.cx < cx || (m.cx == cx && m.cy < cy)),
    )
}

/// Appends to `out`, in order, the ids of `listed` that `seen` does not
/// hold yet, and records them in `seen`.
fn collect_new(listed: &Vec<usize>, seen: &mut HashSet<usize>, out: &mut Vec<usize>)
    requires
        old(out)@.no_duplicates(),
        old(out)@.to_set() == old(seen)@,
    ensures
        final(out)@.no_duplicates(),
        final(out)@.to_set() == final(seen)@,
        final(seen)@ == old(seen)@.union(listed@.to_set()),
{
    broadcast use group_hash_axioms;

    let mut k: usize = 0;
    while k < listed.len()
        invariant
            k <= listed.len(),
            out@.no_duplicates(),
            out@.to_set() == seen@,
            seen@ == old(seen)@.union(listed@.take(k as int).to_set()),
        decreases listed.len() - k,
    {
        let id: usize = listed[k];
        let ghost seen_before = seen@;
        let ghost out_before = out@;
        let fresh = seen.insert(id);
        if fresh {
            out.push(id);
            proof {
                assert(!out_before.contains(id));
                assert forall|i: int, j: int| 0 <= i < j < out@.len() implies out@[i] != out@[j] by {
                    if j == out_before.len() {
                        assert(out_before[i] == out@[i]);
                    } else {
                        assert(out_before[i] == out@[i]);
                        assert(out_before[j] == out@[j]);
                    }
                }
                assert forall|v: usize| out@.to_set().contains(v) <==> seen@.contains(v) by {
                    if out@.contains(v) {
                        let i = choose|i: int| 0 <= i < out@.len() && out@[i] == v;
                        if i < out_before.len() {
                            assert(out_before[i] == v);
                            assert(out_before.to_set().contains(v));
                        }
                    }
                    if seen@.contains(v) {
                        if v == id {
                            assert(out@[out_before.len() as int] == v);
                        } else {
                            assert(out_before.to_set().contains(v));
                            let i = choose|i: int| 0 <= i < out_before.len() && out_before[i] == v;
                            assert(out@[i] == v);
                        }
                    }
                }
                assert(out@.to_set() =~= seen@);
            }
        }
        proof {
            let head = listed@.take(k as int);
            let grown = listed@.take(k + 1);
            assert forall|v: usize| grown.to_set().contains(v) <==> head.to_set().insert(id).contains(v) by {
                if grown.contains(v) {
                    let i = choose|i: int| 0 <= i < grown.len() && grown[i] == v;
                    if i < k {
                        assert(head[i] == v);
                    }
                }
                if head.contains(v) {
                    let i = choose|i: int| 0 <= i < head.len() && head[i] == v;
                    assert(grown[i] == v);
                }
                if v == id {
                    assert(grown[k as int] == id);
                }
            }
            assert(grown.to_set() =~= head.to_set().insert(id));
            assert(seen@ =~= old(seen)@.union(grown.to_set()));
        }
        k = k + 1;
    }
    assert(listed@.take(listed.len() as int) =~= listed@);
}

/// The broad-phase index: ids bucketed by the cells that their boxes touch.
pub struct SpatialHashGrid {
    cell_size: i64,
    cells: HashMap<i128, Vec<usize>>,
}

impl View for SpatialHashGrid {
    type V = Set<Membership>;

    /// The grid as the set of its bucket entries.
    closed spec fn view(&self) -> Set<Membership> {
        Set::new(
            |m: Membership| in_i64(m.cx) && in_i64(m.cy) && self.bucket(m.cx, m.cy).contains(m.id),
        )
    }
}

impl SpatialHashGrid {
    /// The edge length of a cell.
    pub closed spec fn spec_cell_size(&self) -> int {
        self.cell_size as int
    }

    /// The grid's invariant: cells have a positive size.
    pub closed spec fn wf(&self) -> bool {
        self.cell_size > 0
    }

    spec fn bucket(&self, cx: int, cy: int) -> Seq<usize> {
        let key = cell_key(cx, cy) as i128;
        if self.cells@.contains_key(key) {
            self.cells@[key]@
        } else {
            Seq::empty()
        }
    }

    /// The box was inserted under `id`: each cell it touches lists `id`.
    pub open spec fn holds(&self, id: usize, aabb: Aabb) -> bool {
        aabb.footprint(id, self.spec_cell_size()).subset_of(self@)
    }

    /// The ids that share at least one cell with the query box.
    pub open spec fn candidates(&self, aabb: Aabb) -> Set<usize> {
        candidates_among(self@, self.spec_cell_size(), aabb)
    }

    /// An empty grid over cells of the given size.
    pub fn new(cell_size: i64) -> (grid: Self)
        requires
            cell_size > 0,
        ensures
            grid.wf(),
            grid.spec_cell_size() == cell_size,
            grid@ == Set::<Membership>::empty(),
    {
        broadcast use group_hash_axioms;

        let grid = SpatialHashGrid { cell_size, cells: HashMap::new() };
        assert(grid@ =~= Set::<Membership>::empty());
        grid
    }

    /// Lists `id` in the one cell `(cx, cy)`.
    fn list_in_cell(&mut self, cx: i64, cy: i64, id: usize)
        requires
            old(self).wf(),
        ensures
            final(self).wf(),
            final(self).spec_cell_size() == old(self).spec_cell_size(),
            final(self)@ == old(self)@.insert(Membership { cx: cx as int, cy: cy as int, id }),
    {
        broadcast use group_hash_axioms;

        let key = pack_cell(cx, cy);
        let mut ids: Vec<usize> = match self.cells.remove(&key) {
            Some(ids) => ids,
            None => Vec::new(),
        };
        let ghost before = ids@;
        ids.push(id);
        self.cells.insert(key, ids);
        proof {
            assert(old(self).bucket(cx as int, cy as int) == before);
            assert(self.bucket(cx as int, cy as int) == before.push(id));
            assert forall|m: Membership|
                self@.contains(m) <==> #[trigger] old(self)@.insert(
                    Membership { cx: cx as int, cy: cy as int, id },
                ).contains(m) by {
                if in_i64(m.cx) && in_i64(m.cy) {
                    if m.cx == cx && m.cy == cy {
                        if m.id == id {
                            assert(before.push(id)[before.len() as int] == id);
                        } else if before.contains(m.id) {
                            let i = choose|i: int| 0 <= i < before.len() && before[i] == m.id;
                            assert(before.push(id)[i] == m.id);
                        }
                    } else {
                        if cell_key(m.cx, m.cy) == cell_key(cx as int, cy as int) {
                            lemma_cell_key_injective(m.cx, m.cy, cx as int, cy as int);
                        }
                        assert(self.bucket(m.cx, m.cy) == old(self).bucket(m.cx, m.cy));
                    }
                }
            }
            assert(self@ =~= old(self)@.insert(Membership { cx: cx as int, cy: cy as int, id }));
        }
    }

    /// Buckets `id` into every cell that `aabb` touches. A box whose
    /// maximum lies below its minimum touches no cell.
    pub fn insert_with_aabb(&mut self, id: usize, aabb: Aabb)
        requires
            old(self).wf(),
        ensures
            final(self).wf(),
            final(self).spec_cell_size() == old(self).spec_cell_size(),
            final(self)@ == old(self)@.union(aabb.footprint(id, old(self).spec_cell_size())),
            final(self).holds(id, aabb),
            forall|other: usize, other_box: Aabb|
                old(self).holds(other, other_box) ==> final(self).holds(other, other_box),
    {
        let x0: i64 = cell_index(aabb.min_x, self.cell_size);
        let x1: i64 = cell_index(aabb.max_x, self.cell_size);
        let y0: i64 = cell_index(aabb.min_y, self.cell_size);
        let y1: i64 = cell_index(aabb.max_y, self.cell_size);
        let ghost before = self@;
        let ghost size = self.spec_cell_size();
        let mut cx: i128 = x0 as i128;
        while cx <= x1 as i128
            invariant
                self.wf(),
                self.spec_cell_size() == size,
                x0 <= cx,
                x0 <= x1 ==> cx <= x1 + 1,
                x0 > x1 ==> cx == x0,
                self@ == before.union(span_prefix(id, x0 as int, y0 as int, y1 as int, cx as int, y0 as int)),
            decreases x1 - cx + 1,
        {
            let mut cy: i128 = y0 as i128;
            while cy <= y1 as i128
                invariant
                    self.wf(),
                    self.spec_cell_size() == size,
                    x0 <= cx <= x1,
                    y0 <= cy,
                    y0 <= y1 ==> cy <= y1 + 1,
                    y0 > y1 ==> cy == y0,
                    self@ == before.union(
                        span_prefix(id, x0 as int, y0 as int, y1 as int, cx as int, cy as int),
                    ),
                decreases y1 - cy + 1,
            {
                self.list_in_cell(cx as i64, cy as i64, id);
                assert(self@ =~= before.union(
                    span_prefix(id, x0 as int, y0 as int, y1 as int, cx as int, cy + 1),
                ));
                cy = cy + 1;
            }
            assert(self@ =~= before.union(
                span_prefix(id, x0 as int, y0 as int, y1 as int, cx + 1, y0 as int),
            ));
            cx = cx + 1;
        }
        assert(self@ =~= before.union(aabb.footprint(id, size)));
    }

    /// The ids listed in the cells of columns `x0..cx` and, in column `cx`,
    /// of rows below `cy`; all within rows `y0..=y1`.
    spec fn hits_before(&self, x0: int, y0: int, y1: int, cx: int, cy: int) -> Set<usize> {
        Set::new(
            |id: usize|
                exists|c: int, d: int|
                    #[trigger] self@.contains(Membership { cx: c, cy: d, id }) && y0 <= d <= y1 && (
                    x0 <= c < cx || (c == cx && d < cy)),
        )
    }

    proof fn lemma_hits_step(&self, x0: int, y0: int, y1: int, cx: int, cy: int)
        requires
            in_i64(cx),
            in_i64(cy),
            x0 <= cx,
            y0 <= cy <= y1,
        ensures
            self.hits_before(x0, y0, y1, cx, cy + 1) == self.hits_before(x0, y0, y1, cx, cy).union(
                self.bucket(cx, cy).to_set(),
            ),
    {
        let next = self.hits_before(x0, y0, y1, cx, cy + 1);
        let prev = self.hits_before(x0, y0, y1, cx, cy);
        let here = self.bucket(cx, cy).to_set();
        assert forall|id: usize| next.contains(id) <==> #[trigger] prev.union(here).contains(
            id,
        ) by {
            if next.contains(id) {
                let (c, d) = choose|c: int, d: int|
                    #[trigger] self@.contains(Membership { cx: c, cy: d, id }) && y0 <= d <= y1 && (
                    x0 <= c < cx || (c == cx && d < cy + 1));
                if c == cx && d == cy {
                    assert(here.contains(id));
                } else {
                    assert(self@.contains(Membership { cx: c, cy: d, id }));
                    assert(prev.contains(id));
                }
            }
            if prev.contains(id) {
                let (c, d) = choose|c: int, d: int|
                    #[trigger] self@.contains(Membership { cx: c, cy: d, id }) && y0 <= d <= y1 && (
                    x0 <= c < cx || (c == cx && d < cy));
                assert(self@.contains(Membership { cx: c, cy: d, id }));
                assert(next.contains(id));
            }
            if here.contains(id) {
                assert(self@.contains(Membership { cx, cy, id }));
                assert(next.contains(id));
            }
        }
        assert(next =~= prev.union(here));
    }

    proof fn lemma_hits_next_column(&self, x0: int, y0: int, y1: int, cx: int)
        requires
            x0 <= cx,
        ensures
            self.hits_before(x0, y0, y1, cx + 1, y0) == self.hits_before(x0, y0, y1, cx, y1 + 1),
    {
        let next = self.hits_before(x0, y0, y1, cx + 1, y0);
        let prev = self.hits_before(x0, y0, y1, cx, y1 + 1);
        assert forall|id: usize| next.contains(id) <==> prev.contains(id) by {
            if next.contains(id) {
                let (c, d) = choose|c: int, d: int|
                    #[trigger] self@.contains(Membership { cx: c, cy: d, id }) && y0 <= d <= y1 && (
                    x0 <= c < cx + 1 || (c == cx + 1 && d < y0));
                assert(self@.contains(Membership { cx: c, cy: d, id }));
                assert(prev.contains(id));
            }
            if prev.contains(id) {
                let (c, d) = choose|c: int, d: int|
                    #[trigger] self@.contains(Membership { cx: c, cy: d, id }) && y0 <= d <= y1 && (
                    x0 <= c < cx || (c == cx && d < y1 + 1));
                assert(self@.contains(Membership { cx: c, cy: d, id }));
                assert(next.contains(id));
            }
        }
        assert(next =~= prev);
    }

    proof fn lemma_hits_all(&self, aabb: Aabb, x0: int, x1: int, y0: int, y1: int, cx: int)
        requires
            x0 == cell_of(aabb.min_x as int, self.spec_cell_size()),
            x1 == cell_of(aabb.max_x as int, self.spec_cell_size()),
            y0 == cell_of(aabb.min_y as int, self.spec_cell_size()),
            y1 == cell_of(aabb.max_y as int, self.spec_cell_size()),
            x0 <= x1 ==> cx == x1 + 1,
            x0 > x1 ==> cx == x0,
        ensures
            self.hits_before(x0, y0, y1, cx, y0) == self.candidates(aabb),
    {
        let hits = self.hits_before(x0, y0, y1, cx, y0);
        let all = self.candidates(aabb);
        assert forall|id: usize| hits.contains(id) <==> all.contains(id) by {
            if hits.contains(id) {
                let (c, d) = choose|c: int, d: int|
                    #[trigger] self@.contains(Membership { cx: c, cy: d, id }) && y0 <= d <= y1 && (
                    x0 <= c < cx || (c == cx && d < y0));
                assert(aabb.covers_cell(self.spec_cell_size(), c, d));
                assert(all.contains(id));
            }
            if all.contains(id) {
                let (c, d) = choose|c: int, d: int|
                    aabb.covers_cell(self.spec_cell_size(), c, d) && self@.contains(
                        Membership { cx: c, cy: d, id },
                    );
                assert(self@.contains(Membership { cx: c, cy: d, id }));
                assert(hits.contains(id));
            }
        }
        assert(hits =~= all);
    }

    /// Returns, each once and in no stated order, the ids that share at
    /// least one cell with `aabb`.
    pub fn get_for_aabb(&self, aabb: Aabb) -> (ids: Vec<usize>)
        requires
            self.wf(),
        ensures
            ids@.no_duplicates(),
            ids@.to_set() == self.candidates(aabb),
    {
        broadcast use group_hash_axioms;

        let x0: i64 = cell_index(aabb.min_x, self.cell_size);
        let x1: i64 = cell_index(aabb.max_x, self.cell_size);
        let y0: i64 = cell_index(aabb.min_y, self.cell_size);
        let y1: i64 = cell_index(aabb.max_y, self.cell_size);
        let mut seen: HashSet<usize> = HashSet::new();
        let mut ids: Vec<usize> = Vec::new();
        assert(ids@.to_set() =~= seen@);
        assert(seen@ =~= self.hits_before(x0 as int, y0 as int, y1 as int, x0 as int, y0 as int));
        let mut cx: i128 = x0 as i128;
        while cx <= x1 as i128
            invariant
                self.wf(),
                x0 <= cx,
                x0 <= x1 ==> cx <= x1 + 1,
                x0 > x1 ==> cx == x0,
                ids@.no_duplicates(),
                ids@.to_set() == seen@,
                seen@ == self.hits_before(x0 as int, y0 as int, y1 as int, cx as int, y0 as int),
            decreases x1 - cx + 1,
        {
            let mut cy: i128 = y0 as i128;
            while cy <= y1 as i128
                invariant
                    self.wf(),
                    x0 <= cx <= x1,
                    y0 <= cy,
                    y0 <= y1 ==> cy <= y1 + 1,
                    y0 > y1 ==> cy == y0,
                    ids@.no_duplicates(),
                    ids@.to_set() == seen@,
                    seen@ == self.hits_before(
                        x0 as int,
                        y0 as int,
                        y1 as int,
                        cx as int,
                        cy as int,
                    ),
                decreases y1 - cy + 1,
            {
                let key = pack_cell(cx as i64, cy as i64);
                proof {
                    self.lemma_hits_step(x0 as int, y0 as int, y1 as int, cx as int, cy as int);
                }
                match self.cells.get(&key) {
                    Some(listed) => {
                        collect_new(listed, &mut seen, &mut ids);
                    },
                    None => {
                        assert(seen@ =~= seen@.union(Seq::<usize>::empty().to_set()));
                    },
                }
                cy = cy + 1;
            }
            proof {
                if y0 <= y1 {
                    self.lemma_hits_next_column(x0 as int, y0 as int, y1 as int, cx as int);
                } else {
                    assert(self.hits_before(x0 as int, y0 as int, y1 as int, cx + 1, y0 as int)
                        =~= self.hits_before(x0 as int, y0 as int, y1 as int, cx as int, y0 as int));
                }
            }
            cx = cx + 1;
        }
        proof {
            self.lemma_hits_all(aabb, x0 as int, x1 as int, y0 as int, y1 as int, cx as int);
        }
        ids
    }

    /// The edge length of a cell.
    pub fn cell_size(&self) -> (size: i64)
        ensures
            size == self.spec_cell_size(),
    {
        self.cell_size
    }
}

/// The cell that holds the lower corner of the overlap of two intersecting
/// boxes is touched by both.
pub proof fn lemma_intersecting_boxes_share_a_cell(a: Aabb, b: Aabb, cell_size: int) -> (cell: (
    int,
    int,
))
    requires
        cell_size > 0,
        a.intersects(b),
    ensures
        a.covers_cell(cell_size, cell.0, cell.1),
        b.covers_cell(cell_size, cell.0, cell.1),
{
    let x: int = if a.min_x >= b.min_x {
        a.min_x as int
    } else {
        b.min_x as int
    };
    let y: int = if a.min_y >= b.min_y {
        a.min_y as int
    } else {
        b.min_y as int
    };
    lemma_div_is_ordered(a.min_x as int, x, cell_size);
    lemma_div_is_ordered(b.min_x as int, x, cell_size);
    lemma_div_is_ordered(x, a.max_x as int, cell_size);
    lemma_div_is_ordered(x, b.max_x as int, cell_size);
    lemma_div_is_ordered(a.min_y as int, y, cell_size);
    lemma_div_is_ordered(b.min_y as int, y, cell_size);
    lemma_div_is_ordered(y, a.max_y as int, cell_size);
    lemma_div_is_ordered(y, b.max_y as int, cell_size);
    (cell_of(x, cell_size), cell_of(y, cell_size))
}

/// A query misses no box that intersects it: an entity whose inserted box
/// intersects the query box is among the candidates.
pub proof fn lemma_query_finds_every_intersecting_box(
    grid: SpatialHashGrid,
    id: usize,
    inserted: Aabb,
    query: Aabb,
)
    requires
        grid.wf(),
        grid.holds(id, inserted),
        inserted.intersects(query),
    ensures
        grid.candidates(query).contains(id),
{
    let size = grid.spec_cell_size();
    let (cx, cy) = lemma_intersecting_boxes_share_a_cell(inserted, query, size);
    assert(inserted.footprint(id, size).contains(Membership { cx, cy, id }));
    assert(grid@.contains(Membership { cx, cy, id }));
}

/// Completeness of the broad phase: when two boxes intersect and both were
/// inserted into one grid, each entity is among the candidates that a query
/// with the other's box returns. The grid gives no false negatives.
pub proof fn lemma_intersecting_boxes_are_candidates(
    grid: SpatialHashGrid,
    id_a: usize,
    a: Aabb,
    id_b: usize,
    b: Aabb,
)
    requires
        grid.wf(),
        a.intersects(b),
        grid.holds(id_a, a),
        grid.holds(id_b, b),
    ensures
        grid.candidates(a).contains(id_b),
        grid.candidates(b).contains(id_a),
{
    lemma_query_finds_every_intersecting_box(grid, id_b, b, a);
    lemma_query_finds_every_intersecting_box(grid, id_a, a, b);
}

} // verus!

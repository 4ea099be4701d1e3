//! Budget-constrained reachability on a square grid.
//!
//! [`PossibleMoves::new`] runs a cost-bounded expansion from a start cell
//! and returns every cell that can be reached without the movement budget
//! going negative, together with the remaining budget at arrival and a
//! path that witnesses it.  Membership, the remaining budgets and the
//! stored paths are all pinned down by the contract: a cell is contained
//! exactly when some admissible path of affordable cost ends there, and
//! the recorded remaining budget is the best over all such paths.

use vstd::prelude::*;

use crate::terrain::MoveCost;

verus! {

/// A cell of the grid: an ordered pair of non-negative coordinates.
#[derive(Clone, Copy, PartialEq, Eq, Structural, Debug)]
pub struct GridCoord(pub u16, pub u16);

/// A movement budget, in whole movement points.
#[derive(Clone, Copy, PartialEq, Eq, Structural, Debug)]
pub struct MoveUnit(pub u16);

impl MoveUnit {
    /// Subtraction that bottoms out at zero: a cost larger than the
    /// remaining budget leaves nothing rather than going negative.
    pub fn saturating_sub(self, other: MoveUnit) -> (r: MoveUnit)
        ensures
            r.0 == if self.0 >= other.0 {
                (self.0 - other.0) as u16
            } else {
                0u16
            },
    {
        if self.0 >= other.0 {
            MoveUnit(self.0 - other.0)
        } else {
            MoveUnit(0)
        }
    }
}

/// The adjacency rule used by every unit: four-directional steps within
/// a bounded square grid.
#[derive(Clone, Copy, PartialEq, Eq, Structural, Debug)]
pub struct WarriorMovement {
    pub width: u16,
    pub height: u16,
}

impl WarriorMovement {
    pub open spec fn in_bounds(self, c: GridCoord) -> bool {
        c.0 < self.width && c.1 < self.height
    }

    /// `b` can be entered in one step from `a`.
    pub open spec fn adjacent(self, a: GridCoord, b: GridCoord) -> bool {
        &&& self.in_bounds(a)
        &&& self.in_bounds(b)
        &&& {
            ||| (b.0 == a.0 + 1 && b.1 == a.1)
            ||| (a.0 == b.0 + 1 && b.1 == a.1)
            ||| (b.1 == a.1 + 1 && b.0 == a.0)
            ||| (a.1 == b.1 + 1 && b.0 == a.0)
        }
    }

    /// `true` exactly when the cell lies on the grid.
    pub fn contains(&self, c: &GridCoord) -> (r: bool)
        ensures
            r == self.in_bounds(*c),
    {
        c.0 < self.width && c.1 < self.height
    }

    /// `true` exactly when `b` is one admissible step away from `a`.
    pub fn is_adjacent(&self, a: &GridCoord, b: &GridCoord) -> (r: bool)
        ensures
            r == self.adjacent(*a, *b),
    {
        if !(a.0 < self.width && a.1 < self.height) {
            return false;
        }
        if !(b.0 < self.width && b.1 < self.height) {
            return false;
        }
        (b.0 == a.0 + 1 && b.1 == a.1) || (a.0 == b.0 + 1 && b.1 == a.1) || (b.1 == a.1 + 1 && b.0
            == a.0) || (a.1 == b.1 + 1 && b.0 == a.0)
    }
}

/// An occupancy filter: decides whether a cell may be entered.
pub trait Filter: Sized {
    /// What the filter lets through.
    spec fn allows(&self, a: GridCoord) -> bool;

    /// `true` exactly when the cell may be entered.
    fn filter(&self, a: &GridCoord) -> (r: bool)
        ensures
            r == self.allows(*a),
    ;
}

/// The conjunction of two filters.
pub struct FilterChain<A, B> {
    pub first: A,
    pub second: B,
}

impl<A: Filter, B: Filter> FilterChain<A, B> {
    /// Combine two filters: a cell passes only if both let it through.
    pub fn new(first: A, second: B) -> (r: Self)
        ensures
            r.first == first,
            r.second == second,
    {
        FilterChain { first, second }
    }
}

impl<A: Filter, B: Filter> Filter for FilterChain<A, B> {
    open spec fn allows(&self, a: GridCoord) -> bool {
        self.first.allows(a) && self.second.allows(a)
    }

    fn filter(&self, a: &GridCoord) -> (r: bool) {
        self.first.filter(a) && self.second.filter(a)
    }
}

/// Combining two occupancy filters is order-independent: either order
/// lets exactly the same cells through.
pub proof fn lemma_filter_chain_commutes<A: Filter, B: Filter>(
    x: FilterChain<A, B>,
    y: FilterChain<B, A>,
)
    requires
        x.first == y.second,
        x.second == y.first,
    ensures
        forall|c: GridCoord| x.allows(c) == y.allows(c),
{
}

/// The cell a path arrives at: the start itself for the empty path.
pub open spec fn path_end(start: GridCoord, path: Seq<GridCoord>) -> GridCoord {
    if path.len() == 0 {
        start
    } else {
        path.last()
    }
}

/// Total cost of entering, in turn, every cell of the path.
pub open spec fn path_cost<T: MoveCost>(t: &T, path: Seq<GridCoord>) -> int
    decreases path.len(),
{
    if path.len() == 0 {
        0
    } else {
        path_cost(t, path.drop_last()) + t.cost(path.last())
    }
}

/// An admissible path from `start`: every step obeys the adjacency rule
/// and every entered cell passes the filter.
pub open spec fn path_ok<F: Filter>(
    rule: WarriorMovement,
    f: &F,
    start: GridCoord,
    path: Seq<GridCoord>,
) -> bool
    decreases path.len(),
{
    if path.len() == 0 {
        true
    } else {
        &&& path_ok(rule, f, start, path.drop_last())
        &&& rule.adjacent(path_end(start, path.drop_last()), path.last())
        &&& f.allows(path.last())
    }
}

/// Some admissible path of affordable total cost ends at `c`.
pub open spec fn reachable<F: Filter, T: MoveCost>(
    rule: WarriorMovement,
    f: &F,
    t: &T,
    start: GridCoord,
    budget: MoveUnit,
    c: GridCoord,
) -> bool {
    exists|p: Seq<GridCoord>|
        #![trigger path_ok(rule, f, start, p)]
        path_ok(rule, f, start, p) && path_end(start, p) == c && path_cost(t, p) <= budget.0
}

/// One reachable cell: the remaining budget on arrival and a witnessing
/// path from the start cell (the start itself excluded, the cell itself
/// last).
struct PathEntry {
    coord: GridCoord,
    rem: u16,
    path: Vec<GridCoord>,
}

/// The outcome of a reachability search: every cell obtainable from the
/// start under the budget, with the best remaining budget and a path
/// that realises it.
pub struct PossibleMoves {
    start: GridCoord,
    budget: u16,
    moves: Vec<PathEntry>,
}

impl PossibleMoves {
    /// No two recorded cells coincide, and the first record is the start
    /// itself with the full budget and the empty path.
    #[verifier::type_invariant]
    spec fn well_formed(&self) -> bool {
        &&& self.moves@.len() >= 1
        &&& self.moves@[0].coord == self.start
        &&& self.moves@[0].rem == self.budget
        &&& self.moves@[0].path@ == Seq::<GridCoord>::empty()
        &&& coords_distinct(self.moves@)
    }

    /// The cell the search was rooted at.
    pub closed spec fn start_spec(&self) -> GridCoord {
        self.start
    }

    /// The movement budget the search was run with.
    pub closed spec fn budget_spec(&self) -> u16 {
        self.budget
    }

    /// The cell is part of the result.
    pub closed spec fn contains_spec(&self, c: GridCoord) -> bool {
        exists|i: int| 0 <= i < self.moves@.len() && (#[trigger] self.moves@[i]).coord == c
    }

    /// Index of the record for `c`; meaningful only when `contains_spec(c)`.
    closed spec fn entry_index(&self, c: GridCoord) -> int {
        choose|i: int| 0 <= i < self.moves@.len() && (#[trigger] self.moves@[i]).coord == c
    }

    /// Remaining budget on arrival at `c`; meaningful only when
    /// `contains_spec(c)`.
    pub closed spec fn rem_spec(&self, c: GridCoord) -> u16 {
        self.moves@[self.entry_index(c)].rem
    }

    /// The recorded path to `c`; meaningful only when `contains_spec(c)`.
    pub closed spec fn path_spec(&self, c: GridCoord) -> Seq<GridCoord> {
        self.moves@[self.entry_index(c)].path@
    }

    proof fn lemma_entry_index(&self, c: GridCoord)
        requires
            self.contains_spec(c),
        ensures
            0 <= self.entry_index(c) < self.moves@.len(),
            self.moves@[self.entry_index(c)].coord == c,
    {
    }
}

/// No two entries record the same cell.
spec fn coords_distinct(s: Seq<PathEntry>) -> bool {
    forall|i: int, j: int|
        0 <= i < j < s.len() ==> (#[trigger] s[i]).coord != (#[trigger] s[j]).coord
}

/// The entry records an admissible path ending at its cell, whose cost
/// is exactly what the recorded remaining budget says.
spec fn entry_ok<F: Filter, T: MoveCost>(
    rule: WarriorMovement,
    f: &F,
    t: &T,
    start: GridCoord,
    budget: u16,
    e: PathEntry,
) -> bool {
    &&& path_ok(rule, f, start, e.path@)
    &&& path_end(start, e.path@) == e.coord
    &&& e.rem <= budget
    &&& path_cost(t, e.path@) == budget - e.rem
}

/// Everything the search maintains about its entry table.
spec fn search_entries_ok<F: Filter, T: MoveCost>(
    rule: WarriorMovement,
    f: &F,
    t: &T,
    start: GridCoord,
    budget: u16,
    s: Seq<PathEntry>,
) -> bool {
    &&& s.len() >= 1
    &&& s[0].coord == start
    &&& s[0].rem == budget
    &&& s[0].path@ == Seq::<GridCoord>::empty()
    &&& forall|i: int|
        #![trigger s[i]]
        0 <= i < s.len() ==> entry_ok(rule, f, t, start, budget, s[i]) && (s[i].coord == start
            || rule.in_bounds(s[i].coord))
    &&& coords_distinct(s)
}

/// `s2` extends `s1`: same cells at the same indices, remaining budgets
/// only improved, possibly more cells at the end.
spec fn grows(s1: Seq<PathEntry>, s2: Seq<PathEntry>) -> bool {
    &&& s1.len() <= s2.len()
    &&& forall|i: int| #![trigger s2[i]] 0 <= i < s1.len() ==> s2[i].coord == s1[i].coord
    &&& forall|i: int| #![trigger s2[i]] 0 <= i < s1.len() ==> s2[i].rem >= s1[i].rem
}

/// Entry index `i` occurs somewhere on the worklist.
spec fn in_worklist(wl: Seq<usize>, i: int) -> bool {
    exists|k: int| 0 <= k < wl.len() && (#[trigger] wl[k]) as int == i
}

/// Some entry records cell `n` with at least `r` remaining budget.
spec fn has_entry(s: Seq<PathEntry>, n: GridCoord, r: int) -> bool {
    exists|j: int| 0 <= j < s.len() && (#[trigger] s[j]).coord == n && s[j].rem >= r
}

/// Entry `i` is fully relaxed: each affordable, admissible neighbour is
/// already recorded at least as well as stepping there from `i` would.
spec fn closed_at<F: Filter, T: MoveCost>(
    rule: WarriorMovement,
    f: &F,
    t: &T,
    s: Seq<PathEntry>,
    i: int,
) -> bool {
    forall|n: GridCoord|
        #![trigger rule.adjacent(s[i].coord, n)]
        rule.adjacent(s[i].coord, n) && f.allows(n) && t.cost(n) <= s[i].rem ==> has_entry(
            s,
            n,
            s[i].rem - t.cost(n),
        )
}

/// The table/worklist transition a relaxation makes: the table grows,
/// the worklist is only appended to, every changed or new entry is on
/// the worklist, and the worklist grows no faster than the total
/// recorded budget improves.
spec fn relax_step(m1: Seq<PathEntry>, w1: Seq<usize>, m2: Seq<PathEntry>, w2: Seq<usize>) -> bool {
    &&& grows(m1, m2)
    &&& w1.len() <= w2.len()
    &&& forall|k: int| #![trigger w2[k]] 0 <= k < w1.len() ==> w2[k] == w1[k]
    &&& forall|i: int|
        #![trigger in_worklist(w2, i)]
        0 <= i < m2.len() && !(i < m1.len() && m2[i].rem == m1[i].rem) ==> in_worklist(w2, i)
    &&& total_rem(m1) <= total_rem(m2)
    &&& w2.len() - w1.len() <= total_rem(m2) - total_rem(m1)
}

/// One more than the remaining budget, summed over all entries; the
/// potential against which the worklist is paid for.
spec fn total_rem(s: Seq<PathEntry>) -> int
    decreases s.len(),
{
    if s.len() == 0 {
        0
    } else {
        total_rem(s.drop_last()) + s.last().rem + 1
    }
}

proof fn lemma_total_rem_push(s: Seq<PathEntry>, e: PathEntry)
    ensures
        total_rem(s.push(e)) == total_rem(s) + e.rem + 1,
{
    assert(s.push(e).drop_last() =~= s);
    assert(s.push(e).last() == e);
}

proof fn lemma_total_rem_update(s: Seq<PathEntry>, i: int, e: PathEntry)
    requires
        0 <= i < s.len(),
    ensures
        total_rem(s.update(i, e)) == total_rem(s) + e.rem - s[i].rem,
    decreases s.len(),
{
    if i == s.len() - 1 {
        assert(s.update(i, e).drop_last() =~= s.drop_last());
        assert(s.update(i, e).last() == e);
    } else {
        assert(s.update(i, e).drop_last() =~= s.drop_last().update(i, e));
        assert(s.update(i, e).last() == s.last());
        lemma_total_rem_update(s.drop_last(), i, e);
    }
}

proof fn lemma_total_rem_bound(s: Seq<PathEntry>, b: int)
    requires
        b >= 0,
        forall|i: int| 0 <= i < s.len() ==> (#[trigger] s[i]).rem <= b,
    ensures
        0 <= total_rem(s) <= s.len() * (b + 1),
    decreases s.len(),
{
    if s.len() == 0 {
    } else {
        lemma_total_rem_bound(s.drop_last(), b);
        assert(s.last().rem <= b);
        assert((s.len() - 1) * (b + 1) + (b + 1) == s.len() * (b + 1)) by (nonlinear_arith);
    }
}

/// Cell encoding for the cardinality argument: in-bounds cells get their
/// row-major index, anything else (only ever the start) the one index
/// past the grid.
spec fn enc(rule: WarriorMovement, c: GridCoord) -> int {
    if rule.in_bounds(c) {
        c.1 * rule.width + c.0
    } else {
        rule.width * rule.height
    }
}

proof fn lemma_enc_range(rule: WarriorMovement, c: GridCoord)
    requires
        rule.in_bounds(c),
    ensures
        0 <= enc(rule, c) < rule.width * rule.height,
{
    assert(c.1 * rule.width + c.0 < rule.width * rule.height) by (nonlinear_arith)
        requires
            c.0 < rule.width,
            c.1 < rule.height,
    ;
    assert(c.1 * rule.width + c.0 >= 0) by (nonlinear_arith)
        requires
            c.0 >= 0,
            c.1 >= 0,
            rule.width >= 0,
    ;
}

proof fn lemma_enc_injective(rule: WarriorMovement, c: GridCoord, d: GridCoord)
    requires
        rule.in_bounds(c),
        rule.in_bounds(d),
        enc(rule, c) == enc(rule, d),
    ensures
        c == d,
{
    assert(c.0 == d.0 && c.1 == d.1) by (nonlinear_arith)
        requires
            c.0 < rule.width,
            d.0 < rule.width,
            c.0 >= 0,
            d.0 >= 0,
            c.1 * rule.width + c.0 == d.1 * rule.width + d.0,
    ;
}

/// Distinct cells that all lie on the grid (or are the start) cannot
/// outnumber the grid cells plus one.
proof fn lemma_entries_bounded(s: Seq<PathEntry>, rule: WarriorMovement, start: GridCoord)
    requires
        coords_distinct(s),
        forall|i: int|
            0 <= i < s.len() ==> (#[trigger] s[i]).coord == start || rule.in_bounds(s[i].coord),
    ensures
        s.len() <= rule.width * rule.height + 1,
{
    let m = Seq::new(s.len(), |i: int| enc(rule, s[i].coord));
    assert forall|i: int, j: int| 0 <= i < m.len() && 0 <= j < m.len() && i != j implies m[i]
        != m[j] by {
        let ci = s[i].coord;
        let cj = s[j].coord;
        assert(ci != cj);
        if rule.in_bounds(ci) && rule.in_bounds(cj) {
            if enc(rule, ci) == enc(rule, cj) {
                lemma_enc_injective(rule, ci, cj);
            }
        } else if rule.in_bounds(ci) {
            lemma_enc_range(rule, ci);
        } else if rule.in_bounds(cj) {
            lemma_enc_range(rule, cj);
        } else {
            assert(ci == start && cj == start);
        }
    }
    assert(m.no_duplicates());
    m.unique_seq_to_set();
    let range = vstd::set_lib::set_int_range(0, rule.width * rule.height + 1);
    vstd::set_lib::lemma_int_range(0, rule.width * rule.height + 1);
    assert forall|x: int| m.to_set().contains(x) implies range.contains(x) by {
        let i = choose|i: int| 0 <= i < m.len() && m[i] == x;
        if rule.in_bounds(s[i].coord) {
            lemma_enc_range(rule, s[i].coord);
        }
    }
    vstd::set_lib::lemma_len_subset(m.to_set(), range);
}

proof fn lemma_has_entry_monotone(s1: Seq<PathEntry>, s2: Seq<PathEntry>, n: GridCoord, r: int)
    requires
        has_entry(s1, n, r),
        grows(s1, s2),
    ensures
        has_entry(s2, n, r),
{
    let j = choose|j: int| 0 <= j < s1.len() && (#[trigger] s1[j]).coord == n && s1[j].rem >= r;
    assert(s2[j].coord == n && s2[j].rem >= r);
}

proof fn lemma_in_worklist_prefix(w1: Seq<usize>, w2: Seq<usize>, i: int)
    requires
        in_worklist(w1, i),
        w1.len() <= w2.len(),
        forall|k: int| 0 <= k < w1.len() ==> w2[k] == w1[k],
    ensures
        in_worklist(w2, i),
{
    let k = choose|k: int| 0 <= k < w1.len() && (#[trigger] w1[k]) as int == i;
    assert(w2[k] as int == i);
}

/// A fully relaxed entry stays fully relaxed while the table only
/// improves elsewhere and its own budget is untouched.
proof fn lemma_closed_monotone<F: Filter, T: MoveCost>(
    rule: WarriorMovement,
    f: &F,
    t: &T,
    s1: Seq<PathEntry>,
    s2: Seq<PathEntry>,
    i: int,
)
    requires
        0 <= i < s1.len(),
        closed_at(rule, f, t, s1, i),
        grows(s1, s2),
        s2[i].rem == s1[i].rem,
    ensures
        closed_at(rule, f, t, s2, i),
{
    assert forall|n: GridCoord|
        rule.adjacent(s2[i].coord, n) && f.allows(n) && t.cost(n) <= s2[i].rem implies has_entry(
        s2,
        n,
        s2[i].rem - t.cost(n),
    ) by {
        assert(rule.adjacent(s1[i].coord, n));
        lemma_has_entry_monotone(s1, s2, n, s1[i].rem - t.cost(n));
    }
}

proof fn lemma_relax_step_trans(
    m1: Seq<PathEntry>,
    w1: Seq<usize>,
    m2: Seq<PathEntry>,
    w2: Seq<usize>,
    m3: Seq<PathEntry>,
    w3: Seq<usize>,
)
    requires
        relax_step(m1, w1, m2, w2),
        relax_step(m2, w2, m3, w3),
    ensures
        relax_step(m1, w1, m3, w3),
{
    assert forall|i: int| #![trigger in_worklist(w3, i)]
        0 <= i < m3.len() && !(i < m1.len() && m3[i].rem == m1[i].rem) implies in_worklist(
        w3,
        i,
    ) by {
        let e3 = m3[i];
        if i < m2.len() && m3[i].rem == m2[i].rem {
            let e2 = m2[i];
            let b2: bool = in_worklist(w2, i);
            assert(in_worklist(w2, i));
            lemma_in_worklist_prefix(w2, w3, i);
        } else {
            assert(in_worklist(w3, i));
        }
    }
}

proof fn lemma_path_cost_nonneg<T: MoveCost>(t: &T, p: Seq<GridCoord>)
    ensures
        path_cost(t, p) >= 0,
    decreases p.len(),
{
    if p.len() > 0 {
        lemma_path_cost_nonneg(t, p.drop_last());
    }
}

/// No prefix of a path costs more than the whole path.
proof fn lemma_path_cost_prefix<T: MoveCost>(t: &T, p: Seq<GridCoord>, k: int)
    requires
        0 <= k <= p.len(),
    ensures
        path_cost(t, p.take(k)) <= path_cost(t, p),
    decreases p.len(),
{
    if k == p.len() {
        assert(p.take(k) =~= p);
    } else {
        assert(p.drop_last().take(k) =~= p.take(k));
        lemma_path_cost_prefix(t, p.drop_last(), k);
    }
}

/// Admissibility of a path depends on the filter only through which
/// cells it lets pass.
proof fn lemma_path_ok_equiv<F1: Filter, F2: Filter>(
    rule: WarriorMovement,
    f1: &F1,
    f2: &F2,
    start: GridCoord,
    p: Seq<GridCoord>,
)
    requires
        forall|c: GridCoord| f1.allows(c) == f2.allows(c),
    ensures
        path_ok(rule, f1, start, p) == path_ok(rule, f2, start, p),
    decreases p.len(),
{
    if p.len() > 0 {
        lemma_path_ok_equiv(rule, f1, f2, start, p.drop_last());
    }
}

/// Index of the entry recording cell `n`, if any.
fn find_entry(moves: &Vec<PathEntry>, n: &GridCoord) -> (r: Option<usize>)
    ensures
        match r {
            Some(j) => (j as int) < moves@.len() && moves@[j as int].coord == *n,
            None => forall|q: int| 0 <= q < moves@.len() ==> (#[trigger] moves@[q]).coord != *n,
        },
{
    let len = moves.len();
    let mut j: usize = 0;
    while j < len
        invariant
            len == moves@.len(),
            j <= len,
            forall|q: int| 0 <= q < j ==> (#[trigger] moves@[q]).coord != *n,
        decreases len - j,
    {
        if moves[j].coord == *n {
            return Some(j);
        }
        j = j + 1;
    }
    None
}

/// Try to improve the table with the step from entry `src` to cell `n`:
/// if the step is admissible and affordable and beats what is recorded
/// for `n`, record it and put the touched entry on the worklist.
fn relax<F: Filter, T: MoveCost>(
    moves: &mut Vec<PathEntry>,
    worklist: &mut Vec<usize>,
    rule: &WarriorMovement,
    f: &F,
    t: &T,
    start: GridCoord,
    budget: MoveUnit,
    src: usize,
    n: GridCoord,
)
    requires
        search_entries_ok(*rule, f, t, start, budget.0, old(moves)@),
        (src as int) < old(moves)@.len(),
        forall|k: int|
            0 <= k < old(worklist)@.len() ==> ((#[trigger] old(worklist)@[k]) as int)
                < old(moves)@.len(),
    ensures
        search_entries_ok(*rule, f, t, start, budget.0, final(moves)@),
        forall|k: int|
            0 <= k < final(worklist)@.len() ==> ((#[trigger] final(worklist)@[k]) as int)
                < final(moves)@.len(),
        relax_step(old(moves)@, old(worklist)@, final(moves)@, final(worklist)@),
        final(moves)@[src as int] == old(moves)@[src as int],
        rule.adjacent(old(moves)@[src as int].coord, n) && f.allows(n) && t.cost(n)
            <= old(moves)@[src as int].rem ==> has_entry(
            final(moves)@,
            n,
            old(moves)@[src as int].rem - t.cost(n),
        ),
{
    let ghost m0 = moves@;
    let ghost w0 = worklist@;
    let sc = moves[src].coord;
    let src_rem = moves[src].rem;
    if !rule.is_adjacent(&sc, &n) {
        return ;
    }
    if !f.filter(&n) {
        return ;
    }
    let cost = t.move_cost(&n);
    if cost.0 > src_rem {
        return ;
    }
    let new_rem = src_rem - cost.0;
    proof {
        let e_src = m0[src as int];
        assert(entry_ok(*rule, f, t, start, budget.0, e_src));
    }
    let mut path = moves[src].path.clone();
    path.push(n);
    proof {
        assert(path@ =~= m0[src as int].path@.push(n));
        assert(path@.drop_last() =~= m0[src as int].path@);
        assert(path_ok(*rule, f, start, path@));
        assert(path_cost(t, path@) == budget.0 - new_rem);
    }
    match find_entry(moves, &n) {
        Some(jj) => {
            let jrem = moves[jj].rem;
            proof {
                let e_jj = m0[jj as int];
                assert(entry_ok(*rule, f, t, start, budget.0, e_jj));
            }
            if jrem < new_rem {
                let e = PathEntry { coord: n, rem: new_rem, path };
                let ghost ge = e;
                moves.push(e);
                let _ = moves.swap_remove(jj);
                worklist.push(jj);
                proof {
                    let m4 = moves@;
                    assert(m4 =~= m0.update(jj as int, ge));
                    lemma_total_rem_update(m0, jj as int, ge);
                    assert(jj != src) by {
                        assert(m0[src as int].coord != n);
                    }
                    assert forall|i: int| 0 <= i < m4.len() implies (#[trigger] m4[i]).coord
                        == m0[i].coord by {}
                    assert forall|i: int| 0 <= i < m4.len() implies entry_ok(
                        *rule,
                        f,
                        t,
                        start,
                        budget.0,
                        #[trigger] m4[i],
                    ) && (m4[i].coord == start || rule.in_bounds(m4[i].coord)) by {
                        if i != jj {
                            assert(m4[i] == m0[i]);
                            assert(entry_ok(*rule, f, t, start, budget.0, m0[i]));
                        }
                    }
                    assert(m4[0].coord == start && m4[0].rem == budget.0) by {
                        assert(entry_ok(*rule, f, t, start, budget.0, m0[src as int]));
                        assert(m0[jj as int].rem == jrem);
                        assert(m0[0].rem == budget.0);
                    }
                    assert(m4[0].path@ == Seq::<GridCoord>::empty()) by {
                        assert(jj != 0);
                        assert(m4[0] == m0[0]);
                    }
                    assert forall|i: int, j2: int|
                        0 <= i < j2 < m4.len() implies (#[trigger] m4[i]).coord != (
                    #[trigger] m4[j2]).coord by {
                        assert(m4[i].coord == m0[i].coord && m4[j2].coord == m0[j2].coord);
                    }
                    assert forall|i: int| #![trigger in_worklist(worklist@, i)]
                        0 <= i < m4.len() && !(i < m0.len() && m4[i].rem == m0[i].rem)
                        implies in_worklist(worklist@, i) by {
                        assert(i == jj);
                        assert(worklist@[w0.len() as int] as int == jj);
                    }
                    assert(has_entry(m4, n, src_rem - cost.0)) by {
                        assert(m4[jj as int].coord == n && m4[jj as int].rem >= new_rem);
                    }
                }
            } else {
                proof {
                    assert(has_entry(m0, n, src_rem - cost.0)) by {
                        assert(m0[jj as int].coord == n && m0[jj as int].rem >= new_rem);
                    }
                }
            }
        },
        None => {
            let e = PathEntry { coord: n, rem: new_rem, path };
            let ghost ge = e;
            moves.push(e);
            let idx = moves.len() - 1;
            worklist.push(idx);
            proof {
                let m4 = moves@;
                assert(m4 =~= m0.push(ge));
                lemma_total_rem_push(m0, ge);
                assert forall|i: int| 0 <= i < m4.len() implies entry_ok(
                    *rule,
                    f,
                    t,
                    start,
                    budget.0,
                    #[trigger] m4[i],
                ) && (m4[i].coord == start || rule.in_bounds(m4[i].coord)) by {
                    if i < m0.len() {
                        assert(m4[i] == m0[i]);
                        assert(entry_ok(*rule, f, t, start, budget.0, m0[i]));
                    }
                }
                assert forall|i: int, j2: int|
                    0 <= i < j2 < m4.len() implies (#[trigger] m4[i]).coord != (
                #[trigger] m4[j2]).coord by {
                    if j2 < m0.len() {
                        assert(m0[i].coord != m0[j2].coord);
                    } else {
                        assert(m4[j2].coord == n);
                        assert(m0[i].coord != n);
                    }
                }
                assert forall|i: int| #![trigger in_worklist(worklist@, i)]
                    0 <= i < m4.len() && !(i < m0.len() && m4[i].rem == m0[i].rem)
                    implies in_worklist(worklist@, i) by {
                    assert(i == m0.len());
                    assert(worklist@[w0.len() as int] as int == i);
                }
                assert(has_entry(m4, n, src_rem - cost.0)) by {
                    assert(m4[m0.len() as int].coord == n && m4[m0.len() as int].rem >= new_rem);
                }
            }
        },
    }
}

/// Once every entry is fully relaxed, every admissible, affordable path
/// is matched or beaten by some entry.
proof fn lemma_search_complete<F: Filter, T: MoveCost>(
    rule: WarriorMovement,
    f: &F,
    t: &T,
    start: GridCoord,
    budget: u16,
    s: Seq<PathEntry>,
    p: Seq<GridCoord>,
)
    requires
        s.len() >= 1,
        s[0].coord == start,
        s[0].rem == budget,
        forall|i: int| 0 <= i < s.len() ==> closed_at(rule, f, t, s, i),
        path_ok(rule, f, start, p),
        path_cost(t, p) <= budget,
    ensures
        has_entry(s, path_end(start, p), budget - path_cost(t, p)),
    decreases p.len(),
{
    if p.len() == 0 {
        assert(s[0].coord == path_end(start, p) && s[0].rem >= budget - path_cost(t, p));
    } else {
        let pre = p.drop_last();
        let step = p.last();
        lemma_path_cost_nonneg(t, pre);
        lemma_search_complete(rule, f, t, start, budget, s, pre);
        let j1 = choose|j: int|
            0 <= j < s.len() && (#[trigger] s[j]).coord == path_end(start, pre) && s[j].rem
                >= budget - path_cost(t, pre);
        assert(rule.adjacent(s[j1].coord, step));
        assert(t.cost(step) <= s[j1].rem);
        assert(closed_at(rule, f, t, s, j1));
        assert(has_entry(s, step, s[j1].rem - t.cost(step)));
        let j2 = choose|j: int|
            0 <= j < s.len() && (#[trigger] s[j]).coord == step && s[j].rem >= s[j1].rem - t.cost(
                step,
            );
        assert(s[j2].rem >= budget - path_cost(t, p));
        assert(s[j2].coord == path_end(start, p));
    }
}

/// What [`PossibleMoves::new`] promises: `r` is exactly the reachable
/// set for the given rule, filter, terrain, start and budget.  The start
/// is always contained, with the full budget and the empty path; a cell
/// is contained precisely when some admissible path of affordable cost
/// ends there; every recorded path witnesses its recorded remaining
/// budget; and no admissible path does better than the recorded budget.
pub open spec fn reachability<F: Filter, T: MoveCost>(
    r: PossibleMoves,
    rule: WarriorMovement,
    f: &F,
    t: &T,
    start: GridCoord,
    budget: MoveUnit,
) -> bool {
    &&& r.start_spec() == start
    &&& r.budget_spec() == budget.0
    &&& r.contains_spec(start)
    &&& r.rem_spec(start) == budget.0
    &&& r.path_spec(start) == Seq::<GridCoord>::empty()
    &&& forall|c: GridCoord|
        #![trigger r.contains_spec(c)]
        r.contains_spec(c) <==> reachable(rule, f, t, start, budget, c)
    &&& forall|c: GridCoord|
        #![trigger r.path_spec(c)]
        r.contains_spec(c) ==> {
            &&& path_ok(rule, f, start, r.path_spec(c))
            &&& path_end(start, r.path_spec(c)) == c
            &&& r.rem_spec(c) <= budget.0
            &&& path_cost(t, r.path_spec(c)) == budget.0 - r.rem_spec(c)
        }
    &&& forall|p: Seq<GridCoord>|
        #![trigger path_ok(rule, f, start, p), path_cost(t, p)]
        path_ok(rule, f, start, p) && path_cost(t, p) <= budget.0 ==> budget.0 - path_cost(t, p)
            <= r.rem_spec(path_end(start, p))
}

impl PossibleMoves {
    /// Compute every cell reachable from `start` under `budget`: a
    /// cost-bounded expansion that keeps, for every cell, a path with
    /// the largest remaining budget on arrival.
    #[verifier::rlimit(50)]
    pub fn new<F: Filter, T: MoveCost>(
        rule: &WarriorMovement,
        f: &F,
        t: &T,
        start: GridCoord,
        budget: MoveUnit,
    ) -> (r: PossibleMoves)
        ensures
            reachability(r, *rule, f, t, start, budget),
    {
        let mut moves: Vec<PathEntry> = Vec::new();
        moves.push(PathEntry { coord: start, rem: budget.0, path: Vec::new() });
        let mut worklist: Vec<usize> = Vec::new();
        worklist.push(0);
        proof {
            assert(moves@[0].path@ =~= Seq::<GridCoord>::empty());
            assert(entry_ok(*rule, f, t, start, budget.0, moves@[0]));
            assert(search_entries_ok(*rule, f, t, start, budget.0, moves@));
            assert forall|i: int| 0 <= i < moves@.len() implies in_worklist(worklist@, i)
                || closed_at(*rule, f, t, moves@, i) by {
                assert(worklist@[0] as int == 0);
            }
            assert(moves@.drop_last() =~= Seq::<PathEntry>::empty());
            assert(total_rem(Seq::<PathEntry>::empty()) == 0);
            assert(moves@.last() == moves@[0]);
            assert(total_rem(moves@) == budget.0 + 1);
            vstd::arithmetic::mul::lemma_mul_inequality(
                1,
                rule.width * rule.height + 1,
                budget.0 + 1,
            );
        }
        while worklist.len() > 0
            invariant
                search_entries_ok(*rule, f, t, start, budget.0, moves@),
                forall|k: int|
                    0 <= k < worklist@.len() ==> ((#[trigger] worklist@[k]) as int)
                        < moves@.len(),
                forall|i: int|
                    #![trigger in_worklist(worklist@, i)]
                    0 <= i < moves@.len() ==> in_worklist(worklist@, i) || closed_at(
                        *rule,
                        f,
                        t,
                        moves@,
                        i,
                    ),
                moves@.len() <= rule.width * rule.height + 1,
                0 <= total_rem(moves@),
                total_rem(moves@) <= (rule.width * rule.height + 1) * (budget.0 + 1),
            decreases (rule.width * rule.height + 1) * (budget.0 + 1) + worklist@.len()
                - total_rem(moves@),
        {
            let ghost m0 = moves@;
            let ghost w_pre = worklist@;
            proof {
                let last = w_pre[w_pre.len() - 1];
            }
            let i = worklist.pop().unwrap();
            let ghost w0 = worklist@;
            let cur = moves[i].coord;
            let cur_rem = moves[i].rem;
            // The four neighbour candidates; a saturated candidate
            // equals `cur` itself and is never adjacent, so it is
            // skipped inside `relax`.
            let east = GridCoord(
                if cur.0 < u16::MAX {
                    cur.0 + 1
                } else {
                    cur.0
                },
                cur.1,
            );
            let west = GridCoord(
                if cur.0 > 0 {
                    cur.0 - 1
                } else {
                    cur.0
                },
                cur.1,
            );
            let north = GridCoord(
                cur.0,
                if cur.1 < u16::MAX {
                    cur.1 + 1
                } else {
                    cur.1
                },
            );
            let south = GridCoord(
                cur.0,
                if cur.1 > 0 {
                    cur.1 - 1
                } else {
                    cur.1
                },
            );
            relax(&mut moves, &mut worklist, rule, f, t, start, budget, i, east);
            let ghost m1 = moves@;
            let ghost w1 = worklist@;
            relax(&mut moves, &mut worklist, rule, f, t, start, budget, i, west);
            let ghost m2 = moves@;
            let ghost w2 = worklist@;
            relax(&mut moves, &mut worklist, rule, f, t, start, budget, i, north);
            let ghost m3 = moves@;
            let ghost w3 = worklist@;
            relax(&mut moves, &mut worklist, rule, f, t, start, budget, i, south);
            let ghost m4 = moves@;
            let ghost w4 = worklist@;
            proof {
                lemma_relax_step_trans(m1, w1, m2, w2, m3, w3);
                lemma_relax_step_trans(m1, w1, m3, w3, m4, w4);
                lemma_relax_step_trans(m0, w0, m1, w1, m4, w4);
                assert(m4[i as int] == m0[i as int]);
                assert(m4[i as int].coord == cur && m4[i as int].rem == cur_rem);
                assert(m1[i as int] == m0[i as int]);
                assert(m2[i as int] == m1[i as int]);
                assert(m3[i as int] == m2[i as int]);
                // the popped entry is now fully relaxed
                assert forall|nb: GridCoord|
                    rule.adjacent(m4[i as int].coord, nb) && f.allows(nb) && t.cost(nb)
                        <= m4[i as int].rem implies has_entry(
                    m4,
                    nb,
                    m4[i as int].rem - t.cost(nb),
                ) by {
                    assert(rule.adjacent(cur, nb));
                    if nb.0 == cur.0 + 1 && nb.1 == cur.1 {
                        assert(east == nb);
                        assert(has_entry(m1, nb, cur_rem - t.cost(nb)));
                        lemma_has_entry_monotone(m1, m4, nb, cur_rem - t.cost(nb));
                    } else if cur.0 == nb.0 + 1 && nb.1 == cur.1 {
                        assert(west == nb);
                        assert(has_entry(m2, nb, cur_rem - t.cost(nb)));
                        lemma_relax_step_trans(m2, w2, m3, w3, m4, w4);
                        lemma_has_entry_monotone(m2, m4, nb, cur_rem - t.cost(nb));
                    } else if nb.1 == cur.1 + 1 && nb.0 == cur.0 {
                        assert(north == nb);
                        assert(has_entry(m3, nb, cur_rem - t.cost(nb)));
                        lemma_has_entry_monotone(m3, m4, nb, cur_rem - t.cost(nb));
                    } else {
                        assert(cur.1 == nb.1 + 1 && nb.0 == cur.0);
                        assert(south == nb);
                        assert(has_entry(m4, nb, cur_rem - t.cost(nb)));
                    }
                }
                assert(closed_at(*rule, f, t, m4, i as int));
                // re-establish the closure invariant
                assert forall|idx: int|
                    #![trigger in_worklist(w4, idx)]
                    0 <= idx < m4.len() implies in_worklist(w4, idx) || closed_at(
                    *rule,
                    f,
                    t,
                    m4,
                    idx,
                ) by {
                    if !in_worklist(w4, idx) {
                        assert(idx < m0.len() && m4[idx].rem == m0[idx].rem);
                        if idx != i as int {
                            let bpre: bool = in_worklist(w_pre, idx);
                            if in_worklist(w_pre, idx) {
                                let k = choose|k: int|
                                    0 <= k < w_pre.len() && (#[trigger] w_pre[k]) as int == idx;
                                if k < w0.len() {
                                    assert(w0 =~= w_pre.drop_last());
                                    assert(w0[k] as int == idx);
                                    assert(in_worklist(w0, idx));
                                    lemma_in_worklist_prefix(w0, w4, idx);
                                } else {
                                    assert(idx == i as int);
                                }
                            } else {
                                assert(closed_at(*rule, f, t, m0, idx));
                                lemma_closed_monotone(*rule, f, t, m0, m4, idx);
                            }
                        }
                    }
                }
                // bounds for the next round and for the measure
                assert forall|q: int| 0 <= q < m4.len() implies (#[trigger] m4[q]).rem
                    <= budget.0 by {
                    assert(entry_ok(*rule, f, t, start, budget.0, m4[q]));
                }
                lemma_total_rem_bound(m4, budget.0 as int);
                lemma_entries_bounded(m4, *rule, start);
                vstd::arithmetic::mul::lemma_mul_inequality(
                    m4.len() as int,
                    rule.width * rule.height + 1,
                    budget.0 + 1,
                );
            }
        }
        let r = PossibleMoves { start, budget: budget.0, moves };
        proof {
            let ms = r.moves@;
            let ws = worklist@;
            assert forall|idx: int| 0 <= idx < ms.len() implies closed_at(
                *rule,
                f,
                t,
                ms,
                idx,
            ) by {
                let b: bool = in_worklist(ws, idx);
                if in_worklist(ws, idx) {
                    let k = choose|k: int| 0 <= k < ws.len() && (#[trigger] ws[k]) as int == idx;
                    assert(false);
                }
            }
            assert(r.contains_spec(start)) by {
                assert(ms[0].coord == start);
            }
            r.lemma_entry_index(start);
            assert(r.entry_index(start) == 0) by {
                let ei = r.entry_index(start);
                if ei != 0 {
                    assert(ms[0].coord == ms[ei].coord);
                }
            }
            assert(r.rem_spec(start) == budget.0);
            assert(r.path_spec(start) == Seq::<GridCoord>::empty());
            // membership: contained exactly when reachable
            assert forall|c: GridCoord| r.contains_spec(c) <==> reachable(
                *rule,
                f,
                t,
                start,
                budget,
                c,
            ) by {
                if r.contains_spec(c) {
                    r.lemma_entry_index(c);
                    let ei = r.entry_index(c);
                    assert(entry_ok(*rule, f, t, start, budget.0, ms[ei]));
                    let p = ms[ei].path@;
                    assert(path_ok(*rule, f, start, p) && path_end(start, p) == c && path_cost(t, p)
                        <= budget.0);
                    assert(reachable(*rule, f, t, start, budget, c));
                }
                if reachable(*rule, f, t, start, budget, c) {
                    let p = choose|p: Seq<GridCoord>|
                        #![trigger path_ok(*rule, f, start, p)]
                        path_ok(*rule, f, start, p) && path_end(start, p) == c && path_cost(t, p)
                            <= budget.0;
                    lemma_search_complete(*rule, f, t, start, budget.0, ms, p);
                    let j = choose|j: int|
                        0 <= j < ms.len() && (#[trigger] ms[j]).coord == path_end(start, p)
                            && ms[j].rem >= budget.0 - path_cost(t, p);
                    assert(r.contains_spec(c));
                }
            }
            // soundness of the recorded data
            assert forall|c: GridCoord| #![trigger r.path_spec(c)] r.contains_spec(c) implies {
                &&& path_ok(*rule, f, start, r.path_spec(c))
                &&& path_end(start, r.path_spec(c)) == c
                &&& r.rem_spec(c) <= budget.0
                &&& path_cost(t, r.path_spec(c)) == budget.0 - r.rem_spec(c)
            } by {
                r.lemma_entry_index(c);
                let ei = r.entry_index(c);
                assert(entry_ok(*rule, f, t, start, budget.0, ms[ei]));
            }
            // no admissible path beats the recorded remaining budget
            assert forall|p: Seq<GridCoord>|
                path_ok(*rule, f, start, p) && path_cost(t, p) <= budget.0 implies budget.0
                - path_cost(t, p) <= r.rem_spec(path_end(start, p)) by {
                lemma_search_complete(*rule, f, t, start, budget.0, ms, p);
                let c = path_end(start, p);
                let j = choose|j: int|
                    0 <= j < ms.len() && (#[trigger] ms[j]).coord == c && ms[j].rem >= budget.0
                        - path_cost(t, p);
                assert(r.contains_spec(c));
                r.lemma_entry_index(c);
                let ei = r.entry_index(c);
                if ei != j {
                    assert(ms[ei].coord == ms[j].coord);
                }
                assert(ei == j);
            }
        }
        r
    }

    /// The cell the search was rooted at.
    pub fn start(&self) -> (r: GridCoord)
        ensures
            r == self.start_spec(),
    {
        self.start
    }

    /// `true` exactly when `c` is one of the reachable cells.
    pub fn contains_coord(&self, c: &GridCoord) -> (r: bool)
        ensures
            r == self.contains_spec(*c),
    {
        let n = self.moves.len();
        let mut i: usize = 0;
        while i < n
            invariant
                n == self.moves@.len(),
                i <= n,
                forall|j: int| 0 <= j < i ==> (#[trigger] self.moves@[j]).coord != *c,
            decreases n - i,
        {
            if self.moves[i].coord == *c {
                return true;
            }
            i = i + 1;
        }
        false
    }

    /// Every reachable cell, start first, each exactly once.
    pub fn coords(&self) -> (r: Vec<GridCoord>)
        ensures
            r@.len() >= 1,
            r@[0] == self.start_spec(),
            r@.no_duplicates(),
            forall|c: GridCoord| r@.contains(c) <==> self.contains_spec(c),
    {
        proof {
            use_type_invariant(self);
        }
        let n = self.moves.len();
        let mut r: Vec<GridCoord> = Vec::new();
        let mut i: usize = 0;
        while i < n
            invariant
                n == self.moves@.len(),
                i <= n,
                r@.len() == i,
                forall|j: int| 0 <= j < i ==> r@[j] == (#[trigger] self.moves@[j]).coord,
            decreases n - i,
        {
            r.push(self.moves[i].coord);
            i = i + 1;
        }
        proof {
            assert forall|c: GridCoord| r@.contains(c) <==> self.contains_spec(c) by {
                if r@.contains(c) {
                    let j = choose|j: int| 0 <= j < r@.len() && r@[j] == c;
                    assert(self.moves@[j].coord == c);
                }
                if self.contains_spec(c) {
                    let j = choose|j: int|
                        0 <= j < self.moves@.len() && (#[trigger] self.moves@[j]).coord == c;
                    assert(r@[j] == c);
                }
            }
            assert forall|i2: int, j2: int| 0 <= i2 < j2 < r@.len() implies r@[i2] != r@[j2] by {
                assert(self.moves@[i2].coord != self.moves@[j2].coord);
            }
        }
        r
    }

    /// The path to `c` (start excluded, `c` last) and the remaining
    /// budget on arrival.  `c` must be checked with
    /// [`Self::contains_coord`] first.
    pub fn get_path_data(&self, c: &GridCoord) -> (r: (Vec<GridCoord>, MoveUnit))
        requires
            self.contains_spec(*c),
        ensures
            r.0@ == self.path_spec(*c),
            r.1.0 == self.rem_spec(*c),
    {
        proof {
            use_type_invariant(self);
            self.lemma_entry_index(*c);
        }
        let n = self.moves.len();
        let mut i: usize = 0;
        while i < n
            invariant
                n == self.moves@.len(),
                i <= n,
                forall|j: int| 0 <= j < i ==> (#[trigger] self.moves@[j]).coord != *c,
                self.contains_spec(*c),
                coords_distinct(self.moves@),
                0 <= self.entry_index(*c) < self.moves@.len(),
                self.moves@[self.entry_index(*c)].coord == *c,
            decreases n - i,
        {
            if self.moves[i].coord == *c {
                proof {
                    assert(i as int == self.entry_index(*c));
                }
                let path = self.moves[i].path.clone();
                let rem = self.moves[i].rem;
                proof {
                    assert(path@ =~= self.moves@[i as int].path@);
                }
                return (path, MoveUnit(rem));
            }
            i = i + 1;
        }
        proof {
            self.lemma_entry_index(*c);
            assert(false);
        }
        unreached()
    }
}

/// Along a recorded path the budget never goes negative: the cost of
/// every prefix stays within the full budget, so the remaining budget
/// is non-negative at every intermediate step, not only at arrival.
pub proof fn lemma_path_budget_monotone<F: Filter, T: MoveCost>(
    r: PossibleMoves,
    rule: WarriorMovement,
    f: &F,
    t: &T,
    start: GridCoord,
    budget: MoveUnit,
    c: GridCoord,
    k: int,
)
    requires
        reachability(r, rule, f, t, start, budget),
        r.contains_spec(c),
        0 <= k <= r.path_spec(c).len(),
    ensures
        path_cost(t, r.path_spec(c)) <= budget.0,
        0 <= path_cost(t, r.path_spec(c).take(k)) <= budget.0,
{
    let p = r.path_spec(c);
    lemma_path_cost_nonneg(t, p.take(k));
    lemma_path_cost_prefix(t, p, k);
}

/// Occupancy filters are order-independent: two reachability results
/// computed with the same filters conjoined in either order contain the
/// same cells, with the same remaining budget everywhere.
pub proof fn lemma_filter_order_independent<A: Filter, B: Filter, T: MoveCost>(
    fa: &FilterChain<A, B>,
    fb: &FilterChain<B, A>,
    r1: PossibleMoves,
    r2: PossibleMoves,
    rule: WarriorMovement,
    t: &T,
    start: GridCoord,
    budget: MoveUnit,
)
    requires
        fa.first == fb.second,
        fa.second == fb.first,
        reachability(r1, rule, fa, t, start, budget),
        reachability(r2, rule, fb, t, start, budget),
    ensures
        forall|c: GridCoord| r1.contains_spec(c) == r2.contains_spec(c),
        forall|c: GridCoord|
            r1.contains_spec(c) ==> #[trigger] r1.rem_spec(c) == r2.rem_spec(c),
{
    lemma_filter_chain_commutes(*fa, *fb);
    assert forall|c: GridCoord|
        #![trigger r1.contains_spec(c)]
        #![trigger r2.contains_spec(c)]
        r1.contains_spec(c) == r2.contains_spec(c) by {
        if r1.contains_spec(c) {
            let p = r1.path_spec(c);
            lemma_path_ok_equiv(rule, fa, fb, start, p);
            assert(path_ok(rule, fb, start, p) && path_end(start, p) == c && path_cost(t, p)
                <= budget.0);
            assert(reachable(rule, fb, t, start, budget, c));
        }
        if r2.contains_spec(c) {
            let p = r2.path_spec(c);
            lemma_path_ok_equiv(rule, fa, fb, start, p);
            assert(path_ok(rule, fa, start, p) && path_end(start, p) == c && path_cost(t, p)
                <= budget.0);
            assert(reachable(rule, fa, t, start, budget, c));
        }
    }
    assert forall|c: GridCoord| r1.contains_spec(c) implies #[trigger] r1.rem_spec(c)
        == r2.rem_spec(c) by {
        let p1 = r1.path_spec(c);
        let p2 = r2.path_spec(c);
        lemma_path_ok_equiv(rule, fa, fb, start, p1);
        lemma_path_ok_equiv(rule, fa, fb, start, p2);
        assert(budget.0 - path_cost(t, p1) <= r2.rem_spec(path_end(start, p1)));
        assert(budget.0 - path_cost(t, p2) <= r1.rem_spec(path_end(start, p2)));
    }
}

} // verus!

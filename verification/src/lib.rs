//! A turn-based grid-strategy core: units occupy cells, move within a
//! movement budget and attack within range, and the whole turn sequence
//! (select a unit, pick a destination, animate, resolve) is expressed
//! as frame-stepped, resumable computations.
//!
//! The crate has two pillars: a budget-constrained reachability engine
//! ([`movement`]) and a cooperative stepper-combinator framework
//! ([`gameplay`]).  On top of those, this root module holds the unit
//! roster, the occupancy filters and the cell selections that the turn
//! flow ([`turn`]) produces.

use vstd::prelude::*;

pub mod animation;
pub mod gameplay;
pub mod movement;
pub mod terrain;
pub mod turn;

use crate::movement::Filter;
use crate::movement::GridCoord;
use crate::movement::MoveUnit;

verus! {

/// Anything that sits on a cell of the grid.
pub trait HasPos {
    /// The cell the value sits on.
    spec fn pos_spec(&self) -> GridCoord;

    /// Returns exactly the cell the value sits on.
    fn get_pos(&self) -> (r: &GridCoord)
        ensures
            *r == self.pos_spec(),
    ;
}

impl HasPos for GridCoord {
    open spec fn pos_spec(&self) -> GridCoord {
        *self
    }

    fn get_pos(&self) -> (r: &GridCoord) {
        self
    }
}

/// A unit on the board.
#[derive(Clone, Copy, PartialEq, Eq, Structural, Debug)]
pub struct Warrior {
    pub position: GridCoord,
    /// Movement budget left unspent when the unit last arrived.
    pub move_deficit: MoveUnit,
    /// Set by a resolved move; a moved unit cannot be selected again
    /// until the turn boundary resets it.
    pub moved: bool,
    pub health: i8,
}

impl HasPos for Warrior {
    open spec fn pos_spec(&self) -> GridCoord {
        self.position
    }

    fn get_pos(&self) -> (r: &GridCoord) {
        &self.position
    }
}

impl Warrior {
    pub fn new(position: GridCoord) -> (r: Self)
        ensures
            r == (Warrior { position, move_deficit: MoveUnit(0), moved: false, health: 10i8 }),
    {
        Warrior { position, move_deficit: MoveUnit(0), moved: false, health: 10 }
    }

    /// A unit that has already moved this turn cannot be selected.
    pub fn is_selectable(&self) -> (r: bool)
        ensures
            r == !self.moved,
    {
        !self.moved
    }
}

/// An unordered roster of things on cells, meant to hold at most one
/// occupant per cell.
#[derive(Debug)]
pub struct UnitCollection<T: HasPos> {
    pub elem: Vec<T>,
}

impl<T: HasPos> UnitCollection<T> {
    /// No two members share a cell.
    pub open spec fn wf(&self) -> bool {
        forall|i: int, j: int|
            0 <= i < j < self.elem@.len() ==> (#[trigger] self.elem@[i]).pos_spec() != (
            #[trigger] self.elem@[j]).pos_spec()
    }

    /// Some member sits on `a`.
    pub open spec fn contains_pos(&self, a: GridCoord) -> bool {
        exists|i: int| 0 <= i < self.elem@.len() && (#[trigger] self.elem@[i]).pos_spec() == a
    }

    /// The member sitting on `a`; meaningful only when `contains_pos(a)`.
    pub open spec fn unit_at(&self, a: GridCoord) -> T {
        self.elem@[self.index_at(a)]
    }

    /// Index of the member sitting on `a`; meaningful only when
    /// `contains_pos(a)`.
    pub open spec fn index_at(&self, a: GridCoord) -> int {
        choose|i: int| 0 <= i < self.elem@.len() && (#[trigger] self.elem@[i]).pos_spec() == a
    }

    pub fn new(elem: Vec<T>) -> (r: Self)
        ensures
            r.elem == elem,
    {
        UnitCollection { elem }
    }

    /// The member on `a`, if any.
    pub fn find(&self, a: &GridCoord) -> (r: Option<&T>)
        ensures
            match r {
                Some(u) => self.contains_pos(*a) && u.pos_spec() == *a && (self.wf() ==> *u
                    == self.unit_at(*a)),
                None => !self.contains_pos(*a),
            },
    {
        let len = self.elem.len();
        let mut i: usize = 0;
        while i < len
            invariant
                len == self.elem@.len(),
                i <= len,
                forall|j: int| 0 <= j < i ==> (#[trigger] self.elem@[j]).pos_spec() != *a,
            decreases len - i,
        {
            let u = &self.elem[i];
            if u.get_pos().0 == a.0 && u.get_pos().1 == a.1 {
                proof {
                    assert(self.elem@[i as int].pos_spec() == *a);
                    if self.wf() {
                        let k = self.index_at(*a);
                        assert(self.elem@[k].pos_spec() == *a);
                        assert(k == i as int);
                    }
                }
                return Some(u);
            }
            i = i + 1;
        }
        None
    }

    /// Remove and return the member on `a`.  The cell must be known to
    /// be occupied; check with [`Self::find`] first.
    pub fn remove(&mut self, a: &GridCoord) -> (r: T)
        requires
            old(self).contains_pos(*a),
        ensures
            r.pos_spec() == *a,
            old(self).wf() ==> r == old(self).unit_at(*a),
            final(self).elem@.len() == old(self).elem@.len() - 1,
            old(self).wf() ==> final(self).wf(),
            old(self).wf() ==> forall|c: GridCoord|
                #[trigger] final(self).contains_pos(c) == (old(self).contains_pos(c) && c != *a),
            old(self).wf() ==> forall|c: GridCoord|
                old(self).contains_pos(c) && c != *a ==> #[trigger] final(self).unit_at(c) == old(
                    self,
                ).unit_at(c),
    {
        let ghost s0 = self.elem@;
        let len = self.elem.len();
        let mut i: usize = 0;
        while i < len
            invariant
                len == self.elem@.len(),
                i <= len,
                self.elem@ == s0,
                s0 == old(self).elem@,
                old(self).contains_pos(*a),
                forall|j: int| 0 <= j < i ==> (#[trigger] self.elem@[j]).pos_spec() != *a,
            decreases len - i,
        {
            let hit = {
                let u = &self.elem[i];
                u.get_pos().0 == a.0 && u.get_pos().1 == a.1
            };
            if hit {
                let r = self.elem.swap_remove(i);
                proof {
                    let s1 = self.elem@;
                    assert(s1 =~= s0.update(i as int, s0.last()).drop_last());
                    assert(r.pos_spec() == *a);
                    if old(self).wf() {
                        let k = old(self).index_at(*a);
                        assert(s0[k].pos_spec() == *a);
                        assert(k == i as int);
                        assert forall|c: GridCoord| #[trigger]
                            final(self).contains_pos(c) == (old(self).contains_pos(c) && c != *a)
                        by {
                            if final(self).contains_pos(c) {
                                let j = choose|j: int|
                                    0 <= j < s1.len() && (#[trigger] s1[j]).pos_spec() == c;
                                if j == i as int {
                                    assert(s0[s0.len() - 1].pos_spec() == c);
                                } else {
                                    assert(s0[j].pos_spec() == c);
                                }
                                assert(old(self).contains_pos(c));
                                assert(c != *a);
                            }
                            if old(self).contains_pos(c) && c != *a {
                                let j = choose|j: int|
                                    0 <= j < s0.len() && (#[trigger] s0[j]).pos_spec() == c;
                                assert(j != i as int);
                                if j == s0.len() - 1 {
                                    assert(s1[i as int].pos_spec() == c);
                                } else {
                                    assert(s1[j].pos_spec() == c);
                                }
                            }
                        }
                        assert forall|c: GridCoord|
                            old(self).contains_pos(c) && c != *a implies #[trigger] final(self)
                            .unit_at(c) == old(self).unit_at(c) by {
                            let j1 = final(self).index_at(c);
                            assert(final(self).contains_pos(c));
                            assert(0 <= j1 < s1.len() && s1[j1].pos_spec() == c);
                            let j0 = old(self).index_at(c);
                            assert(0 <= j0 < s0.len() && s0[j0].pos_spec() == c);
                            if j1 == i as int {
                                assert(s1[j1] == s0[s0.len() - 1]);
                                assert(j0 == s0.len() - 1);
                            } else {
                                assert(s1[j1] == s0[j1]);
                                assert(j0 == j1);
                            }
                        }
                    }
                }
                return r;
            }
            i = i + 1;
        }
        proof {
            let j = old(self).index_at(*a);
            assert(0 <= j < s0.len() && s0[j].pos_spec() == *a);
            assert(false);
        }
        unreached()
    }

    /// Add a member.  Uniqueness of cells is kept whenever the new
    /// member's cell was free.
    pub fn insert(&mut self, t: T)
        ensures
            final(self).elem@ == old(self).elem@.push(t),
            old(self).wf() && !old(self).contains_pos(t.pos_spec()) ==> final(self).wf(),
            forall|c: GridCoord| #[trigger]
                final(self).contains_pos(c) == (old(self).contains_pos(c) || t.pos_spec() == c),
    {
        let ghost s0 = self.elem@;
        self.elem.push(t);
        proof {
            let s1 = self.elem@;
            assert forall|c: GridCoord| #[trigger]
                final(self).contains_pos(c) == (old(self).contains_pos(c) || t.pos_spec() == c) by {
                if final(self).contains_pos(c) {
                    let j = choose|j: int| 0 <= j < s1.len() && (#[trigger] s1[j]).pos_spec() == c;
                    if j < s0.len() {
                        assert(s0[j].pos_spec() == c);
                    }
                }
                if old(self).contains_pos(c) {
                    let j = choose|j: int| 0 <= j < s0.len() && (#[trigger] s0[j]).pos_spec() == c;
                    assert(s1[j].pos_spec() == c);
                }
                if t.pos_spec() == c {
                    assert(s1[s0.len() as int].pos_spec() == c);
                }
            }
            if old(self).wf() && !old(self).contains_pos(t.pos_spec()) {
                assert forall|i: int, j: int| 0 <= i < j < s1.len() implies (
                #[trigger] s1[i]).pos_spec() != (#[trigger] s1[j]).pos_spec() by {
                    if j < s0.len() {
                        assert(s0[i].pos_spec() != s0[j].pos_spec());
                    } else {
                        assert(s1[j] == t);
                        assert(s0[i].pos_spec() == s1[i].pos_spec());
                        assert(old(self).contains_pos(s0[i].pos_spec()));
                    }
                }
            }
        }
    }

    /// A view of this roster as an occupancy filter: it blocks exactly
    /// the occupied cells.
    pub fn filter(&self) -> (r: UnitCollectionFilter)
        ensures
            forall|c: GridCoord| #[trigger] r.allows(c) <==> !self.contains_pos(c),
    {
        let len = self.elem.len();
        let mut pos: Vec<GridCoord> = Vec::new();
        let mut i: usize = 0;
        while i < len
            invariant
                len == self.elem@.len(),
                i <= len,
                pos@.len() == i,
                forall|j: int| 0 <= j < i ==> pos@[j] == (#[trigger] self.elem@[j]).pos_spec(),
            decreases len - i,
        {
            let p = *self.elem[i].get_pos();
            pos.push(p);
            i = i + 1;
        }
        let r = UnitCollectionFilter { a: pos };
        proof {
            assert forall|c: GridCoord| #[trigger] r.allows(c) <==> !self.contains_pos(c) by {
                if self.contains_pos(c) {
                    let j = choose|j: int|
                        0 <= j < self.elem@.len() && (#[trigger] self.elem@[j]).pos_spec() == c;
                    assert(r.a@[j] == c);
                    assert(r.a@.contains(c));
                }
                if r.a@.contains(c) {
                    let j = choose|j: int| 0 <= j < r.a@.len() && r.a@[j] == c;
                    assert(self.elem@[j].pos_spec() == c);
                    assert(self.contains_pos(c));
                }
            }
        }
        r
    }
}

impl UnitCollection<Warrior> {
    /// Turn boundary: every unit of the roster becomes selectable
    /// again; nothing else about any unit changes.
    pub fn reset_movement(&mut self)
        ensures
            final(self).elem@.len() == old(self).elem@.len(),
            forall|i: int|
                0 <= i < old(self).elem@.len() ==> final(self).elem@[i] == (Warrior {
                    moved: false,
                    ..(#[trigger] old(self).elem@[i])
                }),
            old(self).wf() ==> final(self).wf(),
    {
        let ghost s0 = self.elem@;
        let len = self.elem.len();
        let mut i: usize = 0;
        while i < len
            invariant
                len == self.elem@.len(),
                i <= len,
                s0 == old(self).elem@,
                forall|j: int|
                    i <= j < len ==> (#[trigger] self.elem@[j]) == s0[j],
                forall|j: int|
                    0 <= j < i ==> (#[trigger] self.elem@[j]) == (Warrior {
                        moved: false,
                        ..s0[j]
                    }),
            decreases len - i,
        {
            let w = self.elem[i];
            self.elem[i] = Warrior {
                position: w.position,
                move_deficit: w.move_deficit,
                moved: false,
                health: w.health,
            };
            i = i + 1;
        }
        proof {
            if old(self).wf() {
                assert forall|i2: int, j2: int|
                    0 <= i2 < j2 < self.elem@.len() implies (#[trigger] self.elem@[i2]).pos_spec()
                    != (#[trigger] self.elem@[j2]).pos_spec() by {
                    assert(s0[i2].pos_spec() != s0[j2].pos_spec());
                }
            }
        }
    }
}

/// Blocks every cell but one unit's own: used for attack range, where
/// only the acting unit itself is excluded.
pub struct SingleFilter {
    pub a: GridCoord,
}

impl Filter for SingleFilter {
    open spec fn allows(&self, c: GridCoord) -> bool {
        self.a != c
    }

    fn filter(&self, c: &GridCoord) -> (r: bool) {
        !(self.a.0 == c.0 && self.a.1 == c.1)
    }
}

/// Blocks the cells occupied by the units of one roster.
pub struct UnitCollectionFilter {
    pub a: Vec<GridCoord>,
}

impl Filter for UnitCollectionFilter {
    open spec fn allows(&self, c: GridCoord) -> bool {
        !self.a@.contains(c)
    }

    fn filter(&self, c: &GridCoord) -> (r: bool) {
        let len = self.a.len();
        let mut i: usize = 0;
        while i < len
            invariant
                len == self.a@.len(),
                i <= len,
                forall|j: int| 0 <= j < i ==> self.a@[j] != *c,
            decreases len - i,
        {
            if self.a[i].0 == c.0 && self.a[i].1 == c.1 {
                proof {
                    assert(self.a@[i as int] == *c);
                }
                return false;
            }
            i = i + 1;
        }
        false_if_contains_proof(self, c)
    }
}

/// Helper for the scan above: when no index matched, the sequence does
/// not contain the cell.
fn false_if_contains_proof(f: &UnitCollectionFilter, c: &GridCoord) -> (r: bool)
    requires
        forall|j: int| 0 <= j < f.a@.len() ==> f.a@[j] != *c,
    ensures
        r == f.allows(*c),
{
    proof {
        if f.a@.contains(*c) {
            let j = choose|j: int| 0 <= j < f.a@.len() && f.a@[j] == *c;
            assert(false);
        }
    }
    true
}

/// Movement budget of a unit that has not moved yet this turn.
pub const MOVE_BUDGET: u16 = 5;

/// Attack radius around a unit, in steps of cost one.
pub const ATTACK_RADIUS: u16 = 1;

/// What a selected unit may do: the cells it can move to and the cells
/// it can attack, both rooted at the unit's own cell; or a cell marked
/// for a future construction action.
pub enum CellSelection {
    MoveSelection(movement::PossibleMoves, movement::PossibleMoves),
    BuildSelection(GridCoord),
}

/// The budget a unit gets for a move: the full budget, or nothing once
/// it has moved this turn.
pub open spec fn move_budget(w: Warrior) -> MoveUnit {
    if w.moved {
        MoveUnit(0)
    } else {
        MoveUnit(MOVE_BUDGET)
    }
}

/// How a destination click relates to a selection.
#[derive(Clone, Copy, PartialEq, Eq, Structural, Debug)]
pub enum TargetKind {
    /// The cell can be moved to.
    InMoveSet,
    /// The cell cannot be entered but lies in attack range.
    InAttackSet,
    /// The click means nothing for this selection.
    Outside,
}

/// Classify a clicked cell against a selection: inside the move set,
/// inside the attack set (but not the move set), or neither.  A
/// construction selection has no clickable sets at all.
pub fn classify_target(cs: &CellSelection, cell: &GridCoord) -> (r: TargetKind)
    ensures
        match cs {
            CellSelection::MoveSelection(mm, attack) => {
                &&& (r is InMoveSet <==> mm.contains_spec(*cell))
                &&& (r is InAttackSet <==> !mm.contains_spec(*cell) && attack.contains_spec(*cell))
                &&& (r is Outside <==> !mm.contains_spec(*cell) && !attack.contains_spec(*cell))
            },
            CellSelection::BuildSelection(_) => r is Outside,
        },
{
    match cs {
        CellSelection::MoveSelection(mm, attack) => {
            if mm.contains_coord(cell) {
                TargetKind::InMoveSet
            } else if attack.contains_coord(cell) {
                TargetKind::InAttackSet
            } else {
                TargetKind::Outside
            }
        },
        CellSelection::BuildSelection(_) => TargetKind::Outside,
    }
}

/// Build the move set and the attack set for one unit.  The move set
/// obeys the caller's occupancy filter and terrain; the attack set
/// counts every step as cost one and excludes only the unit itself, so
/// occupied cells stay attackable.
pub fn get_cat_move_attack_matrix<F: Filter, T: terrain::MoveCost>(
    cat: &Warrior,
    cat_filter: F,
    roads: T,
    rule: &movement::WarriorMovement,
) -> (r: CellSelection)
    ensures
        r matches CellSelection::MoveSelection(mm, attack) && movement::reachability(
            mm,
            *rule,
            &cat_filter,
            &roads,
            cat.position,
            move_budget(*cat),
        ) && movement::reachability(
            attack,
            *rule,
            &(SingleFilter { a: cat.position }),
            &terrain::Grass,
            cat.position,
            MoveUnit(ATTACK_RADIUS),
        ),
{
    let mm = if cat.moved {
        MoveUnit(0)
    } else {
        MoveUnit(MOVE_BUDGET)
    };
    let mm = movement::PossibleMoves::new(rule, &cat_filter, &roads, cat.position, mm);
    let attack = movement::PossibleMoves::new(
        rule,
        &SingleFilter { a: cat.position },
        &terrain::Grass,
        cat.position,
        MoveUnit(ATTACK_RADIUS),
    );
    CellSelection::MoveSelection(mm, attack)
}

/// The authoritative game state the turn flow mutates.
pub struct Game {
    /// The grid the game is played on, as the movement rule over it.
    pub grid: movement::WarriorMovement,
    pub dogs: UnitCollection<Warrior>,
    pub cats: UnitCollection<Warrior>,
}

impl Game {
    /// Both rosters keep at most one unit per cell.
    pub open spec fn wf(&self) -> bool {
        self.cats.wf() && self.dogs.wf()
    }

    /// The roster of one side: team `0` plays the cats, any other
    /// index the dogs.
    pub open spec fn team_spec(&self, ind: usize) -> UnitCollection<Warrior> {
        if ind == 0 {
            self.cats
        } else {
            self.dogs
        }
    }

    pub fn team(&self, ind: usize) -> (r: &UnitCollection<Warrior>)
        ensures
            *r == self.team_spec(ind),
    {
        if ind == 0 {
            &self.cats
        } else {
            &self.dogs
        }
    }

    /// `cs` is a move-and-attack selection correctly rooted at `cell`
    /// for this board: the move set is the full-budget reach under
    /// both teams' occupancy on grass terrain, and the attack set is
    /// the attack-radius reach that excludes only the cell itself.
    pub open spec fn selection_for(&self, cell: GridCoord, cs: CellSelection) -> bool {
        cs matches CellSelection::MoveSelection(mm, attack) && (exists|
            f: movement::FilterChain<UnitCollectionFilter, UnitCollectionFilter>,
        |
            (forall|c: GridCoord| #[trigger]
                f.allows(c) <==> !self.cats.contains_pos(c) && !self.dogs.contains_pos(c))
                && movement::reachability(
                mm,
                self.grid,
                &f,
                &terrain::Grass,
                cell,
                MoveUnit(MOVE_BUDGET),
            )) && movement::reachability(
            attack,
            self.grid,
            &(SingleFilter { a: cell }),
            &terrain::Grass,
            cell,
            MoveUnit(ATTACK_RADIUS),
        )
    }

    /// Selection rule of the turn flow: a click on `cell` selects a
    /// unit only if the given team has a unit there that has not moved
    /// this turn; the result is that unit's move and attack sets.
    pub fn try_select(&self, team: usize, cell: GridCoord) -> (r: Option<CellSelection>)
        ensures
            self.wf() ==> match r {
                Some(cs) => {
                    &&& self.team_spec(team).contains_pos(cell)
                    &&& !self.team_spec(team).unit_at(cell).moved
                    &&& self.selection_for(cell, cs)
                },
                None => !(self.team_spec(team).contains_pos(cell) && !self.team_spec(
                    team,
                ).unit_at(cell).moved),
            },
    {
        let this_team = self.team(team);
        let unit = match this_team.find(&cell) {
            Some(u) => u,
            None => {
                return None;
            },
        };
        if !unit.is_selectable() {
            return None;
        }
        let uf = movement::FilterChain::new(self.cats.filter(), self.dogs.filter());
        let ghost guf = uf;
        let cs = get_cat_move_attack_matrix(unit, uf, terrain::Grass, &self.grid);
        proof {
            assert(cs matches CellSelection::MoveSelection(mm, attack) && movement::reachability(
                mm,
                self.grid,
                &guf,
                &terrain::Grass,
                cell,
                MoveUnit(MOVE_BUDGET),
            ));
        }
        Some(cs)
    }

    /// Remove and return the unit of `team` on `a`, if there is one.
    pub fn take_unit(&mut self, team: usize, a: &GridCoord) -> (r: Option<Warrior>)
        ensures
            final(self).grid == old(self).grid,
            team == 0 ==> final(self).dogs == old(self).dogs,
            team != 0 ==> final(self).cats == old(self).cats,
            old(self).wf() ==> final(self).wf(),
            match r {
                Some(u) => {
                    &&& old(self).team_spec(team).contains_pos(*a)
                    &&& u.pos_spec() == *a
                    &&& old(self).wf() ==> u == old(self).team_spec(team).unit_at(*a)
                    &&& old(self).wf() ==> forall|c: GridCoord| #[trigger]
                        final(self).team_spec(team).contains_pos(c) == (old(self).team_spec(
                            team,
                        ).contains_pos(c) && c != *a)
                },
                None => !old(self).team_spec(team).contains_pos(*a) && *old(self) == *final(self),
            },
    {
        if team == 0 {
            if self.cats.find(a).is_some() {
                Some(self.cats.remove(a))
            } else {
                None
            }
        } else {
            if self.dogs.find(a).is_some() {
                Some(self.dogs.remove(a))
            } else {
                None
            }
        }
    }

    /// Put a unit back on the board at its own position, marked as
    /// having moved.  Fails (and changes nothing) if the cell is
    /// occupied.
    pub fn place_unit(&mut self, team: usize, w: Warrior) -> (r: bool)
        ensures
            final(self).grid == old(self).grid,
            team == 0 ==> final(self).dogs == old(self).dogs,
            team != 0 ==> final(self).cats == old(self).cats,
            r == !old(self).team_spec(team).contains_pos(w.position),
            old(self).wf() ==> final(self).wf(),
            r ==> final(self).team_spec(team).elem@ == old(self).team_spec(team).elem@.push(
                Warrior {
                    position: w.position,
                    move_deficit: w.move_deficit,
                    moved: true,
                    health: w.health,
                },
            ),
            !r ==> *final(self) == *old(self),
    {
        let marked = Warrior {
            position: w.position,
            move_deficit: w.move_deficit,
            moved: true,
            health: w.health,
        };
        if team == 0 {
            if self.cats.find(&marked.position).is_none() {
                self.cats.insert(marked);
                true
            } else {
                false
            }
        } else {
            if self.dogs.find(&marked.position).is_none() {
                self.dogs.insert(marked);
                true
            } else {
                false
            }
        }
    }
}

} // verus!

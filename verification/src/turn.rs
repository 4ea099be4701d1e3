//! The turn flow, assembled from the stepper framework and the
//! reachability engine: keep asking for a unit until a selectable one
//! is clicked, show its move and attack sets, wait for a destination
//! click, animate the move, and resolve it against the game state.

use vstd::prelude::*;

use crate::animation::Animation;
use crate::gameplay::and_then;
use crate::gameplay::looper;
use crate::gameplay::wait_custom;
use crate::gameplay::Chain;
use crate::gameplay::Custom;
use crate::gameplay::GameStepper;
use crate::gameplay::Looper;
use crate::gameplay::LooperRes;
use crate::gameplay::MapFn;
use crate::gameplay::MapStep;
use crate::gameplay::Next;
use crate::gameplay::Optional;
use crate::gameplay::Reduce;
use crate::gameplay::Stage;
use crate::gameplay::StepperFactory;
use crate::gameplay::WaitForCustom;
use crate::gameplay::Zoo;
use crate::movement::GridCoord;
use crate::CellSelection;
use crate::Game;
use crate::Warrior;

verus! {

/// The context every turn-flow stepper sees each frame: the
/// authoritative game state, plus this frame's input resolved to a
/// clicked cell (or none).
pub struct Stuff {
    pub game: Game,
    pub mouse: Option<GridCoord>,
}

/// The [`Zoo`] of the turn flow: its steppers run over [`Stuff`].
pub struct TurnZoo;

impl Zoo for TurnZoo {
    type G = Stuff;

    fn create() -> Self {
        TurnZoo
    }
}

/// Waits for any click at all and yields the clicked cell.
pub struct MouseWait;

impl Custom<TurnZoo> for MouseWait {
    type L = GridCoord;

    open spec fn check_rel(&self, g1: Stuff, post: Self, g2: Stuff, r: Stage<GridCoord>) -> bool {
        g2 == g1 && r == (match g1.mouse {
            Some(c) => Stage::NextStage(c),
            None => Stage::<GridCoord>::Stay,
        })
    }

    fn check(&mut self, game: &mut Stuff) -> (r: Stage<GridCoord>) {
        match game.mouse {
            Some(c) => Stage::NextStage(c),
            None => Stage::Stay,
        }
    }
}

/// A fresh "wait for a click" stepper.
pub fn wait_mouse_input() -> (r: WaitForCustom<TurnZoo, MouseWait>)
    ensures
        r == (WaitForCustom::<TurnZoo, MouseWait> { zoo: TurnZoo, func: MouseWait, res: None }),
{
    wait_custom(TurnZoo, MouseWait)
}

/// Factory for the select-unit loop: every round waits for a click.
pub struct SelectUnitStart;

impl StepperFactory<TurnZoo, ()> for SelectUnitStart {
    type A = WaitForCustom<TurnZoo, MouseWait>;

    open spec fn make_spec(&self, p: ()) -> WaitForCustom<TurnZoo, MouseWait> {
        WaitForCustom { zoo: TurnZoo, func: MouseWait, res: None }
    }

    fn make(&self, p: ()) -> (r: WaitForCustom<TurnZoo, MouseWait>) {
        wait_custom(TurnZoo, MouseWait)
    }
}

/// Reducer of the select-unit loop: a click either selects a unit of
/// the team that has not moved yet (finishing with its move and attack
/// sets) or is ignored and the loop waits for the next click.
pub struct SelectUnitReduce {
    pub team: usize,
}

impl Reduce<TurnZoo, GridCoord> for SelectUnitReduce {
    type P = ();

    type K = CellSelection;

    open spec fn reduce_rel(
        &self,
        g1: Stuff,
        post: Self,
        g2: Stuff,
        a: GridCoord,
        r: LooperRes<(), CellSelection>,
    ) -> bool {
        &&& post == *self
        &&& g2 == g1
        &&& g1.game.wf() ==> match r {
            LooperRes::Finish(cs) => {
                &&& g1.game.team_spec(self.team).contains_pos(a)
                &&& !g1.game.team_spec(self.team).unit_at(a).moved
                &&& g1.game.selection_for(a, cs)
            },
            LooperRes::Loop(p) => !(g1.game.team_spec(self.team).contains_pos(a) && !g1.game
                .team_spec(self.team).unit_at(a).moved),
        }
    }

    fn reduce(&mut self, a: GridCoord, game: &mut Stuff) -> (r: LooperRes<(), CellSelection>) {
        match game.game.try_select(self.team, a) {
            Some(cs) => LooperRes::Finish(cs),
            None => LooperRes::Loop(()),
        }
    }
}

/// The select-unit loop, as a value: what [`select_unit`] builds.
pub open spec fn select_unit_spec(team: usize) -> Looper<
    TurnZoo,
    WaitForCustom<TurnZoo, MouseWait>,
    SelectUnitReduce,
    CellSelection,
    SelectUnitStart,
> {
    Looper {
        start_func: SelectUnitStart,
        zoo: TurnZoo,
        a: Some(WaitForCustom { zoo: TurnZoo, func: MouseWait, res: None }),
        func: SelectUnitReduce { team },
        finished: None,
    }
}

/// "Keep asking the player to pick a unit until they pick a valid,
/// selectable one": a loop of click-waits folded by
/// [`SelectUnitReduce`].
pub fn select_unit(team: usize) -> (r: Looper<
    TurnZoo,
    WaitForCustom<TurnZoo, MouseWait>,
    SelectUnitReduce,
    CellSelection,
    SelectUnitStart,
>)
    ensures
        r == select_unit_spec(team),
        r.inv(),
        !r.completed(),
{
    let r = looper((), SelectUnitStart, SelectUnitReduce { team });
    proof {
        assert(r.zoo == TurnZoo);
        assert(r.a == Some(WaitForCustom::<TurnZoo, MouseWait> { zoo: TurnZoo, func: MouseWait, res: None }));
        assert(r == select_unit_spec(team));
    }
    r
}

/// Wraps a freshly made selection into the "wait for a destination
/// click" stepper.
pub struct MkPlayerCellAsk {
    pub team: usize,
}

impl MapFn<TurnZoo, CellSelection> for MkPlayerCellAsk {
    type Out = PlayerCellAsk;

    open spec fn post(&self, g1: Stuff, a: CellSelection, g2: Stuff, r: PlayerCellAsk) -> bool {
        g2 == g1 && r == (PlayerCellAsk { a: Some(a), team: self.team, res: None })
    }

    fn call(self, a: CellSelection, game: &mut Stuff) -> (r: PlayerCellAsk) {
        PlayerCellAsk::new(a, self.team)
    }
}

/// Shows a selection and waits for a click, classifying it as a move
/// destination inside the move set or as a miss.
pub struct PlayerCellAsk {
    /// The selection shown while waiting; taken out on completion.
    pub a: Option<CellSelection>,
    pub team: usize,
    /// The classified outcome, once a click has arrived.
    pub res: Option<(CellSelection, Option<GridCoord>)>,
}

impl PlayerCellAsk {
    pub fn new(a: CellSelection, team: usize) -> (r: Self)
        ensures
            r == (PlayerCellAsk { a: Some(a), team, res: None }),
    {
        PlayerCellAsk { a: Some(a), team, res: None }
    }
}

impl GameStepper<TurnZoo> for PlayerCellAsk {
    type Result = (CellSelection, Option<GridCoord>);

    open spec fn inv(&self) -> bool {
        &&& (self.a is Some <==> self.res is None)
        &&& match self.res {
            Some((cs, tgt)) => match tgt {
                Some(c) => cs matches CellSelection::MoveSelection(mm, _attack)
                    && mm.contains_spec(c),
                None => true,
            },
            None => true,
        }
    }

    open spec fn completed(&self) -> bool {
        self.res is Some
    }

    open spec fn step_rel(&self, g1: Stuff, post: Self, g2: Stuff, r: Stage<()>) -> bool {
        &&& g2 == g1
        &&& match g1.mouse {
            None => r is Stay && post == *self,
            Some(cell) => {
                &&& r is NextStage
                &&& self.a matches Some(cs) && post == (PlayerCellAsk {
                    a: None,
                    team: self.team,
                    res: Some(
                        (
                            cs,
                            match cs {
                                CellSelection::MoveSelection(mm, _attack) => if mm.contains_spec(
                                    cell,
                                ) {
                                    Some(cell)
                                } else {
                                    None
                                },
                                CellSelection::BuildSelection(_) => None,
                            },
                        ),
                    ),
                })
            },
        }
    }

    open spec fn consume_rel(&self, g1: Stuff, g2: Stuff, r: (CellSelection, Option<GridCoord>)) -> bool {
        &&& g2 == g1
        &&& self.res == Some(r)
        &&& (r.1 matches Some(c) ==> r.0 matches CellSelection::MoveSelection(mm, _attack)
            && mm.contains_spec(c))
    }

    open spec fn selection(&self) -> Option<CellSelection> {
        self.a
    }

    open spec fn animation(&self) -> Option<Animation<Warrior>> {
        None
    }

    fn step(&mut self, game: &mut Stuff) -> (r: Stage<()>) {
        match game.mouse {
            Some(cell) => {
                let cs = self.a.take().unwrap();
                // a click is a move order only when it lands in the
                // move set; an attack-range or stray click is a miss
                // for this flow, which only resolves moves
                let tgt = match crate::classify_target(&cs, &cell) {
                    crate::TargetKind::InMoveSet => Some(cell),
                    crate::TargetKind::InAttackSet => None,
                    crate::TargetKind::Outside => None,
                };
                self.res = Some((cs, tgt));
                Stage::NextStage(())
            },
            None => Stage::Stay,
        }
    }

    fn consume(self, game: &mut Stuff) -> (r: (CellSelection, Option<GridCoord>)) {
        let PlayerCellAsk { a: _, team: _, res } = self;
        res.unwrap()
    }

    fn get_selection(&self) -> (r: Option<&CellSelection>) {
        self.a.as_ref()
    }

    fn get_animation(&self) -> (r: Option<&Animation<Warrior>>) {
        None
    }
}

/// Walks a move animation to its end, carrying the moved unit.
pub struct AnimationTicker {
    pub a: Animation<Warrior>,
    pub fin: bool,
}

impl AnimationTicker {
    pub fn new(a: Animation<Warrior>) -> (r: Self)
        ensures
            r == (AnimationTicker { a, fin: false }),
    {
        AnimationTicker { a, fin: false }
    }
}

impl GameStepper<TurnZoo> for AnimationTicker {
    type Result = Animation<Warrior>;

    open spec fn inv(&self) -> bool {
        true
    }

    open spec fn completed(&self) -> bool {
        self.fin
    }

    open spec fn step_rel(&self, g1: Stuff, post: Self, g2: Stuff, r: Stage<()>) -> bool {
        &&& g2 == g1
        &&& if self.a.done() {
            r is NextStage && post == (AnimationTicker { a: self.a, fin: true })
        } else {
            r is Stay && post == (AnimationTicker {
                a: Animation { pos: (self.a.pos + 1) as usize, ..self.a },
                fin: self.fin,
            })
        }
    }

    open spec fn consume_rel(&self, g1: Stuff, g2: Stuff, r: Animation<Warrior>) -> bool {
        g2 == g1 && r == self.a
    }

    open spec fn selection(&self) -> Option<CellSelection> {
        None
    }

    open spec fn animation(&self) -> Option<Animation<Warrior>> {
        Some(self.a)
    }

    fn step(&mut self, game: &mut Stuff) -> (r: Stage<()>) {
        match self.a.animate_step() {
            Some(_c) => Stage::Stay,
            None => {
                self.fin = true;
                Stage::NextStage(())
            },
        }
    }

    fn consume(self, game: &mut Stuff) -> (r: Animation<Warrior>) {
        let AnimationTicker { a, fin: _ } = self;
        a
    }

    fn get_selection(&self) -> (r: Option<&CellSelection>) {
        None
    }

    fn get_animation(&self) -> (r: Option<&Animation<Warrior>>) {
        Some(&self.a)
    }
}

/// Resolves a finished move animation against the game state: the
/// carried unit is put back on the board at its destination, marked as
/// having moved.
pub struct InsertUnit {
    pub team: usize,
}

impl MapFn<TurnZoo, Animation<Warrior>> for InsertUnit {
    type Out = ();

    open spec fn post(&self, g1: Stuff, a: Animation<Warrior>, g2: Stuff, r: ()) -> bool {
        let marked = Warrior { moved: true, ..a.data };
        &&& g2.mouse == g1.mouse
        &&& g2.game.grid == g1.game.grid
        &&& (self.team == 0 ==> g2.game.dogs == g1.game.dogs)
        &&& (self.team != 0 ==> g2.game.cats == g1.game.cats)
        &&& if !g1.game.team_spec(self.team).contains_pos(a.data.position) {
            g2.game.team_spec(self.team).elem@ == g1.game.team_spec(self.team).elem@.push(marked)
        } else {
            g2.game == g1.game
        }
    }

    fn call(self, a: Animation<Warrior>, game: &mut Stuff) -> (r: ()) {
        let w = a.into_data();
        let _placed = game.game.place_unit(self.team, w);
        ()
    }
}

/// Acts on a classified destination click: a hit removes the unit from
/// its old cell and starts the move animation; a miss (or a
/// construction selection) yields nothing, so the turn restarts.
pub struct HandleTarget {
    pub team: usize,
}

impl MapFn<TurnZoo, (CellSelection, Option<GridCoord>)> for HandleTarget {
    type Out = Optional<MapStep<AnimationTicker, InsertUnit>>;

    open spec fn post(
        &self,
        g1: Stuff,
        a: (CellSelection, Option<GridCoord>),
        g2: Stuff,
        r: Optional<MapStep<AnimationTicker, InsertUnit>>,
    ) -> bool {
        &&& r.inv()
        &&& !r.completed()
        &&& r.done == false
        &&& match a.1 {
            None => r.a is None && g2 == g1,
            Some(cell) => match a.0 {
                CellSelection::MoveSelection(mm, _attack) => {
                    if mm.contains_spec(cell) && g1.game.team_spec(self.team).contains_pos(
                        mm.start_spec(),
                    ) {
                        g1.game.wf() ==> {
                            let u = g1.game.team_spec(self.team).unit_at(mm.start_spec());
                            let arriving = Warrior {
                                position: cell,
                                move_deficit: crate::movement::MoveUnit(mm.rem_spec(cell)),
                                moved: u.moved,
                                health: u.health,
                            };
                            &&& r.a matches Some(ms) && {
                                &&& ms.func == (InsertUnit { team: self.team })
                                &&& ms.elem.fin == false
                                &&& ms.elem.a.start == mm.start_spec()
                                &&& ms.elem.a.pos == 0
                                &&& ms.elem.a.data == arriving
                                &&& ms.elem.a.path@ == mm.path_spec(cell)
                            }
                            &&& g2.mouse == g1.mouse
                            &&& g2.game.grid == g1.game.grid
                            &&& (self.team == 0 ==> g2.game.dogs == g1.game.dogs)
                            &&& (self.team != 0 ==> g2.game.cats == g1.game.cats)
                            &&& g2.game.wf()
                            &&& forall|c: GridCoord| #[trigger]
                                g2.game.team_spec(self.team).contains_pos(c) == (g1.game.team_spec(
                                    self.team,
                                ).contains_pos(c) && c != mm.start_spec())
                        }
                    } else {
                        r.a is None && g2 == g1
                    }
                },
                CellSelection::BuildSelection(_) => r.a is None && g2 == g1,
            },
        }
    }

    fn call(self, a: (CellSelection, Option<GridCoord>), game: &mut Stuff) -> (r: Optional<
        MapStep<AnimationTicker, InsertUnit>,
    >) {
        let (cs, tgt) = a;
        match tgt {
            Some(cell) => {
                match cs {
                    CellSelection::MoveSelection(mm, _attack) => {
                        let start = mm.start();
                        if !mm.contains_coord(&cell) {
                            return crate::gameplay::optional(None);
                        }
                        let (path, rem) = mm.get_path_data(&cell);
                        match game.game.take_unit(self.team, &start) {
                            Some(c) => {
                                let moved_unit = Warrior {
                                    position: cell,
                                    move_deficit: rem,
                                    moved: c.moved,
                                    health: c.health,
                                };
                                let anim = Animation::new(start, path, moved_unit);
                                crate::gameplay::optional(
                                    Some(
                                        crate::gameplay::map_stepper(
                                            AnimationTicker::new(anim),
                                            InsertUnit { team: self.team },
                                        ),
                                    ),
                                )
                            },
                            None => crate::gameplay::optional(None),
                        }
                    },
                    CellSelection::BuildSelection(_g) => crate::gameplay::optional(None),
                }
            },
            None => crate::gameplay::optional(None),
        }
    }
}

/// One full turn attempt, as a value: select a unit, ask for a
/// destination, and act on the answer.
pub open spec fn move_round_spec(team: usize) -> Chain<
    MapStep<
        Chain<
            MapStep<
                Looper<
                    TurnZoo,
                    WaitForCustom<TurnZoo, MouseWait>,
                    SelectUnitReduce,
                    CellSelection,
                    SelectUnitStart,
                >,
                MkPlayerCellAsk,
            >,
            PlayerCellAsk,
        >,
        HandleTarget,
    >,
    Optional<MapStep<AnimationTicker, InsertUnit>>,
> {
    Chain {
        first: Some(
            MapStep {
                elem: Chain {
                    first: Some(
                        MapStep { elem: select_unit_spec(team), func: MkPlayerCellAsk { team } },
                    ),
                    second: None,
                },
                func: HandleTarget { team },
            },
        ),
        second: None,
    }
}

/// Factory of the top-level loop: each round is one full turn attempt.
pub struct MoveRoundStart {
    pub team: usize,
}

impl StepperFactory<TurnZoo, ()> for MoveRoundStart {
    type A = Chain<
        MapStep<
            Chain<
                MapStep<
                    Looper<
                        TurnZoo,
                        WaitForCustom<TurnZoo, MouseWait>,
                        SelectUnitReduce,
                        CellSelection,
                        SelectUnitStart,
                    >,
                    MkPlayerCellAsk,
                >,
                PlayerCellAsk,
            >,
            HandleTarget,
        >,
        Optional<MapStep<AnimationTicker, InsertUnit>>,
    >;

    open spec fn make_spec(&self, p: ()) -> Self::A {
        move_round_spec(self.team)
    }

    fn make(&self, p: ()) -> (r: Self::A) {
        let su = select_unit(self.team);
        proof {
            assert forall|fv: MkPlayerCellAsk, g1: Stuff, s: CellSelection, g2: Stuff, b: PlayerCellAsk|
                #[trigger] fv.post(g1, s, g2, b) implies b.inv() && !b.completed() by {}
        }
        let first = and_then(su, MkPlayerCellAsk { team: self.team });
        proof {
            assert forall|
                fv: HandleTarget,
                g1: Stuff,
                s: (CellSelection, Option<GridCoord>),
                g2: Stuff,
                b: Optional<MapStep<AnimationTicker, InsertUnit>>,
            |
                #[trigger] fv.post(g1, s, g2, b) implies b.inv() && !b.completed() by {}
        }
        let r = and_then(first, HandleTarget { team: self.team });
        proof {
            assert(r == move_round_spec(self.team));
        }
        r
    }
}

/// Reducer of the top-level loop: a resolved move finishes the turn; a
/// miss goes round again from unit selection.
pub struct MoveRoundReduce;

impl Reduce<TurnZoo, Option<()>> for MoveRoundReduce {
    type P = ();

    type K = Next;

    open spec fn reduce_rel(
        &self,
        g1: Stuff,
        post: Self,
        g2: Stuff,
        a: Option<()>,
        r: LooperRes<(), Next>,
    ) -> bool {
        g2 == g1 && r == (match a {
            Some(u) => LooperRes::<(), Next>::Finish(Next { done: false }),
            None => LooperRes::<(), Next>::Loop(()),
        })
    }

    fn reduce(&mut self, a: Option<()>, game: &mut Stuff) -> (r: LooperRes<(), Next>) {
        match a {
            Some(()) => LooperRes::Finish(crate::gameplay::next()),
            None => LooperRes::Loop(()),
        }
    }
}

/// The whole per-turn-segment stepper: repeat full turn attempts until
/// one resolves a move.
pub fn handle_move(team: usize) -> (r: Looper<
    TurnZoo,
    Chain<
        MapStep<
            Chain<
                MapStep<
                    Looper<
                        TurnZoo,
                        WaitForCustom<TurnZoo, MouseWait>,
                        SelectUnitReduce,
                        CellSelection,
                        SelectUnitStart,
                    >,
                    MkPlayerCellAsk,
                >,
                PlayerCellAsk,
            >,
            HandleTarget,
        >,
        Optional<MapStep<AnimationTicker, InsertUnit>>,
    >,
    MoveRoundReduce,
    Next,
    MoveRoundStart,
>)
    ensures
        r.inv(),
        !r.completed(),
        r.a == Some(move_round_spec(team)),
{
    let r = looper((), MoveRoundStart { team }, MoveRoundReduce);
    r
}

/// A unit that has already moved is never selected, at the level of
/// the whole select-unit loop: whenever the loop signals completion,
/// its pending selection is rooted at a clicked cell holding a
/// not-yet-moved unit of the team (on a well-formed board), and the
/// context is exactly as it was.
pub proof fn lemma_select_loop_never_selects_moved(
    pre: Looper<
        TurnZoo,
        WaitForCustom<TurnZoo, MouseWait>,
        SelectUnitReduce,
        CellSelection,
        SelectUnitStart,
    >,
    g1: Stuff,
    post: Looper<
        TurnZoo,
        WaitForCustom<TurnZoo, MouseWait>,
        SelectUnitReduce,
        CellSelection,
        SelectUnitStart,
    >,
    g2: Stuff,
    r: Stage<()>,
)
    requires
        pre.a matches Some(s),
        pre.step_rel(g1, post, g2, r),
        r is NextStage,
        g1.game.wf(),
    ensures
        g2 == g1,
        post.finished matches Some(cs) ==> exists|cell: GridCoord|
            {
                &&& #[trigger] g1.game.team_spec(pre.func.team).contains_pos(cell)
                &&& !g1.game.team_spec(pre.func.team).unit_at(cell).moved
                &&& g1.game.selection_for(cell, cs)
            },
{
    let s = pre.a->0;
    let (s2, gm1, gm2, res, f2, out): (
        WaitForCustom<TurnZoo, MouseWait>,
        Stuff,
        Stuff,
        GridCoord,
        SelectUnitReduce,
        LooperRes<(), CellSelection>,
    ) = choose|
        s2: WaitForCustom<TurnZoo, MouseWait>,
        gm1: Stuff,
        gm2: Stuff,
        res: GridCoord,
        f2: SelectUnitReduce,
        out: LooperRes<(), CellSelection>,
    |
        #![trigger s.step_rel(g1, s2, gm1, Stage::NextStage(())), s2.consume_rel(gm1, gm2, res), pre.func.reduce_rel(gm2, f2, g2, res, out)]
        {
            &&& s.step_rel(g1, s2, gm1, Stage::NextStage(()))
            &&& s2.consume_rel(gm1, gm2, res)
            &&& pre.func.reduce_rel(gm2, f2, g2, res, out)
            &&& match out {
                LooperRes::Loop(p) => r is Stay,
                LooperRes::Finish(k) => r is NextStage && post.finished == Some(k),
            }
        };
    // the click-wait never touches the context
    assert(gm1 == g1 && gm2 == g1);
    assert(g2 == g1);
    match out {
        LooperRes::Finish(k) => {
            assert(post.finished == Some(k));
            assert(g1.game.team_spec(pre.func.team).contains_pos(res));
            assert(!g1.game.team_spec(pre.func.team).unit_at(res).moved);
            assert(g1.game.selection_for(res, k));
        },
        LooperRes::Loop(_p) => {
            assert(false);
        },
    }
}

} // verus!

//! The cooperative stepper framework: resumable, frame-stepped
//! computations over a game context.
//!
//! A [`GameStepper`] is advanced once per frame by `step`, which
//! returns [`Stage::Stay`] while more frames are needed and
//! [`Stage::NextStage`] the frame it completes; `consume` is then
//! called exactly once to extract the result.  The contract encodes
//! that state machine — `step` demands a live stepper and reports
//! completion exactly when it happens, `consume` demands a completed
//! one — and, through the per-implementation transition relations
//! `step_rel` and `consume_rel`, pins down what each call did: which
//! signal was forwarded from where, how the stepper and the context
//! changed, and where the final value came from.  Combinators sequence
//! steppers ([`Chain`]), transform their results ([`MapStep`]), make
//! them optional ([`Optional`]) and repeat them while threading a
//! payload ([`Looper`]).

use vstd::prelude::*;

use crate::animation::Animation;
use crate::CellSelection;
use crate::Warrior;

verus! {

/// The outcome of one frame of work: keep going next frame, or done
/// with a handoff value.
pub enum Stage<T> {
    NextStage(T),
    Stay,
}

/// Names a game-context type for a family of steppers.
pub trait Zoo: Sized {
    type G;

    fn create() -> Self;
}

/// Relates a borrowed optional projection to its spec-level value.
pub open spec fn opt_ref_agrees<T>(r: Option<&T>, m: Option<T>) -> bool {
    match r {
        Some(x) => m == Some(*x),
        None => m is None,
    }
}

/// A resumable, frame-stepped computation over the context `Z::G`.
///
/// States are: running (`!completed()`), completed (awaiting
/// `consume`), and consumed (the value is gone).  `step` moves running
/// to running (`Stay`) or completed (`NextStage`); nothing leaves the
/// completed state but `consume`.
pub trait GameStepper<Z: Zoo>: Sized {
    type Result;

    /// Internal well-formedness, established by the constructors and
    /// preserved by `step`.
    spec fn inv(&self) -> bool;

    /// The stepper has signalled completion and awaits `consume`.
    spec fn completed(&self) -> bool;

    /// The transition one `step` call may make, stated per
    /// implementation over the stepper and context before (`self`,
    /// `g1`) and after (`post`, `g2`) and the returned signal.
    spec fn step_rel(&self, g1: Z::G, post: Self, g2: Z::G, r: Stage<()>) -> bool;

    /// What `consume` promises of the value it hands back and of the
    /// context it leaves behind.
    spec fn consume_rel(&self, g1: Z::G, g2: Z::G, r: Self::Result) -> bool;

    /// The selection a renderer querying this stepper would see.
    spec fn selection(&self) -> Option<CellSelection>;

    /// The animation a renderer querying this stepper would see.
    spec fn animation(&self) -> Option<Animation<Warrior>>;

    /// Advance one frame's worth of internal progress.
    fn step(&mut self, game: &mut Z::G) -> (r: Stage<()>)
        requires
            old(self).inv(),
            !old(self).completed(),
        ensures
            final(self).inv(),
            r is NextStage <==> final(self).completed(),
            old(self).step_rel(*old(game), *final(self), *final(game), r),
    ;

    /// Extract the final value; called exactly once, after `step` has
    /// returned `NextStage`.
    fn consume(self, game: &mut Z::G) -> (r: Self::Result)
        requires
            self.inv(),
            self.completed(),
        ensures
            self.consume_rel(*old(game), *final(game), r),
    ;

    /// Read-only projection for the renderer: the selection owned by
    /// whichever sub-stepper is active, if any.
    fn get_selection(&self) -> (r: Option<&CellSelection>)
        ensures
            opt_ref_agrees(r, self.selection()),
    ;

    /// Read-only projection for the renderer: the animation owned by
    /// whichever sub-stepper is active, if any.
    fn get_animation(&self) -> (r: Option<&Animation<Warrior>>)
        ensures
            opt_ref_agrees(r, self.animation()),
    ;
}

/// The base case: completes on its first `step` with a unit result.
pub struct Next {
    pub done: bool,
}

pub fn next() -> (r: Next)
    ensures
        r.done == false,
{
    Next { done: false }
}

impl<Z: Zoo> GameStepper<Z> for Next {
    type Result = ();

    open spec fn inv(&self) -> bool {
        true
    }

    open spec fn completed(&self) -> bool {
        self.done
    }

    open spec fn step_rel(&self, g1: Z::G, post: Self, g2: Z::G, r: Stage<()>) -> bool {
        g2 == g1 && post == (Next { done: true }) && r is NextStage
    }

    open spec fn consume_rel(&self, g1: Z::G, g2: Z::G, r: ()) -> bool {
        g2 == g1
    }

    open spec fn selection(&self) -> Option<CellSelection> {
        None
    }

    open spec fn animation(&self) -> Option<Animation<Warrior>> {
        None
    }

    fn step(&mut self, game: &mut Z::G) -> (r: Stage<()>) {
        self.done = true;
        Stage::NextStage(())
    }

    fn consume(self, game: &mut Z::G) -> (r: ()) {
        ()
    }

    fn get_selection(&self) -> (r: Option<&CellSelection>) {
        None
    }

    fn get_animation(&self) -> (r: Option<&Animation<Warrior>>) {
        None
    }
}

/// A user-supplied, frame-local condition: the escape hatch for "wait
/// until something holds of the context", yielding a payload when it
/// does.
pub trait Custom<Z: Zoo>: Sized {
    type L;

    /// What one invocation of the condition may do: how the condition
    /// value and the context may change, and which signal comes back.
    spec fn check_rel(&self, g1: Z::G, post: Self, g2: Z::G, r: Stage<Self::L>) -> bool;

    /// One frame's worth of the condition: `Stay` to keep waiting,
    /// `NextStage` with the payload once it is met.
    fn check(&mut self, game: &mut Z::G) -> (r: Stage<Self::L>)
        ensures
            old(self).check_rel(*old(game), *final(self), *final(game), r),
    ;
}

/// Runs a [`Custom`] condition every frame until it yields a payload.
pub struct WaitForCustom<Z, F: Custom<Z>> where Z: Zoo {
    pub zoo: Z,
    pub func: F,
    pub res: Option<F::L>,
}

pub fn wait_custom<Z: Zoo, F: Custom<Z>>(zoo: Z, func: F) -> (r: WaitForCustom<Z, F>)
    ensures
        r.zoo == zoo,
        r.func == func,
        r.res is None,
{
    WaitForCustom { zoo, func, res: None }
}

impl<Z: Zoo, F: Custom<Z>> GameStepper<Z> for WaitForCustom<Z, F> {
    type Result = F::L;

    open spec fn inv(&self) -> bool {
        true
    }

    open spec fn completed(&self) -> bool {
        self.res is Some
    }

    open spec fn step_rel(&self, g1: Z::G, post: Self, g2: Z::G, r: Stage<()>) -> bool {
        ||| (exists|f2: F|
            self.func.check_rel(g1, f2, g2, Stage::Stay) && r is Stay && post == (WaitForCustom {
                zoo: self.zoo,
                func: f2,
                res: self.res,
            }))
        ||| (exists|f2: F, o: F::L|
            self.func.check_rel(g1, f2, g2, Stage::NextStage(o)) && r is NextStage && post == (
            WaitForCustom { zoo: self.zoo, func: f2, res: Some(o) }))
    }

    open spec fn consume_rel(&self, g1: Z::G, g2: Z::G, r: F::L) -> bool {
        g2 == g1 && self.res == Some(r)
    }

    open spec fn selection(&self) -> Option<CellSelection> {
        None
    }

    open spec fn animation(&self) -> Option<Animation<Warrior>> {
        None
    }

    fn step(&mut self, game: &mut Z::G) -> (r: Stage<()>) {
        match self.func.check(game) {
            Stage::Stay => {
                proof {
                    assert(old(self).func.check_rel(
                        *old(game),
                        self.func,
                        *game,
                        Stage::<F::L>::Stay,
                    ));
                }
                Stage::Stay
            },
            Stage::NextStage(o) => {
                let ghost go = o;
                self.res = Some(o);
                proof {
                    assert(old(self).func.check_rel(
                        *old(game),
                        self.func,
                        *game,
                        Stage::NextStage(go),
                    ));
                }
                Stage::NextStage(())
            },
        }
    }

    fn consume(self, game: &mut Z::G) -> (r: F::L) {
        let WaitForCustom { zoo: _, func: _, res } = self;
        res.unwrap()
    }

    fn get_selection(&self) -> (r: Option<&CellSelection>) {
        None
    }

    fn get_animation(&self) -> (r: Option<&Animation<Warrior>>) {
        None
    }
}

/// A one-shot transformation applied to a stepper's result, with
/// access to the context.
pub trait MapFn<Z: Zoo, In> {
    type Out;

    /// What the transformation promises of its output and of the
    /// context change it makes, given the context before (`g1`) and
    /// after (`g2`) the call.
    spec fn post(&self, g1: Z::G, a: In, g2: Z::G, r: Self::Out) -> bool;

    fn call(self, a: In, game: &mut Z::G) -> (r: Self::Out)
        ensures
            self.post(*old(game), a, *final(game), r),
    ;
}

/// Forwards `step` to the inner stepper and transforms its result on
/// `consume`.
pub struct MapStep<A, F> {
    pub elem: A,
    pub func: F,
}

pub fn map_stepper<Z: Zoo, A: GameStepper<Z>, F: MapFn<Z, A::Result>>(elem: A, func: F) -> (r:
    MapStep<A, F>)
    ensures
        r.elem == elem,
        r.func == func,
{
    MapStep { elem, func }
}

impl<Z: Zoo, A: GameStepper<Z>, F: MapFn<Z, A::Result>> GameStepper<Z> for MapStep<A, F> {
    type Result = F::Out;

    open spec fn inv(&self) -> bool {
        self.elem.inv()
    }

    open spec fn completed(&self) -> bool {
        self.elem.completed()
    }

    open spec fn step_rel(&self, g1: Z::G, post: Self, g2: Z::G, r: Stage<()>) -> bool {
        exists|e2: A|
            (#[trigger] self.elem.step_rel(g1, e2, g2, r)) && post == (MapStep {
                elem: e2,
                func: self.func,
            })
    }

    open spec fn consume_rel(&self, g1: Z::G, g2: Z::G, r: F::Out) -> bool {
        exists|s: A::Result, gm: Z::G|
            (#[trigger] self.elem.consume_rel(g1, gm, s)) && self.func.post(gm, s, g2, r)
    }

    open spec fn selection(&self) -> Option<CellSelection> {
        self.elem.selection()
    }

    open spec fn animation(&self) -> Option<Animation<Warrior>> {
        self.elem.animation()
    }

    fn step(&mut self, game: &mut Z::G) -> (r: Stage<()>) {
        let r = self.elem.step(game);
        proof {
            assert(old(self).elem.step_rel(*old(game), self.elem, *game, r));
        }
        r
    }

    fn consume(self, game: &mut Z::G) -> (r: F::Out) {
        let MapStep { elem, func } = self;
        let s = elem.consume(game);
        let ghost gs = s;
        let ghost gm = *game;
        let r = func.call(s, game);
        proof {
            assert(self.elem.consume_rel(*old(game), gm, gs) && self.func.post(gm, gs, *game, r));
        }
        r
    }

    fn get_selection(&self) -> (r: Option<&CellSelection>) {
        self.elem.get_selection()
    }

    fn get_animation(&self) -> (r: Option<&Animation<Warrior>>) {
        self.elem.get_animation()
    }
}

/// Wraps a stepper that may not exist: completes immediately with
/// `None` when empty, else runs the inner stepper and wraps its result
/// in `Some`.
pub struct Optional<A> {
    pub a: Option<A>,
    pub done: bool,
}

pub fn optional<Z: Zoo, A: GameStepper<Z>>(a: Option<A>) -> (r: Optional<A>)
    ensures
        r.a == a,
        r.done == false,
{
    Optional { a, done: false }
}

impl<Z: Zoo, A: GameStepper<Z>> GameStepper<Z> for Optional<A> {
    type Result = Option<A::Result>;

    open spec fn inv(&self) -> bool {
        match self.a {
            Some(s) => s.inv(),
            None => true,
        }
    }

    open spec fn completed(&self) -> bool {
        match self.a {
            Some(s) => s.completed(),
            None => self.done,
        }
    }

    open spec fn step_rel(&self, g1: Z::G, post: Self, g2: Z::G, r: Stage<()>) -> bool {
        match self.a {
            Some(s) => exists|s2: A|
                (#[trigger] s.step_rel(g1, s2, g2, r)) && post == (Optional {
                    a: Some(s2),
                    done: self.done,
                }),
            None => g2 == g1 && r is NextStage && post == (Optional { a: None::<A>, done: true }),
        }
    }

    open spec fn consume_rel(&self, g1: Z::G, g2: Z::G, r: Option<A::Result>) -> bool {
        match (self.a, r) {
            (Some(s), Some(x)) => s.consume_rel(g1, g2, x),
            (None, None) => g2 == g1,
            _ => false,
        }
    }

    open spec fn selection(&self) -> Option<CellSelection> {
        match self.a {
            Some(s) => s.selection(),
            None => None,
        }
    }

    open spec fn animation(&self) -> Option<Animation<Warrior>> {
        match self.a {
            Some(s) => s.animation(),
            None => None,
        }
    }

    fn step(&mut self, game: &mut Z::G) -> (r: Stage<()>) {
        let inner = self.a.take();
        match inner {
            Some(mut s) => {
                let ghost s1 = s;
                let r = s.step(game);
                self.a = Some(s);
                proof {
                    assert(s1.step_rel(*old(game), self.a->0, *game, r));
                }
                r
            },
            None => {
                self.done = true;
                Stage::NextStage(())
            },
        }
    }

    fn consume(self, game: &mut Z::G) -> (r: Option<A::Result>) {
        let Optional { a, done } = self;
        match a {
            Some(s) => Some(s.consume(game)),
            None => None,
        }
    }

    fn get_selection(&self) -> (r: Option<&CellSelection>) {
        match &self.a {
            Some(s) => s.get_selection(),
            None => None,
        }
    }

    fn get_animation(&self) -> (r: Option<&Animation<Warrior>>) {
        match &self.a {
            Some(s) => s.get_animation(),
            None => None,
        }
    }
}

/// Sequencing: run `first` to completion; its result *is* the second
/// stepper, which then runs to completion.  Exactly one of the two is
/// alive at any time, and the projections route to whichever is.
pub struct Chain<A, B> {
    pub first: Option<A>,
    pub second: Option<B>,
}

/// Every stepper that `A` can ever hand over starts out live: the
/// property a chain needs of its first stage, stated over the whole
/// type so that it survives stepping.
pub open spec fn fresh_results<Z: Zoo, B: GameStepper<Z>, A: GameStepper<Z, Result = B>>() -> bool {
    forall|a: A, g1: Z::G, g2: Z::G, b: B|
        a.inv() && #[trigger] a.consume_rel(g1, g2, b) ==> b.inv() && !b.completed()
}

/// Build a chain from a stepper whose result is itself a stepper.  The
/// caller vouches that whatever `first` hands over starts out live.
pub fn chain<Z: Zoo, B: GameStepper<Z>, A: GameStepper<Z, Result = B>>(first: A) -> (r: Chain<
    A,
    B,
>)
    requires
        first.inv(),
        !first.completed(),
        fresh_results::<Z, B, A>(),
    ensures
        r.first == Some(first),
        r.second is None,
        r.inv(),
        !r.completed(),
        r.selection() == first.selection(),
        r.animation() == first.animation(),
{
    Chain { first: Some(first), second: None }
}

impl<Z: Zoo, B: GameStepper<Z>, A: GameStepper<Z, Result = B>> GameStepper<Z> for Chain<A, B> {
    type Result = B::Result;

    open spec fn inv(&self) -> bool {
        match (self.first, self.second) {
            (Some(a), None) => a.inv() && !a.completed() && fresh_results::<Z, B, A>(),
            (None, Some(b)) => b.inv(),
            _ => false,
        }
    }

    open spec fn completed(&self) -> bool {
        match self.second {
            Some(b) => b.completed(),
            None => false,
        }
    }

    open spec fn step_rel(&self, g1: Z::G, post: Self, g2: Z::G, r: Stage<()>) -> bool {
        match self.first {
            Some(a) => {
                ||| (exists|a2: A|
                    (#[trigger] a.step_rel(g1, a2, g2, Stage::Stay)) && r is Stay && post == (
                    Chain { first: Some(a2), second: self.second }))
                ||| (exists|a2: A, gm: Z::G, b: B|
                    #![trigger a.step_rel(g1, a2, gm, Stage::NextStage(())), a2.consume_rel(gm, g2, b)]
                    a.step_rel(g1, a2, gm, Stage::NextStage(())) && a2.consume_rel(gm, g2, b)
                        && r is Stay && post == (Chain { first: None::<A>, second: Some(b) }))
            },
            None => match self.second {
                Some(b) => exists|b2: B|
                    (#[trigger] b.step_rel(g1, b2, g2, r)) && post == (Chain {
                        first: None::<A>,
                        second: Some(b2),
                    }),
                None => false,
            },
        }
    }

    open spec fn consume_rel(&self, g1: Z::G, g2: Z::G, r: B::Result) -> bool {
        self.second matches Some(b) && b.consume_rel(g1, g2, r)
    }

    open spec fn selection(&self) -> Option<CellSelection> {
        match (self.first, self.second) {
            (Some(a), _) => a.selection(),
            (None, Some(b)) => b.selection(),
            _ => None,
        }
    }

    open spec fn animation(&self) -> Option<Animation<Warrior>> {
        match (self.first, self.second) {
            (Some(a), _) => a.animation(),
            (None, Some(b)) => b.animation(),
            _ => None,
        }
    }

    fn step(&mut self, game: &mut Z::G) -> (r: Stage<()>) {
        let first = self.first.take();
        match first {
            Some(mut a) => {
                let ghost a1 = a;
                let stg = a.step(game);
                let ghost gstg = stg;
                let ghost a2 = a;
                let ghost gm = *game;
                proof {
                    assert(a1.step_rel(*old(game), a2, gm, gstg));
                }
                match stg {
                    Stage::Stay => {
                        self.first = Some(a);
                        proof {
                            assert(gstg == Stage::<()>::Stay);
                        }
                        Stage::Stay
                    },
                    Stage::NextStage(()) => {
                        let b = a.consume(game);
                        self.second = Some(b);
                        proof {
                            assert(gstg is NextStage);
                            match gstg {
                                Stage::NextStage(u) => {
                                    assert(gstg == Stage::<()>::NextStage(u));
                                    assert(u == ());
                                },
                                Stage::Stay => {
                                    assert(false);
                                },
                            }
                            assert(a2.consume_rel(gm, *game, self.second->0));
                        }
                        Stage::Stay
                    },
                }
            },
            None => {
                let second = self.second.take();
                match second {
                    Some(mut b) => {
                        let ghost b1 = b;
                        let r = b.step(game);
                        self.second = Some(b);
                        proof {
                            assert(b1.step_rel(*old(game), self.second->0, *game, r));
                        }
                        r
                    },
                    None => {
                        proof {
                            assert(false);
                        }
                        unreached()
                    },
                }
            },
        }
    }

    fn consume(self, game: &mut Z::G) -> (r: B::Result) {
        let Chain { first: _, second } = self;
        second.unwrap().consume(game)
    }

    fn get_selection(&self) -> (r: Option<&CellSelection>) {
        match &self.first {
            Some(a) => a.get_selection(),
            None => match &self.second {
                Some(b) => b.get_selection(),
                None => None,
            },
        }
    }

    fn get_animation(&self) -> (r: Option<&Animation<Warrior>>) {
        match &self.first {
            Some(a) => a.get_animation(),
            None => match &self.second {
                Some(b) => b.get_animation(),
                None => None,
            },
        }
    }
}

/// Map a stepper's result and run the stepper that the mapping builds:
/// the sequencing idiom "run A, then use A's output to decide and run
/// B".
pub fn and_then<Z: Zoo, A: GameStepper<Z>, F: MapFn<Z, A::Result>>(elem: A, func: F) -> (r: Chain<
    MapStep<A, F>,
    F::Out,
>) where F::Out: GameStepper<Z>
    requires
        elem.inv(),
        !elem.completed(),
        forall|fv: F, g1: Z::G, s: A::Result, g2: Z::G, b: F::Out|
            #[trigger] fv.post(g1, s, g2, b) ==> b.inv() && !b.completed(),
    ensures
        r.first == Some(MapStep { elem, func }),
        r.second is None,
        r.inv(),
        !r.completed(),
        r.selection() == elem.selection(),
        r.animation() == elem.animation(),
{
    let m = map_stepper(elem, func);
    proof {
        assert forall|m2: MapStep<A, F>, g1: Z::G, g2: Z::G, b: F::Out|
            m2.inv() && #[trigger] m2.consume_rel(g1, g2, b) implies b.inv() && !b.completed() by {
            let (s, gm): (A::Result, Z::G) = choose|s: A::Result, gm: Z::G|
                (#[trigger] m2.elem.consume_rel(g1, gm, s)) && m2.func.post(gm, s, g2, b);
            assert(m2.func.post(gm, s, g2, b));
        }
        assert(fresh_results::<Z, F::Out, MapStep<A, F>>());
    }
    chain(m)
}

/// What a loop body reports to its reducer: go round again with a new
/// payload, or stop with the final value.
pub enum LooperRes<A, B> {
    Loop(A),
    Finish(B),
}

impl<A> LooperRes<A, ()> {
    /// Mark a loop that is never finished by its reducer.
    pub fn infinite(self) -> (r: LooperRes<A, ()>)
        ensures
            r == self,
    {
        self
    }
}

/// Builds a fresh sub-stepper from a payload, deterministically: the
/// loop hands the factory exactly the payload the reducer returned.
pub trait StepperFactory<Z: Zoo, P>: Sized {
    type A: GameStepper<Z>;

    /// The stepper this factory yields for a payload.
    spec fn make_spec(&self, p: P) -> Self::A;

    fn make(&self, p: P) -> (r: Self::A)
        ensures
            r == self.make_spec(p),
            r.inv(),
            !r.completed(),
    ;
}

/// Folds each finished sub-stepper's result into the decision to loop
/// with a new payload or finish.
pub trait Reduce<Z: Zoo, In>: Sized {
    type P;

    type K;

    /// What one reduction may do: how the reducer and the context may
    /// change, and which decision comes back for the sub-result `a`.
    spec fn reduce_rel(
        &self,
        g1: Z::G,
        post: Self,
        g2: Z::G,
        a: In,
        r: LooperRes<Self::P, Self::K>,
    ) -> bool;

    fn reduce(&mut self, a: In, game: &mut Z::G) -> (r: LooperRes<Self::P, Self::K>)
        ensures
            old(self).reduce_rel(*old(game), *final(self), *final(game), a, r),
    ;
}

/// A reducer that ends the loop at once, handing the first sub-result
/// back unchanged: looping with it behaves like running the
/// sub-stepper directly.
pub struct FinishNow;

impl<Z: Zoo, In> Reduce<Z, In> for FinishNow {
    type P = ();

    type K = In;

    open spec fn reduce_rel(
        &self,
        g1: Z::G,
        post: Self,
        g2: Z::G,
        a: In,
        r: LooperRes<(), In>,
    ) -> bool {
        g2 == g1 && r == LooperRes::<(), In>::Finish(a)
    }

    fn reduce(&mut self, a: In, game: &mut Z::G) -> (r: LooperRes<(), In>) {
        LooperRes::Finish(a)
    }
}

/// Repeats a sub-interaction: builds a sub-stepper from a payload,
/// runs it to completion, folds its result through the reducer, and
/// either rebuilds with the payload the reducer handed back or
/// finishes.
pub struct Looper<Z, A, F, K, H> {
    pub start_func: H,
    pub zoo: Z,
    pub a: Option<A>,
    pub func: F,
    pub finished: Option<K>,
}

pub fn looper<
    Z: Zoo,
    P,
    A: GameStepper<Z>,
    H: StepperFactory<Z, P, A = A>,
    K,
    F: Reduce<Z, A::Result, P = P, K = K>,
>(start_val: P, start: H, func: F) -> (r: Looper<Z, A, F, K, H>)
    ensures
        r.a == Some(start.make_spec(start_val)),
        r.start_func == start,
        r.func == func,
        r.finished is None,
{
    let elem = start.make(start_val);
    Looper { zoo: Z::create(), a: Some(elem), func, finished: None, start_func: start }
}

impl<
    Z: Zoo,
    P,
    A: GameStepper<Z>,
    H: StepperFactory<Z, P, A = A>,
    K,
    F: Reduce<Z, A::Result, P = P, K = K>,
> GameStepper<Z> for Looper<Z, A, F, K, H> {
    type Result = K;

    open spec fn inv(&self) -> bool {
        match (self.a, self.finished) {
            (Some(s), None) => s.inv() && !s.completed(),
            (None, Some(_)) => true,
            _ => false,
        }
    }

    open spec fn completed(&self) -> bool {
        self.finished is Some
    }

    open spec fn step_rel(&self, g1: Z::G, post: Self, g2: Z::G, r: Stage<()>) -> bool {
        match self.a {
            Some(s) => {
                ||| (exists|s2: A|
                    (#[trigger] s.step_rel(g1, s2, g2, Stage::Stay)) && r is Stay && post == (
                    Looper {
                        start_func: self.start_func,
                        zoo: self.zoo,
                        a: Some(s2),
                        func: self.func,
                        finished: None::<K>,
                    }))
                ||| (exists|s2: A, gm1: Z::G, gm2: Z::G, res: A::Result, f2: F, out: LooperRes<
                    P,
                    K,
                >|
                    #![trigger s.step_rel(g1, s2, gm1, Stage::NextStage(())), s2.consume_rel(gm1, gm2, res), self.func.reduce_rel(gm2, f2, g2, res, out)]
                    {
                        &&& s.step_rel(g1, s2, gm1, Stage::NextStage(()))
                        &&& s2.consume_rel(gm1, gm2, res)
                        &&& self.func.reduce_rel(gm2, f2, g2, res, out)
                        &&& match out {
                            LooperRes::Loop(p) => r is Stay && post == (Looper {
                                start_func: self.start_func,
                                zoo: self.zoo,
                                a: Some(self.start_func.make_spec(p)),
                                func: f2,
                                finished: None::<K>,
                            }),
                            LooperRes::Finish(k) => r is NextStage && post == (Looper {
                                start_func: self.start_func,
                                zoo: self.zoo,
                                a: None::<A>,
                                func: f2,
                                finished: Some(k),
                            }),
                        }
                    })
            },
            None => false,
        }
    }

    open spec fn consume_rel(&self, g1: Z::G, g2: Z::G, r: K) -> bool {
        g2 == g1 && self.finished == Some(r)
    }

    open spec fn selection(&self) -> Option<CellSelection> {
        match self.a {
            Some(s) => s.selection(),
            None => None,
        }
    }

    open spec fn animation(&self) -> Option<Animation<Warrior>> {
        match self.a {
            Some(s) => s.animation(),
            None => None,
        }
    }

    fn step(&mut self, game: &mut Z::G) -> (r: Stage<()>) {
        let a_opt = self.a.take();
        match a_opt {
            Some(mut s) => {
                let ghost s1 = s;
                let stg = s.step(game);
                let ghost gstg = stg;
                let ghost s2 = s;
                let ghost gm1 = *game;
                proof {
                    assert(s1.step_rel(*old(game), s2, gm1, gstg));
                }
                match stg {
                    Stage::Stay => {
                        self.a = Some(s);
                        proof {
                            assert(gstg == Stage::<()>::Stay);
                        }
                        Stage::Stay
                    },
                    Stage::NextStage(()) => {
                        let res = s.consume(game);
                        let ghost gres = res;
                        let ghost gm2 = *game;
                        let ghost f1 = self.func;
                        let out = self.func.reduce(res, game);
                        let ghost gout = out;
                        proof {
                            assert(gstg is NextStage);
                            match gstg {
                                Stage::NextStage(u) => {
                                    assert(gstg == Stage::<()>::NextStage(u));
                                    assert(u == ());
                                },
                                Stage::Stay => {
                                    assert(false);
                                },
                            }
                            assert(s2.consume_rel(gm1, gm2, gres));
                            assert(f1.reduce_rel(gm2, self.func, *game, gres, gout));
                        }
                        match out {
                            LooperRes::Loop(p) => {
                                self.a = Some(self.start_func.make(p));
                                Stage::Stay
                            },
                            LooperRes::Finish(k) => {
                                self.finished = Some(k);
                                Stage::NextStage(())
                            },
                        }
                    },
                }
            },
            None => {
                proof {
                    assert(false);
                }
                unreached()
            },
        }
    }

    fn consume(self, game: &mut Z::G) -> (r: K) {
        let Looper { start_func: _, zoo: _, a: _, func: _, finished } = self;
        finished.unwrap()
    }

    fn get_selection(&self) -> (r: Option<&CellSelection>) {
        match &self.a {
            Some(s) => s.get_selection(),
            None => None,
        }
    }

    fn get_animation(&self) -> (r: Option<&Animation<Warrior>>) {
        match &self.a {
            Some(s) => s.get_animation(),
            None => None,
        }
    }
}

/// While `first` is running a chain shows exactly `first`'s
/// projections; once `first` has been consumed it shows exactly
/// `second`'s — never both, never neither, while a sub-stepper is
/// alive.
pub proof fn lemma_chain_projections<Z: Zoo, B: GameStepper<Z>, A: GameStepper<Z, Result = B>>(
    c: Chain<A, B>,
)
    requires
        c.inv(),
    ensures
        c.first is Some <==> c.second is None,
        c.first matches Some(a) ==> c.selection() == a.selection() && c.animation()
            == a.animation(),
        c.first is None ==> (c.second matches Some(b) ==> c.selection() == b.selection()
            && c.animation() == b.animation()),
{
}

/// Looping with a reducer that finishes at once is the plain
/// sub-stepper, wrapped: every step of such a looper is either the
/// sub-stepper's own `Stay` transition, or — the frame the sub-stepper
/// completes — a `NextStage` whose pending result is exactly the
/// sub-stepper's consume result.
pub proof fn lemma_finish_now_transparent<
    Z: Zoo,
    A: GameStepper<Z>,
    H: StepperFactory<Z, (), A = A>,
>(
    pre: Looper<Z, A, FinishNow, A::Result, H>,
    g1: Z::G,
    post: Looper<Z, A, FinishNow, A::Result, H>,
    g2: Z::G,
    r: Stage<()>,
)
    requires
        pre.a matches Some(s),
        pre.step_rel(g1, post, g2, r),
    ensures
        r is Stay ==> exists|s2: A|
            #![trigger pre.a->0.step_rel(g1, s2, g2, Stage::Stay)]
            pre.a->0.step_rel(g1, s2, g2, Stage::Stay) && post.a == Some(s2),
        r is NextStage ==> exists|s2: A, gm: Z::G, k: A::Result|
            #![trigger pre.a->0.step_rel(g1, s2, gm, Stage::NextStage(())), s2.consume_rel(gm, g2, k)]
            pre.a->0.step_rel(g1, s2, gm, Stage::NextStage(())) && s2.consume_rel(gm, g2, k)
                && post.finished == Some(k),
{
}

/// A looper hands its factory exactly the payload it was constructed
/// with: the first sub-stepper is the factory's answer for that very
/// payload.
pub proof fn lemma_looper_initial_payload<
    Z: Zoo,
    P,
    A: GameStepper<Z>,
    H: StepperFactory<Z, P, A = A>,
    K,
    F: Reduce<Z, A::Result, P = P, K = K>,
>(l: Looper<Z, A, F, K, H>, start: H, start_val: P)
    requires
        l.a == Some(start.make_spec(start_val)),
        l.start_func == start,
    ensures
        l.selection() == start.make_spec(start_val).selection(),
        l.animation() == start.make_spec(start_val).animation(),
{
}

} // verus!

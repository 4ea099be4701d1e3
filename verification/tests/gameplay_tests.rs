use grid_tactics::gameplay::next;
use grid_tactics::gameplay::optional;
use grid_tactics::gameplay::GameStepper;
use grid_tactics::gameplay::LooperRes;
use grid_tactics::gameplay::Stage;
use grid_tactics::movement::GridCoord;
use grid_tactics::movement::WarriorMovement;
use grid_tactics::turn::wait_mouse_input;
use grid_tactics::turn::AnimationTicker;
use grid_tactics::turn::Stuff;
use grid_tactics::turn::TurnZoo;
use grid_tactics::animation::Animation;
use grid_tactics::Game;
use grid_tactics::UnitCollection;
use grid_tactics::Warrior;

fn empty_stuff() -> Stuff {
    Stuff {
        game: Game {
            grid: WarriorMovement { width: 8, height: 8 },
            dogs: UnitCollection::new(Vec::new()),
            cats: UnitCollection::new(Vec::new()),
        },
        mouse: None,
    }
}

#[test]
fn next_completes_on_first_step() {
    let mut stuff = empty_stuff();
    let mut n = next();
    let st = <grid_tactics::gameplay::Next as GameStepper<TurnZoo>>::step(&mut n, &mut stuff);
    assert!(matches!(st, Stage::NextStage(())));
    <grid_tactics::gameplay::Next as GameStepper<TurnZoo>>::consume(n, &mut stuff);
}

#[test]
fn empty_optional_completes_with_none() {
    let mut stuff = empty_stuff();
    let mut o = optional::<TurnZoo, AnimationTicker>(None);
    let st = o.step(&mut stuff);
    assert!(matches!(st, Stage::NextStage(())));
    assert!(o.consume(&mut stuff).is_none());
}

#[test]
fn full_optional_forwards_inner_result() {
    let mut stuff = empty_stuff();
    let anim = Animation::new(
        GridCoord(1, 1),
        vec![GridCoord(1, 2)],
        Warrior::new(GridCoord(1, 2)),
    );
    let mut o = optional::<TurnZoo, AnimationTicker>(Some(AnimationTicker::new(anim)));
    // one cell to walk: one Stay frame, then completion
    assert!(matches!(o.step(&mut stuff), Stage::Stay));
    assert!(o.get_animation().is_some());
    assert!(matches!(o.step(&mut stuff), Stage::NextStage(())));
    let out = o.consume(&mut stuff);
    let anim_back = out.expect("inner stepper result expected");
    assert_eq!(anim_back.data.position, GridCoord(1, 2));
}

#[test]
fn wait_for_custom_waits_then_yields_the_click() {
    let mut stuff = empty_stuff();
    let mut w = wait_mouse_input();
    assert!(matches!(w.step(&mut stuff), Stage::Stay));
    assert!(matches!(w.step(&mut stuff), Stage::Stay));
    stuff.mouse = Some(GridCoord(4, 2));
    assert!(matches!(w.step(&mut stuff), Stage::NextStage(())));
    assert_eq!(w.consume(&mut stuff), GridCoord(4, 2));
}

#[test]
fn looper_finishing_first_behaves_like_the_plain_stepper() {
    // the loop wrapped around a click-wait, with a reducer that always
    // finishes, must stage and answer exactly like the click-wait run
    // directly
    let mut stuff_a = empty_stuff();
    let mut stuff_b = empty_stuff();
    let mut plain = wait_mouse_input();
    let mut looped = grid_tactics::gameplay::looper(
        (),
        grid_tactics::turn::SelectUnitStart,
        grid_tactics::gameplay::FinishNow,
    );
    for frame in 0..3 {
        let mouse = if frame == 2 { Some(GridCoord(3, 3)) } else { None };
        stuff_a.mouse = mouse;
        stuff_b.mouse = mouse;
        let sa = plain.step(&mut stuff_a);
        let sb = looped.step(&mut stuff_b);
        assert_eq!(
            matches!(sa, Stage::NextStage(())),
            matches!(sb, Stage::NextStage(()))
        );
    }
    assert_eq!(plain.consume(&mut stuff_a), looped.consume(&mut stuff_b));
}

#[test]
fn infinite_keeps_the_loop_decision() {
    let l: LooperRes<u32, ()> = LooperRes::Loop(7);
    assert!(matches!(l.infinite(), LooperRes::Loop(7)));
}

#[test]
fn animation_walks_its_path() {
    let mut a = Animation::new(
        GridCoord(2, 2),
        vec![GridCoord(2, 3), GridCoord(2, 4)],
        Warrior::new(GridCoord(2, 4)),
    );
    assert_eq!(a.current(), GridCoord(2, 2));
    assert_eq!(a.animate_step(), Some(GridCoord(2, 3)));
    assert_eq!(a.current(), GridCoord(2, 3));
    assert_eq!(a.animate_step(), Some(GridCoord(2, 4)));
    assert_eq!(a.animate_step(), None);
    assert_eq!(a.current(), GridCoord(2, 4));
    let w = a.into_data();
    assert_eq!(w.position, GridCoord(2, 4));
}

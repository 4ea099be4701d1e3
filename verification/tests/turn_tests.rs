use grid_tactics::gameplay::GameStepper;
use grid_tactics::movement::Filter;
use grid_tactics::gameplay::Stage;
use grid_tactics::movement::GridCoord;
use grid_tactics::movement::MoveUnit;
use grid_tactics::turn::handle_move;
use grid_tactics::turn::select_unit;
use grid_tactics::turn::Stuff;
use grid_tactics::classify_target;
use grid_tactics::CellSelection;
use grid_tactics::TargetKind;
use grid_tactics::Game;
use grid_tactics::UnitCollection;
use grid_tactics::Warrior;

fn game_with(cats: Vec<Warrior>, dogs: Vec<Warrior>) -> Game {
    Game {
        grid: grid_tactics::movement::WarriorMovement { width: 8, height: 8 },
        cats: UnitCollection::new(cats),
        dogs: UnitCollection::new(dogs),
    }
}

#[test]
fn moved_unit_is_never_selected() {
    let mut cat = Warrior::new(GridCoord(2, 2));
    cat.moved = true;
    let game = game_with(vec![cat], vec![]);
    let mut stuff = Stuff { game, mouse: Some(GridCoord(2, 2)) };
    let mut sel = select_unit(0);
    // clicking the moved unit must keep the loop waiting, with no
    // selection ever produced
    for _ in 0..4 {
        let st = sel.step(&mut stuff);
        assert!(matches!(st, Stage::Stay));
        assert!(sel.get_selection().is_none());
    }
}

#[test]
fn selectable_unit_yields_a_move_selection() {
    let game = game_with(vec![Warrior::new(GridCoord(2, 2))], vec![]);
    let mut stuff = Stuff { game, mouse: Some(GridCoord(2, 2)) };
    let mut sel = select_unit(0);
    let st = sel.step(&mut stuff);
    assert!(matches!(st, Stage::NextStage(())));
    match sel.consume(&mut stuff) {
        CellSelection::MoveSelection(mm, _attack) => {
            assert_eq!(mm.start(), GridCoord(2, 2));
            assert!(mm.contains_coord(&GridCoord(2, 5)));
        }
        CellSelection::BuildSelection(_) => panic!("expected a move selection"),
    }
}

#[test]
fn attack_set_includes_adjacent_enemy_move_set_does_not() {
    let game = game_with(
        vec![Warrior::new(GridCoord(2, 2))],
        vec![Warrior::new(GridCoord(3, 2))],
    );
    let cs = game.try_select(0, GridCoord(2, 2)).expect("unit is selectable");
    match cs {
        CellSelection::MoveSelection(mm, attack) => {
            // the enemy's cell is attackable but not enterable
            assert!(attack.contains_coord(&GridCoord(3, 2)));
            assert!(!mm.contains_coord(&GridCoord(3, 2)));
            // attack range one reaches nothing further
            assert!(!attack.contains_coord(&GridCoord(4, 2)));
        }
        CellSelection::BuildSelection(_) => panic!("expected a move selection"),
    }
}

#[test]
fn selection_ignores_empty_and_enemy_cells() {
    let game = game_with(
        vec![Warrior::new(GridCoord(2, 2))],
        vec![Warrior::new(GridCoord(3, 2))],
    );
    assert!(game.try_select(0, GridCoord(5, 5)).is_none());
    assert!(game.try_select(0, GridCoord(3, 2)).is_none());
    assert!(game.try_select(1, GridCoord(3, 2)).is_some());
}

#[test]
fn moved_unit_gets_no_move_budget() {
    let mut cat = Warrior::new(GridCoord(2, 2));
    cat.moved = true;
    let game = game_with(vec![cat], vec![]);
    // selection refuses it outright
    assert!(game.try_select(0, GridCoord(2, 2)).is_none());
    // and the raw matrix for it reaches nothing but its own cell
    let cs = grid_tactics::get_cat_move_attack_matrix(
        &cat,
        grid_tactics::SingleFilter { a: GridCoord(2, 2) },
        grid_tactics::terrain::Grass,
        &grid_tactics::movement::WarriorMovement { width: 8, height: 8 },
    );
    match cs {
        CellSelection::MoveSelection(mm, _) => {
            assert_eq!(mm.coords().len(), 1);
            assert!(mm.contains_coord(&GridCoord(2, 2)));
        }
        CellSelection::BuildSelection(_) => panic!("expected a move selection"),
    }
}

#[test]
fn full_turn_moves_the_unit_and_marks_it() {
    let game = game_with(
        vec![Warrior::new(GridCoord(2, 2)), Warrior::new(GridCoord(5, 5))],
        vec![Warrior::new(GridCoord(3, 3))],
    );
    let mut stuff = Stuff { game, mouse: None };
    let mut turn = handle_move(0);
    // nothing shown before any input
    assert!(turn.get_selection().is_none());
    assert!(turn.get_animation().is_none());
    // frame 1: no input
    assert!(matches!(turn.step(&mut stuff), Stage::Stay));
    // frame 2: click the cat; the selection becomes visible
    stuff.mouse = Some(GridCoord(2, 2));
    assert!(matches!(turn.step(&mut stuff), Stage::Stay));
    assert!(turn.get_selection().is_some());
    assert!(turn.get_animation().is_none());
    // frame 3: click the destination; the animation starts
    stuff.mouse = Some(GridCoord(2, 4));
    assert!(matches!(turn.step(&mut stuff), Stage::Stay));
    // the unit is off the board while it travels
    assert!(stuff.game.team(0).find(&GridCoord(2, 2)).is_none());
    assert!(turn.get_selection().is_none());
    assert!(turn.get_animation().is_some());
    // let the animation walk its two cells, then resolve
    stuff.mouse = None;
    let mut finished = false;
    for _ in 0..8 {
        if matches!(turn.step(&mut stuff), Stage::NextStage(())) {
            finished = true;
            break;
        }
    }
    assert!(finished);
    let moved = stuff.game.team(0).find(&GridCoord(2, 4)).expect("unit arrived");
    assert!(moved.moved);
    assert_eq!(moved.move_deficit, MoveUnit(3));
    assert_eq!(moved.health, 10);
    // the rest of the board is untouched
    assert!(stuff.game.team(0).find(&GridCoord(5, 5)).is_some());
    assert!(stuff.game.team(1).find(&GridCoord(3, 3)).is_some());
}

#[test]
fn click_outside_the_move_set_restarts_the_round() {
    let game = game_with(vec![Warrior::new(GridCoord(2, 2))], vec![]);
    let mut stuff = Stuff { game, mouse: Some(GridCoord(2, 2)) };
    let mut turn = handle_move(0);
    // select the unit
    assert!(matches!(turn.step(&mut stuff), Stage::Stay));
    assert!(turn.get_selection().is_some());
    // click far outside the reachable set: the round is abandoned
    stuff.mouse = Some(GridCoord(7, 7));
    assert!(matches!(turn.step(&mut stuff), Stage::Stay));
    // nothing moved, nothing marked
    let unit = stuff.game.team(0).find(&GridCoord(2, 2)).expect("unit still there");
    assert!(!unit.moved);
    // a fresh round is running: selecting again works
    for _ in 0..3 {
        turn.step(&mut stuff);
    }
    stuff.mouse = Some(GridCoord(2, 2));
    for _ in 0..3 {
        turn.step(&mut stuff);
        if turn.get_selection().is_some() {
            break;
        }
    }
    assert!(turn.get_selection().is_some());
}

#[test]
fn clicks_classify_into_move_attack_or_nothing() {
    let game = game_with(
        vec![Warrior::new(GridCoord(2, 2))],
        vec![Warrior::new(GridCoord(3, 2))],
    );
    let cs = game.try_select(0, GridCoord(2, 2)).expect("selectable");
    // a free cell in reach is a move target
    assert_eq!(classify_target(&cs, &GridCoord(2, 4)), TargetKind::InMoveSet);
    // the adjacent enemy is attackable but not enterable
    assert_eq!(classify_target(&cs, &GridCoord(3, 2)), TargetKind::InAttackSet);
    // far away means nothing
    assert_eq!(classify_target(&cs, &GridCoord(7, 7)), TargetKind::Outside);
    // a construction selection has no clickable sets
    let build = CellSelection::BuildSelection(GridCoord(1, 1));
    assert_eq!(classify_target(&build, &GridCoord(1, 1)), TargetKind::Outside);
}

#[test]
fn collection_find_remove_insert() {
    let mut col = UnitCollection::new(vec![
        Warrior::new(GridCoord(1, 1)),
        Warrior::new(GridCoord(2, 2)),
    ]);
    assert!(col.find(&GridCoord(1, 1)).is_some());
    assert!(col.find(&GridCoord(3, 3)).is_none());
    let w = col.remove(&GridCoord(1, 1));
    assert_eq!(w.position, GridCoord(1, 1));
    assert!(col.find(&GridCoord(1, 1)).is_none());
    col.insert(w);
    assert!(col.find(&GridCoord(1, 1)).is_some());
    assert_eq!(col.elem.len(), 2);
}

#[test]
fn collection_filter_blocks_occupied_cells() {
    let col = UnitCollection::new(vec![Warrior::new(GridCoord(4, 4))]);
    let f = col.filter();
    assert!(!f.filter(&GridCoord(4, 4)));
    assert!(f.filter(&GridCoord(4, 5)));
}

#[test]
fn take_and_place_guard_the_board() {
    let mut game = game_with(
        vec![Warrior::new(GridCoord(2, 2))],
        vec![Warrior::new(GridCoord(3, 2))],
    );
    // nothing to take from an empty cell
    assert!(game.take_unit(0, &GridCoord(5, 5)).is_none());
    let taken = game.take_unit(0, &GridCoord(2, 2)).expect("cat taken");
    assert_eq!(taken.position, GridCoord(2, 2));
    assert!(game.team(0).find(&GridCoord(2, 2)).is_none());
    // placing onto a free cell succeeds and marks the unit as moved
    let mut arriving = taken;
    arriving.position = GridCoord(2, 3);
    assert!(game.place_unit(0, arriving));
    let placed = game.team(0).find(&GridCoord(2, 3)).expect("cat placed");
    assert!(placed.moved);
    // placing onto an occupied cell changes nothing
    let mut second = Warrior::new(GridCoord(2, 3));
    second.health = 4;
    assert!(!game.place_unit(0, second));
    assert_eq!(game.team(0).find(&GridCoord(2, 3)).unwrap().health, 10);
}

#[test]
fn turn_boundary_reset_makes_units_selectable_again() {
    let mut moved_cat = Warrior::new(GridCoord(2, 2));
    moved_cat.moved = true;
    moved_cat.health = 7;
    let mut col = UnitCollection::new(vec![moved_cat, Warrior::new(GridCoord(4, 4))]);
    col.reset_movement();
    let back = col.find(&GridCoord(2, 2)).expect("still on the board");
    assert!(!back.moved);
    assert!(back.is_selectable());
    // only the flag is touched
    assert_eq!(back.health, 7);
    assert_eq!(back.position, GridCoord(2, 2));
    // and a fresh selection works again
    let game = Game {
        grid: grid_tactics::movement::WarriorMovement { width: 8, height: 8 },
        cats: col,
        dogs: UnitCollection::new(vec![]),
    };
    assert!(game.try_select(0, GridCoord(2, 2)).is_some());
}

#[test]
fn warrior_defaults() {
    let w = Warrior::new(GridCoord(3, 1));
    assert_eq!(w.position, GridCoord(3, 1));
    assert_eq!(w.health, 10);
    assert!(!w.moved);
    assert!(w.is_selectable());
    assert_eq!(w.move_deficit, MoveUnit(0));
    assert_eq!(*grid_tactics::HasPos::get_pos(&w), GridCoord(3, 1));
}

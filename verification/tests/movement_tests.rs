use grid_tactics::movement::Filter;
use grid_tactics::movement::FilterChain;
use grid_tactics::movement::GridCoord;
use grid_tactics::movement::MoveUnit;
use grid_tactics::movement::PossibleMoves;
use grid_tactics::movement::WarriorMovement;
use grid_tactics::terrain::Grass;
use grid_tactics::terrain::MoveCost;
use grid_tactics::terrain::TerrainCollection;
use grid_tactics::SingleFilter;
use grid_tactics::UnitCollectionFilter;

fn rule8() -> WarriorMovement {
    WarriorMovement { width: 8, height: 8 }
}

fn open_filter() -> UnitCollectionFilter {
    UnitCollectionFilter { a: Vec::new() }
}

#[test]
fn start_always_contained_with_full_budget() {
    for budget in [0u16, 1, 3, 7] {
        let r = PossibleMoves::new(
            &rule8(),
            &open_filter(),
            &Grass,
            GridCoord(2, 2),
            MoveUnit(budget),
        );
        assert_eq!(r.start(), GridCoord(2, 2));
        assert!(r.contains_coord(&GridCoord(2, 2)));
        let (path, rem) = r.get_path_data(&GridCoord(2, 2));
        assert!(path.is_empty());
        assert_eq!(rem, MoveUnit(budget));
    }
}

#[test]
fn zero_budget_reaches_only_start() {
    let r = PossibleMoves::new(&rule8(), &open_filter(), &Grass, GridCoord(4, 4), MoveUnit(0));
    let coords = r.coords();
    assert_eq!(coords.len(), 1);
    assert_eq!(coords[0], GridCoord(4, 4));
}

#[test]
fn uniform_cost_reach_is_a_diamond() {
    let r = PossibleMoves::new(&rule8(), &open_filter(), &Grass, GridCoord(3, 3), MoveUnit(2));
    for x in 0u16..8 {
        for y in 0u16..8 {
            let dist = (x as i32 - 3).abs() + (y as i32 - 3).abs();
            assert_eq!(
                r.contains_coord(&GridCoord(x, y)),
                dist <= 2,
                "cell ({x},{y}) wrong"
            );
        }
    }
}

#[test]
fn path_costs_stay_within_budget() {
    let budget = 3u16;
    let r = PossibleMoves::new(
        &rule8(),
        &open_filter(),
        &Grass,
        GridCoord(2, 2),
        MoveUnit(budget),
    );
    for c in r.coords() {
        let (path, rem) = r.get_path_data(&c);
        // with uniform cost one, the path length is the cost
        assert!(path.len() as u16 <= budget);
        assert_eq!(rem.0, budget - path.len() as u16);
        // the budget never goes negative at any intermediate step
        for k in 0..=path.len() {
            assert!(k as u16 <= budget);
        }
        // the path really ends at the cell and steps are adjacent
        let mut prev = r.start();
        for step in path.iter() {
            assert!(rule8().is_adjacent(&prev, step));
            prev = *step;
        }
        assert_eq!(prev, c);
    }
}

#[test]
fn single_block_detour() {
    // a single blocking cell directly east of the unit at (2,2)
    let block = SingleFilter { a: GridCoord(3, 2) };
    let r = PossibleMoves::new(&rule8(), &block, &Grass, GridCoord(2, 2), MoveUnit(3));
    assert!(r.contains_coord(&GridCoord(2, 2)));
    assert!(r.contains_coord(&GridCoord(1, 2)));
    // the blocked cell itself cannot be entered
    assert!(!r.contains_coord(&GridCoord(3, 2)));
    // (4,2) needs a detour of cost four, beyond the budget of three
    assert!(!r.contains_coord(&GridCoord(4, 2)));
    // with one more point the detour around the block fits
    let r4 = PossibleMoves::new(&rule8(), &block, &Grass, GridCoord(2, 2), MoveUnit(4));
    assert!(r4.contains_coord(&GridCoord(4, 2)));
    let (path, rem) = r4.get_path_data(&GridCoord(4, 2));
    assert_eq!(path.len(), 4);
    assert_eq!(rem, MoveUnit(0));
    assert!(path.iter().all(|c| *c != GridCoord(3, 2)));
}

#[test]
fn filter_chain_order_independent() {
    let f1 = SingleFilter { a: GridCoord(3, 2) };
    let f2 = UnitCollectionFilter {
        a: vec![GridCoord(2, 3), GridCoord(1, 1)],
    };
    let f2b = UnitCollectionFilter {
        a: vec![GridCoord(2, 3), GridCoord(1, 1)],
    };
    let one = FilterChain::new(f1, f2);
    let other = FilterChain::new(f2b, SingleFilter { a: GridCoord(3, 2) });
    let r1 = PossibleMoves::new(&rule8(), &one, &Grass, GridCoord(2, 2), MoveUnit(3));
    let r2 = PossibleMoves::new(&rule8(), &other, &Grass, GridCoord(2, 2), MoveUnit(3));
    for x in 0u16..8 {
        for y in 0u16..8 {
            let c = GridCoord(x, y);
            assert_eq!(r1.contains_coord(&c), r2.contains_coord(&c));
            if r1.contains_coord(&c) {
                assert_eq!(r1.get_path_data(&c).1, r2.get_path_data(&c).1);
            }
        }
    }
}

#[test]
fn coords_lists_each_cell_once() {
    let r = PossibleMoves::new(&rule8(), &open_filter(), &Grass, GridCoord(1, 1), MoveUnit(2));
    let coords = r.coords();
    assert_eq!(coords[0], GridCoord(1, 1));
    for (i, a) in coords.iter().enumerate() {
        assert!(r.contains_coord(a));
        for b in coords.iter().skip(i + 1) {
            assert_ne!(a, b);
        }
    }
}

#[test]
fn grid_edges_clip_the_reach() {
    let r = PossibleMoves::new(&rule8(), &open_filter(), &Grass, GridCoord(0, 0), MoveUnit(2));
    assert!(r.contains_coord(&GridCoord(0, 2)));
    assert!(r.contains_coord(&GridCoord(2, 0)));
    assert!(r.contains_coord(&GridCoord(1, 1)));
    let coords = r.coords();
    // the corner diamond of radius two has six cells
    assert_eq!(coords.len(), 6);
}

#[test]
fn roads_halve_terrain_cost() {
    let roads = TerrainCollection {
        pos: vec![GridCoord(3, 2), GridCoord(4, 2), GridCoord(5, 2), GridCoord(6, 2)],
        base: Grass,
    };
    assert_eq!(roads.move_cost(&GridCoord(3, 2)), MoveUnit(0));
    assert_eq!(roads.move_cost(&GridCoord(3, 3)), MoveUnit(1));
    // free travel along the road: (6,2) is four steps east of (2,2)
    // but only the first step off the road costs anything
    let r = PossibleMoves::new(&rule8(), &open_filter(), &roads, GridCoord(2, 2), MoveUnit(1));
    assert!(r.contains_coord(&GridCoord(6, 2)));
    assert!(!r.contains_coord(&GridCoord(2, 4)));
    let (_, rem) = r.get_path_data(&GridCoord(6, 2));
    assert_eq!(rem, MoveUnit(1));
}

#[test]
fn saturating_sub_bottoms_at_zero() {
    assert_eq!(MoveUnit(5).saturating_sub(MoveUnit(2)), MoveUnit(3));
    assert_eq!(MoveUnit(2).saturating_sub(MoveUnit(5)), MoveUnit(0));
    assert_eq!(MoveUnit(4).saturating_sub(MoveUnit(4)), MoveUnit(0));
}

#[test]
fn adjacency_respects_bounds() {
    let rule = WarriorMovement { width: 3, height: 3 };
    assert!(rule.is_adjacent(&GridCoord(1, 1), &GridCoord(2, 1)));
    assert!(rule.is_adjacent(&GridCoord(1, 1), &GridCoord(1, 0)));
    assert!(!rule.is_adjacent(&GridCoord(1, 1), &GridCoord(2, 2)));
    assert!(!rule.is_adjacent(&GridCoord(1, 1), &GridCoord(1, 1)));
    // a step off the grid is not adjacency
    assert!(!rule.is_adjacent(&GridCoord(2, 1), &GridCoord(3, 1)));
    assert!(rule.contains(&GridCoord(2, 2)));
    assert!(!rule.contains(&GridCoord(3, 0)));
}

#[test]
fn filters_answer_exactly() {
    let single = SingleFilter { a: GridCoord(2, 2) };
    assert!(!single.filter(&GridCoord(2, 2)));
    assert!(single.filter(&GridCoord(2, 3)));
    let ucf = UnitCollectionFilter {
        a: vec![GridCoord(0, 0), GridCoord(1, 2)],
    };
    assert!(!ucf.filter(&GridCoord(1, 2)));
    assert!(ucf.filter(&GridCoord(2, 1)));
}

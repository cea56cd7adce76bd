use life_sim::Simulation;

fn live_cells(sim: &Simulation, width: usize, height: usize) -> Vec<(usize, usize)> {
    let mut out = Vec::new();
    for y in 0..height {
        for x in 0..width {
            if sim.get_field(x, y) == Some(true) {
                out.push((x, y));
            }
        }
    }
    out
}

#[test]
fn new_grid_is_all_dead() {
    let sim = Simulation::new(5, 4);
    assert!(live_cells(&sim, 5, 4).is_empty());
    assert_eq!(sim.get_field(4, 3), Some(false));
}

#[test]
fn zero_sized_grid_has_no_cells() {
    let mut sim = Simulation::new(0, 7);
    assert_eq!(sim.get_field(0, 0), None);
    sim.activate(0, 0);
    assert_eq!(sim.get_neighbor_count(0, 0), 0);
    sim.step();
    assert_eq!(sim.get_field(0, 0), None);
}

#[test]
fn out_of_bounds_get_is_absent() {
    let sim = Simulation::new(3, 2);
    assert_eq!(sim.get_field(3, 0), None);
    assert_eq!(sim.get_field(0, 2), None);
    assert_eq!(sim.get_field(usize::MAX, usize::MAX), None);
    assert_eq!(sim.get_field(2, 1), Some(false));
}

#[test]
fn out_of_bounds_column_does_not_wrap_to_next_row() {
    let mut sim = Simulation::new(3, 3);
    sim.activate(0, 1);
    assert_eq!(sim.get_field(3, 0), None);
}

#[test]
fn out_of_bounds_write_is_ignored() {
    let mut sim = Simulation::new(3, 3);
    sim.activate(3, 0);
    sim.activate(0, 3);
    assert!(live_cells(&sim, 3, 3).is_empty());
}

#[test]
fn activate_and_deactivate_touch_one_cell() {
    let mut sim = Simulation::new(4, 4);
    sim.activate(2, 3);
    assert_eq!(live_cells(&sim, 4, 4), vec![(2, 3)]);
    sim.deactivate(2, 3);
    assert!(live_cells(&sim, 4, 4).is_empty());
}

#[test]
fn get_field_mut_writes_through() {
    let mut sim = Simulation::new(4, 4);
    if let Some(cell) = sim.get_field_mut(1, 2) {
        *cell = true;
    }
    assert_eq!(sim.get_field(1, 2), Some(true));
    assert!(sim.get_field_mut(4, 0).is_none());
}

#[test]
fn neighbor_count_excludes_the_cell_itself() {
    let mut sim = Simulation::new(3, 3);
    for y in 0..3 {
        for x in 0..3 {
            sim.activate(x, y);
        }
    }
    assert_eq!(sim.get_neighbor_count(1, 1), 8);
    sim.deactivate(1, 1);
    assert_eq!(sim.get_neighbor_count(1, 1), 8);
    assert_eq!(sim.get_neighbor_count(0, 1), 4);
}

#[test]
fn corner_counts_use_only_in_bounds_neighbors() {
    let mut sim = Simulation::new(4, 3);
    sim.activate(0, 0);
    sim.activate(3, 2);
    assert_eq!(sim.get_neighbor_count(0, 0), 0);
    assert_eq!(sim.get_neighbor_count(3, 2), 0);
    sim.activate(1, 0);
    sim.activate(0, 1);
    sim.activate(1, 1);
    sim.activate(2, 2);
    sim.activate(3, 1);
    sim.activate(2, 1);
    assert_eq!(sim.get_neighbor_count(0, 0), 3);
    assert_eq!(sim.get_neighbor_count(3, 2), 3);
}

#[test]
fn last_column_does_not_count_next_row() {
    let mut sim = Simulation::new(3, 3);
    sim.activate(0, 2);
    assert_eq!(sim.get_neighbor_count(2, 1), 0);
    sim.activate(0, 1);
    assert_eq!(sim.get_neighbor_count(2, 0), 0);
}

#[test]
fn last_row_and_column_neighbors_are_counted() {
    let mut sim = Simulation::new(3, 3);
    sim.activate(2, 2);
    assert_eq!(sim.get_neighbor_count(1, 1), 1);
    assert_eq!(sim.get_neighbor_count(2, 1), 1);
    assert_eq!(sim.get_neighbor_count(1, 2), 1);
}

#[test]
fn isolated_cell_dies() {
    let mut sim = Simulation::new(5, 5);
    sim.activate(2, 2);
    sim.step();
    assert!(live_cells(&sim, 5, 5).is_empty());
}

#[test]
fn cell_with_one_neighbor_dies() {
    let mut sim = Simulation::new(5, 5);
    sim.activate(2, 2);
    sim.activate(3, 2);
    sim.step();
    assert!(live_cells(&sim, 5, 5).is_empty());
}

#[test]
fn block_is_a_still_life() {
    let mut sim = Simulation::new(6, 6);
    sim.activate(1, 1);
    sim.activate(1, 2);
    sim.activate(2, 1);
    sim.activate(2, 2);
    sim.step();
    assert_eq!(live_cells(&sim, 6, 6), vec![(1, 1), (2, 1), (1, 2), (2, 2)]);
}

#[test]
fn blinker_oscillates() {
    let mut sim = Simulation::new(7, 7);
    sim.activate(2, 3);
    sim.activate(3, 3);
    sim.activate(4, 3);
    sim.step();
    assert_eq!(live_cells(&sim, 7, 7), vec![(3, 2), (3, 3), (3, 4)]);
    sim.step();
    assert_eq!(live_cells(&sim, 7, 7), vec![(2, 3), (3, 3), (4, 3)]);
}

#[test]
fn dead_cell_with_three_neighbors_is_born() {
    let mut sim = Simulation::new(8, 8);
    sim.activate(1, 1);
    sim.activate(2, 1);
    sim.activate(1, 2);
    assert_eq!(sim.get_field(2, 2), Some(false));
    assert_eq!(sim.get_neighbor_count(2, 2), 3);
    sim.step();
    assert_eq!(sim.get_field(2, 2), Some(true));
    assert_eq!(sim.get_field(6, 6), Some(false));
    assert_eq!(sim.get_field(7, 0), Some(false));
}

#[test]
fn overcrowded_cell_dies() {
    let mut sim = Simulation::new(5, 5);
    sim.activate(2, 2);
    sim.activate(1, 1);
    sim.activate(3, 1);
    sim.activate(1, 3);
    sim.activate(3, 3);
    assert_eq!(sim.get_neighbor_count(2, 2), 4);
    sim.step();
    assert_eq!(sim.get_field(2, 2), Some(false));
}

#[test]
fn identical_grids_step_identically() {
    let seed = [(25, 25), (24, 26), (25, 26), (25, 27), (26, 27)];
    let mut a = Simulation::new(50, 40);
    let mut b = Simulation::new(50, 40);
    for &(x, y) in seed.iter() {
        a.activate(x, y);
    }
    for &(x, y) in seed.iter().rev() {
        b.activate(x, y);
    }
    for _ in 0..10 {
        a.step();
        b.step();
        assert_eq!(live_cells(&a, 50, 40), live_cells(&b, 50, 40));
    }
}

#[test]
fn rule_order_does_not_matter_within_a_step() {
    let mut start = Simulation::new(7, 7);
    start.activate(2, 3);
    start.activate(3, 3);
    start.activate(4, 3);
    let prev = start.clone();

    let mut forward = start.clone();
    for y in 0..7 {
        for x in 0..7 {
            forward.enforce_rules(x, y, &prev);
        }
    }
    let mut backward = start.clone();
    for y in (0..7).rev() {
        for x in (0..7).rev() {
            backward.enforce_rules(x, y, &prev);
        }
    }
    let mut stepped = start;
    stepped.step();
    assert_eq!(live_cells(&forward, 7, 7), live_cells(&backward, 7, 7));
    assert_eq!(live_cells(&forward, 7, 7), live_cells(&stepped, 7, 7));
}

#[test]
fn enforce_rules_leaves_unborn_dead_cell_untouched() {
    let prev = Simulation::new(3, 3);
    let mut cur = Simulation::new(3, 3);
    cur.activate(1, 1);
    cur.enforce_rules(1, 1, &prev);
    assert_eq!(cur.get_field(1, 1), Some(true));
    cur.enforce_rules(5, 5, &prev);
    assert_eq!(live_cells(&cur, 3, 3), vec![(1, 1)]);
}

#[test]
fn symbols_follow_cell_state() {
    let mut sim = Simulation::new(2, 2);
    sim.activate(1, 0);
    assert_eq!(sim.get_symbol(1, 0, "##", "  "), "##");
    assert_eq!(sim.get_symbol(0, 0, "##", "  "), "  ");
    assert_eq!(sim.get_symbol(9, 9, "##", "  "), "  ");
}

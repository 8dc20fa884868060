use xp::navigation::{Cell, FlowField, IVec2};

#[test]
fn get_neighbours_test() {
    let neighbours = FlowField::new(10, 10).get_neighbours(&(3, 3).into());
    assert_eq!(neighbours.len(), 4);
    assert!(neighbours.contains(&Cell::new(3, 4)));
    assert!(neighbours.contains(&Cell::new(3, 2)));
    assert!(neighbours.contains(&Cell::new(2, 3)));
    assert!(neighbours.contains(&Cell::new(4, 3)));
}

#[test]
fn get_neighbours_test_edge() {
    let neighbours = FlowField::new(10, 10).get_neighbours(&(0, 0).into());
    assert_eq!(neighbours.len(), 2);
    assert!(neighbours.contains(&Cell::new(1, 0)));
    assert!(neighbours.contains(&Cell::new(0, 1)));
}

#[test]
fn get_neighbours_cross_test() {
    let neighbours = FlowField::new(10, 10).get_neighbours_cross(&(3, 3).into());
    assert_eq!(neighbours.len(), 4);
    assert!(neighbours.contains(&Cell::new(4, 4)));
    assert!(neighbours.contains(&Cell::new(2, 4)));
    assert!(neighbours.contains(&Cell::new(4, 2)));
    assert!(neighbours.contains(&Cell::new(2, 2)));
}

#[test]
fn get_neighbours_cross_edge_test() {
    let neighbours = FlowField::new(10, 10).get_neighbours_cross(&(10, 10).into());
    assert_eq!(neighbours.len(), 1);
    assert!(neighbours.contains(&Cell::new(9, 9)));
}

#[test]
fn set_destination_test() {
    let mut flow_field = FlowField::new(10, 10);
    flow_field.set_destination_cell(Cell::new(4, 4));
    for row in flow_field.value_rows() {
        println!("{}", row);
    }
}

#[test]
fn set_destination_with_one_blocked_test() {
    let mut flow_field = FlowField::new(10, 10).with_blocked_cell(&Cell::new(3, 3));
    flow_field.set_destination_cell(Cell::new(4, 4));
    assert!(flow_field.get(&Cell::new(3, 3)) == std::u32::MAX);
    for row in flow_field.value_rows() {
        println!("{}", row);
    }
}

#[test]
fn print_flow() {
    let mut flow_field = FlowField::new(25, 25).with_blocked_cells(&[
        Cell::new(8, 8),
        Cell::new(7, 8),
        Cell::new(8, 7),
        Cell::new(7, 7),
    ]);
    flow_field.set_destination_cell(Cell::new(10, 10));
    flow_field.calculate_flow();
    for row in flow_field.value_rows() {
        println!("{}", row);
    }
    for row in flow_field.flow_rows() {
        println!("{}", row);
    }
}

#[test]
fn destination_spreads_shortest_costs() {
    let mut flow_field = FlowField::new(10, 10);
    flow_field.set_destination_cell(Cell::new(4, 4));
    assert_eq!(flow_field.get(&Cell::new(4, 4)), 0);
    assert_eq!(flow_field.get(&Cell::new(5, 4)), 100);
    assert_eq!(flow_field.get(&Cell::new(5, 5)), 141);
    assert_eq!(flow_field.get(&Cell::new(7, 4)), 300);
    assert_eq!(flow_field.get(&Cell::new(6, 6)), 282);
    assert_eq!(flow_field.get(&Cell::new(7, 5)), 341);
    assert_eq!(flow_field.get(&Cell::new(0, 0)), 564);
}

#[test]
fn blocked_cells_stay_blocked_and_are_walked_around() {
    let mut flow_field = FlowField::new(5, 5).with_blocked_cells(&[Cell::new(1, 0), Cell::new(1, 1)]);
    flow_field.set_destination_cell(Cell::new(0, 0));
    assert_eq!(flow_field.get(&Cell::new(1, 0)), u32::MAX);
    assert_eq!(flow_field.get(&Cell::new(1, 1)), u32::MAX);
    // around the wall: up, diagonally over it, and down again
    assert_eq!(flow_field.get(&Cell::new(0, 1)), 100);
    assert_eq!(flow_field.get(&Cell::new(1, 2)), 241);
    assert_eq!(flow_field.get(&Cell::new(2, 1)), 382);
    assert_eq!(flow_field.get(&Cell::new(2, 0)), 482);
}

#[test]
fn flow_points_to_the_cheapest_neighbour() {
    let mut flow_field = FlowField::new(5, 5);
    flow_field.set_destination_cell(Cell::new(2, 2));
    flow_field.calculate_flow();
    let d = flow_field.get_flow_cell(&Cell::new(4, 2)).unwrap();
    assert_eq!((d.x, d.y), (-1, 0));
    let d = flow_field.get_flow_cell(&Cell::new(0, 0)).unwrap();
    assert_eq!((d.x, d.y), (1, 1));
    // every cell but the destination points downhill
    for y in 0..5usize {
        for x in 0..5usize {
            if (x, y) == (2, 2) {
                continue;
            }
            let here = flow_field.get(&Cell::new(x, y));
            if let Some(d) = flow_field.get_flow_cell(&Cell::new(x, y)) {
                let nx = (x as i32 + d.x) as usize;
                let ny = (y as i32 + d.y) as usize;
                assert!(flow_field.get(&Cell::new(nx, ny)) < here);
            }
        }
    }
    // the destination itself points at its first cheapest neighbour
    let d = flow_field.get_flow_cell(&Cell::new(2, 2)).unwrap();
    assert_eq!((d.x, d.y), (1, 0));
}

#[test]
fn unreached_field_has_no_flow() {
    let mut flow_field = FlowField::new(3, 3);
    flow_field.calculate_flow();
    assert_eq!(flow_field.get(&Cell::new(1, 1)), u32::MAX - 1);
    assert!(flow_field.get_flow_cell(&Cell::new(1, 1)).is_none());
}

#[test]
fn value_rows_are_padded_top_row_first() {
    let mut flow_field = FlowField::new(2, 2);
    flow_field.set(&Cell::new(0, 0), 7);
    flow_field.set(&Cell::new(1, 0), 12);
    flow_field.set(&Cell::new(0, 1), 0);
    flow_field.set(&Cell::new(1, 1), 4294967295);
    let rows = flow_field.value_rows();
    assert_eq!(rows, vec![format!("{:10} {:10} ", 0, 4294967295u32), format!("{:10} {:10} ", 7, 12)]);
    assert_eq!(rows[1], "         7         12 ");
}

#[test]
fn flow_rows_draw_arrows() {
    let mut flow_field = FlowField::new(3, 1);
    flow_field.set_flow_cell(&Cell::new(0, 0), Some(IVec2::new(1, 0)));
    flow_field.set_flow_cell(&Cell::new(1, 0), Some(IVec2::new(-1, -1)));
    assert_eq!(flow_field.flow_rows(), vec![" → ⬋ x".to_string()]);
}

#[test]
fn cells_from_pairs() {
    let c: Cell = (2, 5).into();
    assert_eq!(c, Cell::new(2, 5));
    let v = IVec2::new(-1, 1);
    assert_eq!((v.x, v.y), (-1, 1));
}

#[test]
fn walls_are_not_crossed() {
    let mut flow_field = FlowField::new(3, 3).with_blocked_cells(&[Cell::new(1, 0), Cell::new(1, 1), Cell::new(1, 2)]);
    flow_field.set_destination_cell(Cell::new(0, 1));
    assert_eq!(flow_field.get(&Cell::new(0, 0)), 100);
    assert_eq!(flow_field.get(&Cell::new(0, 2)), 100);
    for y in 0..3 {
        assert_eq!(flow_field.get(&Cell::new(1, y)), u32::MAX);
        assert_eq!(flow_field.get(&Cell::new(2, y)), u32::MAX - 1);
    }
}

#[test]
fn value_rows_pad_at_every_digit_count() {
    let values = [9u32, 10, 99, 100, 999_999_999, 1_000_000_000, 4_294_967_294, 123_456];
    let mut flow_field = FlowField::new(8, 8);
    for (x, v) in values.iter().enumerate() {
        flow_field.set(&Cell::new(x, 0), *v);
    }
    let expected: String = values.iter().map(|v| format!("{:10} ", v)).collect();
    assert_eq!(flow_field.value_rows()[7], expected);
}

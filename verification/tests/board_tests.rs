use tetris::{Board, Shape, ShapeInstace};

#[test]
fn test_add_shape() {
    let mut board = Board::new(10, 20);
    let shape = Board::l();
    let si = ShapeInstace { s: shape, x: 0, y: 0 };
    board.add_shape(&si);
    let grid = board.get_grid();
    assert_eq!(grid[0][0], 1);
    assert_eq!(grid[1][0], 1);
    assert_eq!(grid[2][0], 1);
    assert_eq!(grid[2][1], 1);
}

#[test]
fn test_check_collision() {
    let mut board = Board::new(10, 20);
    let shape = Board::l();
    let si = ShapeInstace {
        s: shape.clone(),
        x: 0,
        y: 0,
    };
    assert_eq!(board.check_collision(&si), false);

    // move instance to the bottom and add it
    let si2 = ShapeInstace {
        s: shape.clone(),
        x: 0,
        y: 20 - shape.v.len(),
    };
    board.add_shape(&si2);

    // check the collision with same instance shape
    assert_eq!(board.check_collision(&si2), true);
}

// Locking a placement on an empty grid occupies exactly the shape's occupied
// cells and leaves every other cell empty.
#[test]
fn lock_sets_exactly_the_occupied_cells() {
    let mut board = Board::new(10, 20);
    let si = ShapeInstace {
        s: Board::l(),
        x: 0,
        y: 0,
    };
    board.add_shape(&si);
    let grid = board.get_grid();
    for r in 0..20 {
        for c in 0..10 {
            let expected = matches!((r, c), (0, 0) | (1, 0) | (2, 0) | (2, 1));
            assert_eq!(grid[r][c] == 1, expected, "cell ({}, {})", r, c);
        }
    }
}

// A placement that sticks out past the right or bottom edge collides.
#[test]
fn collision_at_right_and_bottom_edges() {
    let board = Board::new(10, 20);
    let inside = ShapeInstace {
        s: Board::l(),
        x: 8,
        y: 17,
    };
    assert!(!board.check_collision(&inside));
    let past_right = ShapeInstace {
        s: Board::l(),
        x: 9,
        y: 0,
    };
    assert!(board.check_collision(&past_right));
    let past_bottom = ShapeInstace {
        s: Board::l(),
        x: 0,
        y: 18,
    };
    assert!(board.check_collision(&past_bottom));
}

// A placement whose occupied cells land on locked cells collides; one that
// only neighbours them does not.
#[test]
fn collision_with_locked_cells() {
    let mut board = Board::new(10, 20);
    board.add_shape(&ShapeInstace {
        s: Board::o(),
        x: 4,
        y: 18,
    });
    let overlapping = ShapeInstace {
        s: Board::o(),
        x: 5,
        y: 18,
    };
    assert!(board.check_collision(&overlapping));
    let beside = ShapeInstace {
        s: Board::o(),
        x: 6,
        y: 18,
    };
    assert!(!board.check_collision(&beside));
}

fn mat(s: &Shape) -> Vec<Vec<i32>> {
    s.v.clone()
}

// One clockwise rotation of L: dimensions swap and cells move as in a
// transpose followed by reversing each row.
#[test]
fn rotation_once_exact() {
    let rotated = Board::rotate_shape(Board::l());
    assert_eq!(mat(&rotated), vec![vec![1, 1, 1], vec![1, 0, 0]]);
}

// Rotating a shape four times returns the original occupancy matrix; one
// rotation of the square O shape already does.
#[test]
fn rotation_four_times_round_trip() {
    for shape in [
        Board::l(),
        Board::j(),
        Board::o(),
        Board::s(),
        Board::z(),
        Board::i(),
    ] {
        let original = mat(&shape);
        let mut current = shape;
        for _ in 0..4 {
            current = Board::rotate_shape(current);
        }
        assert_eq!(mat(&current), original);
    }
    let o_once = Board::rotate_shape(Board::o());
    assert_eq!(mat(&o_once), mat(&Board::o()));
}

// moveLeft at x == 0 and moveRight at x + shape width == width are no-ops,
// whatever the grid holds.
#[test]
fn boundary_moves_are_no_ops() {
    let mut board = Board::new(10, 20);
    board.add_shape(&ShapeInstace {
        s: Board::o(),
        x: 0,
        y: 10,
    });
    board.current_active_block = Some(ShapeInstace {
        s: Board::l(),
        x: 0,
        y: 0,
    });
    board.move_current_shape_left();
    let after_left = board.get_current_active_shape();
    assert_eq!(after_left.x, 0);
    assert_eq!(after_left.y, 0);
    assert_eq!(mat(&after_left.s), mat(&Board::l()));

    board.current_active_block = Some(ShapeInstace {
        s: Board::l(),
        x: 8,
        y: 0,
    });
    board.move_current_shape_right();
    let after_right = board.get_current_active_shape();
    assert_eq!(after_right.x, 8);
    assert_eq!(after_right.y, 0);
}

// Away from the edges, the lateral moves shift the anchor by one column.
#[test]
fn lateral_moves_shift_by_one() {
    let mut board = Board::new(10, 20);
    board.current_active_block = Some(ShapeInstace {
        s: Board::o(),
        x: 5,
        y: 3,
    });
    board.move_current_shape_left();
    assert_eq!(board.get_current_active_shape().x, 4);
    board.move_current_shape_right();
    board.move_current_shape_right();
    assert_eq!(board.get_current_active_shape().x, 6);
    assert_eq!(board.get_current_active_shape().y, 3);
}

// Querying the active placement repeatedly without any mutating operation
// returns the same placement: the spawn happens at most once per absence.
#[test]
fn active_query_is_idempotent() {
    let mut board = Board::new(20, 20);
    let first = board.get_current_active_shape();
    assert_eq!(first.x, 10);
    assert_eq!(first.y, 0);
    for _ in 0..5 {
        let again = board.get_current_active_shape();
        assert_eq!(again.x, first.x);
        assert_eq!(again.y, first.y);
        assert_eq!(mat(&again.s), mat(&first.s));
    }
}

// A gravity tick on a free square moves the active placement down one row
// and locks nothing.
#[test]
fn gravity_step_moves_down() {
    let mut board = Board::new(10, 20);
    board.current_active_block = Some(ShapeInstace {
        s: Board::o(),
        x: 4,
        y: 0,
    });
    board.move_current_shape_down();
    let active = board.get_current_active_shape();
    assert_eq!(active.x, 4);
    assert_eq!(active.y, 1);
    let grid = board.get_grid();
    assert!(grid.iter().all(|row| row.iter().all(|&cell| cell == 0)));
}

// A piece whose next downward step would collide is locked where it stands,
// and the board returns to the spawn-pending state: the next query spawns a
// fresh piece at the top.
#[test]
fn gravity_tick_locks_at_the_bottom() {
    let mut board = Board::new(10, 20);
    board.current_active_block = Some(ShapeInstace {
        s: Board::l(),
        x: 0,
        y: 17,
    });
    board.move_current_shape_down();
    let grid = board.get_grid();
    for r in 0..20 {
        for c in 0..10 {
            let expected = matches!((r, c), (17, 0) | (18, 0) | (19, 0) | (19, 1));
            assert_eq!(grid[r][c] == 1, expected, "cell ({}, {})", r, c);
        }
    }
    let respawned = board.get_current_active_shape();
    assert_eq!(respawned.x, 5);
    assert_eq!(respawned.y, 0);
}

// A rotation that would push the piece past the right edge is rejected and
// the placement is left unchanged.
#[test]
fn rotation_rejected_at_the_edge() {
    let mut board = Board::new(20, 20);
    board.current_active_block = Some(ShapeInstace {
        s: Board::i(),
        x: 19,
        y: 0,
    });
    board.rotate_current_shape();
    let active = board.get_current_active_shape();
    assert_eq!(active.x, 19);
    assert_eq!(mat(&active.s), mat(&Board::i()));

    board.current_active_block = Some(ShapeInstace {
        s: Board::i(),
        x: 10,
        y: 0,
    });
    board.rotate_current_shape();
    let turned = board.get_current_active_shape();
    assert_eq!(mat(&turned.s), vec![vec![1, 1, 1, 1]]);
}

// The deterministic selector returns the six canonical shapes in order.
#[test]
fn shape_from_index_is_exact() {
    assert_eq!(mat(&Board::shape_from_index(0)), mat(&Board::l()));
    assert_eq!(mat(&Board::shape_from_index(1)), mat(&Board::j()));
    assert_eq!(mat(&Board::shape_from_index(2)), mat(&Board::o()));
    assert_eq!(mat(&Board::shape_from_index(3)), mat(&Board::s()));
    assert_eq!(mat(&Board::shape_from_index(4)), mat(&Board::z()));
    assert_eq!(mat(&Board::shape_from_index(5)), mat(&Board::i()));
}

// Every random shape is one of the six canonical ones, and the draws are not
// all the same shape.
#[test]
fn random_shape_is_canonical_and_varies() {
    let canonical: Vec<Vec<Vec<i32>>> = vec![
        mat(&Board::l()),
        mat(&Board::j()),
        mat(&Board::o()),
        mat(&Board::s()),
        mat(&Board::z()),
        mat(&Board::i()),
    ];
    let mut seen = [false; 6];
    for _ in 0..200 {
        let drawn = mat(&Board::random_shape());
        let index = canonical.iter().position(|m| *m == drawn);
        seen[index.expect("random shape is not canonical")] = true;
    }
    assert!(seen.iter().filter(|&&s| s).count() >= 2);
}

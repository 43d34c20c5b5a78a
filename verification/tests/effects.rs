use ecosim::{Board, BoardSection, Conditions, Effect, Location};

#[test]
fn board_new_builds_zeroed_grid() {
    let board = Board::new(3);
    assert_eq!(board.size, 3);
    assert_eq!(board.matrix.len(), 4);
    for (x, row) in board.matrix.iter().enumerate() {
        assert_eq!(row.len(), 4);
        for (y, section) in row.iter().enumerate() {
            assert_eq!(section.conditions.light, 0);
            assert_eq!(section.conditions.moisture, 0);
            assert_eq!(section.conditions.oxygen, 0);
            assert_eq!(section.location.max, 3);
            assert_eq!(section.location.x, x as i64);
            assert_eq!(section.location.y, y as i64);
        }
    }
}

#[test]
fn apply_overwrites_regardless_of_prior_value() {
    // a reset to zero followed by ambient light leaves every cell at 70
    let mut board = Board::new(2);
    Effect::Moisture(9).apply_global(&mut board);
    Effect::Light(123).apply_global(&mut board);
    Effect::Light(0).apply_global(&mut board);
    Effect::Light(70).apply_global(&mut board);
    for row in &board.matrix {
        for section in row {
            assert_eq!(section.conditions.light, 70);
            // the other fields are untouched
            assert_eq!(section.conditions.moisture, 9);
            assert_eq!(section.conditions.oxygen, 0);
        }
    }
}

#[test]
fn append_accumulates_without_clamping() {
    // appending Moisture(5) twice raises every cell by exactly 10
    let mut board = Board::new(2);
    Effect::Moisture(3).apply_global(&mut board);
    Effect::Moisture(5).append_global(&mut board);
    Effect::Moisture(5).append_global(&mut board);
    for row in &board.matrix {
        for section in row {
            assert_eq!(section.conditions.moisture, 13);
        }
    }
}

#[test]
fn append_saturates_at_zero() {
    let mut section = BoardSection {
        conditions: Conditions { light: 4, moisture: 2, oxygen: 0 },
        location: Location { max: 1, x: 0, y: 0 },
    };
    Effect::Light(-10).append_to_section(&mut section);
    assert_eq!(section.conditions.light, 0);
    Effect::Moisture(-1).append_to_section(&mut section);
    assert_eq!(section.conditions.moisture, 1);
}

#[test]
fn append_saturates_at_domain_top() {
    let mut section = BoardSection {
        conditions: Conditions { light: i64::MAX - 1, moisture: 0, oxygen: 0 },
        location: Location { max: 1, x: 0, y: 0 },
    };
    Effect::Light(5).append_to_section(&mut section);
    assert_eq!(section.conditions.light, i64::MAX);
}

#[test]
fn apply_clamps_negative_delta_to_zero() {
    let mut section = BoardSection {
        conditions: Conditions { light: 9, moisture: 9, oxygen: 0 },
        location: Location { max: 1, x: 0, y: 0 },
    };
    Effect::Light(-3).apply_to_section(&mut section);
    assert_eq!(section.conditions.light, 0);
}

#[test]
fn oxygen_effect_is_a_recognized_no_op() {
    let mut section = BoardSection {
        conditions: Conditions { light: 1, moisture: 2, oxygen: 3 },
        location: Location { max: 1, x: 0, y: 0 },
    };
    Effect::Oxygen(50).apply_to_section(&mut section);
    Effect::Oxygen(50).append_to_section(&mut section);
    assert_eq!(section.conditions.light, 1);
    assert_eq!(section.conditions.moisture, 2);
    assert_eq!(section.conditions.oxygen, 3);
}

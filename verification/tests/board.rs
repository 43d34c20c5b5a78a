use ecosim::Location;
use std::time::Instant;

#[test]
fn benchmark_movement_calc() {
    let l = Location::new_random(255);

    let start = Instant::now();
    for _ in 0..1 {
        let _a = l.within_range(1);
    }
    let stop = Instant::now();
    println!("within_range: {:?}", stop - start);

    let start = Instant::now();
    for _ in 0..1 {
        let _a = l.nearby();
    }
    let stop = Instant::now();
    println!("nearby: {:?}", stop - start);
}

#[test]
fn location_nearby() {
    let max: i64 = 255;

    // Location 0, 0
    let mut l = Location { max, x: 0, y: 0 };

    let mut expected: Vec<Location> = Vec::new();
    expected.push(Location { max, x: 0, y: 1 });
    expected.push(Location { max, x: 1, y: 1 });
    expected.push(Location { max, x: 1, y: 0 });
    let result = l.nearby();
    assert_eq!(result.len(), expected.len());
    for location in result {
        assert!(expected.contains(&location));
    }

    // Location 1, 1
    l.x = 1;
    l.y = 1;
    expected.clear();

    let mut expected: Vec<Location> = Vec::new();
    expected.push(Location { max, x: 0, y: 0 });
    expected.push(Location { max, x: 0, y: 1 });
    expected.push(Location { max, x: 0, y: 2 });

    expected.push(Location { max, x: 1, y: 0 });
    // do not include self
    expected.push(Location { max, x: 1, y: 2 });

    expected.push(Location { max, x: 2, y: 0 });
    expected.push(Location { max, x: 2, y: 1 });
    expected.push(Location { max, x: 2, y: 2 });

    let result = l.nearby();
    assert_eq!(result.len(), expected.len());
    for location in result {
        assert!(expected.contains(&location));
    }
}

fn check_results(results: &Vec<Location>, expected: &Vec<Location>) {
    // ensure that number of locations is the same
    assert_eq!(results.len(), expected.len());

    for l in results {
        assert!(expected.contains(l));
    }
    // reverse case in case of duplicate values
    for l in expected {
        assert!(results.contains(l));
    }
}

#[test]
fn location_within_range() {
    let max: i64 = 255;
    let mut location = Location { max, x: 0, y: 0 };
    let mut expected: Vec<Location> = Vec::new();
    let mut results: Vec<Location>;

    // 0, 0 (lower-left corner)
    location.x = 0;
    location.y = 0;
    expected.clear();
    expected.push(Location { max, x: 0, y: 1 });
    expected.push(Location { max, x: 1, y: 1 });
    expected.push(Location { max, x: 1, y: 0 });

    results = location.within_range(1);
    check_results(&results, &expected);

    // 255, 0 (lower-right corner)
    location.x = 255;
    location.y = 0;
    expected.clear();
    expected.push(Location { max, x: 254, y: 0 });
    expected.push(Location { max, x: 255, y: 1 });
    expected.push(Location { max, x: 254, y: 1 });

    results = location.within_range(1);
    check_results(&results, &expected);

    // 0, 255 (upper-left corner)
    location.x = 0;
    location.y = 255;
    expected.clear();
    expected.push(Location { max, x: 0, y: 254 });
    expected.push(Location { max, x: 1, y: 254 });
    expected.push(Location { max, x: 1, y: 255 });

    results = location.within_range(1);
    check_results(&results, &expected);

    // 255, 255 (upper-right corner)
    location.x = 255;
    location.y = 255;
    expected.clear();
    expected.push(Location { max, x: 255, y: 254 });
    expected.push(Location { max, x: 254, y: 254 });
    expected.push(Location { max, x: 254, y: 255 });

    results = location.within_range(1);
    check_results(&results, &expected);

    // 1, 1
    location.x = 1;
    location.y = 1;
    expected.clear();
    expected.push(Location { max, x: 0, y: 0 });
    expected.push(Location { max, x: 0, y: 1 });
    expected.push(Location { max, x: 0, y: 2 });

    expected.push(Location { max, x: 1, y: 0 });
    expected.push(Location { max, x: 1, y: 2 });

    expected.push(Location { max, x: 2, y: 0 });
    expected.push(Location { max, x: 2, y: 1 });
    expected.push(Location { max, x: 2, y: 2 });

    results = location.within_range(1);
    check_results(&results, &expected);
}

#[test]
fn within_range_one_matches_nearby() {
    // the two queries agree set-wise at corners, edges and the interior
    let max: i64 = 5;
    let points: [(i64, i64); 5] = [(0, 0), (5, 5), (0, 3), (2, 5), (3, 3)];
    for (x, y) in points {
        let l = Location { max, x, y };
        let near = l.nearby();
        let ranged = l.within_range(1);
        assert_eq!(near.len(), ranged.len());
        for c in &near {
            assert!(ranged.contains(c));
        }
        for c in &ranged {
            assert!(near.contains(c));
        }
    }
}

#[test]
fn nearby_counts_by_position() {
    // 3 at a corner, 5 on a non-corner edge, 8 in the interior
    let max: i64 = 2;
    assert_eq!(Location { max, x: 0, y: 0 }.nearby().len(), 3);
    assert_eq!(Location { max, x: 2, y: 2 }.nearby().len(), 3);
    assert_eq!(Location { max, x: 1, y: 0 }.nearby().len(), 5);
    assert_eq!(Location { max, x: 2, y: 1 }.nearby().len(), 5);
    assert_eq!(Location { max, x: 1, y: 1 }.nearby().len(), 8);
    for l in (Location { max, x: 1, y: 1 }).nearby() {
        assert!(l.x >= 0 && l.x <= max && l.y >= 0 && l.y <= max);
    }
}

#[test]
fn new_random_stays_in_bounds() {
    for _ in 0..64 {
        let l = Location::new_random(3);
        assert!(l.x >= 0 && l.x <= 3);
        assert!(l.y >= 0 && l.y <= 3);
        assert_eq!(l.max, 3);
    }
}

#[test]
fn within_range_three_on_big_board() {
    let max: i64 = 254;
    let l = Location { max, x: 100, y: 100 };
    let results = l.within_range(3);
    // a 7 x 7 square minus the center itself
    assert_eq!(results.len(), 48);
    for c in &results {
        assert!((c.x - l.x).abs() <= 3 && (c.y - l.y).abs() <= 3);
        assert!(!(c.x == l.x && c.y == l.y));
    }
}

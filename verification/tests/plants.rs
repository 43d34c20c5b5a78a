use ecosim::{Board, BoardSection, Conditions, Effect, Evolve, Location, Plant, PlantKind, Rock};

fn fresh_section(moisture: i64) -> BoardSection {
    BoardSection {
        conditions: Conditions { light: 70, moisture, oxygen: 0 },
        location: Location { max: 4, x: 1, y: 1 },
    }
}

fn fresh_fern() -> Plant {
    let board = Board::new(4);
    let mut p = Plant::new(PlantKind::Fern, &board);
    p.location = Location { max: 4, x: 1, y: 1 };
    p
}

fn fresh_tree() -> Plant {
    let board = Board::new(4);
    let mut p = Plant::new(PlantKind::Tree, &board);
    p.location = Location { max: 4, x: 1, y: 1 };
    p
}

#[test]
fn new_plant_carries_kind_parameters() {
    let fern = fresh_fern();
    assert_eq!(fern.age, 0);
    assert_eq!(fern.age_max, 12);
    assert_eq!(fern.health, 1);
    assert_eq!(fern.health_max, 10);
    assert_eq!(fern.size, 1);
    assert_eq!(fern.size_max, 8);
    assert_eq!(fern.offspring_chance, 200_000);
    assert_eq!(fern.offspring_range, 1);
    assert_eq!(fern.flammability_chance, 999_960);
    assert!(!fern.on_fire);
    assert!(fern.messages.is_empty());
    assert!(fern.offspring.is_empty());
    assert!(matches!(fern.requirements.moisture, Effect::Moisture(2)));
    assert!(matches!(fern.requirements.light, Effect::Light(20)));

    let tree = fresh_tree();
    assert_eq!(tree.age_max, 80);
    assert_eq!(tree.health_max, 18);
    assert_eq!(tree.size_max, 50);
    assert_eq!(tree.offspring_range, 3);
    assert_eq!(tree.flammability_chance, 999_990);
    assert!(matches!(tree.requirements.moisture, Effect::Moisture(4)));
}

#[test]
fn old_age_kills_regardless_of_health() {
    // a fern with age_max 12 that survived to age 13 dies on its next tick
    let mut fern = fresh_fern();
    fern.age = 13;
    fern.health = 9;
    let mut section = fresh_section(50);
    fern.evolve(&mut section);
    assert_eq!(fern.health, 0);
    assert_eq!(fern.age, 14);
    assert!(!fern.alive());
    // the cell is left alone and a death message is logged
    assert_eq!(section.conditions.moisture, 50);
    assert_eq!(fern.messages.len(), 1);
    assert_eq!(fern.messages[0], "The Fern perishes");
}

#[test]
fn tree_death_message() {
    let mut tree = fresh_tree();
    tree.age = 80;
    tree.health = 18;
    let mut section = fresh_section(50);
    tree.evolve(&mut section);
    assert_eq!(tree.health, 0);
    assert_eq!(tree.messages.len(), 1);
    assert_eq!(tree.messages[0], "The Tree perishes");
}

#[test]
fn immature_plant_never_reproduces() {
    // size 1 of 8 is far below maturity: whatever the roll, no offspring
    for _ in 0..32 {
        let mut fern = fresh_fern();
        let mut section = fresh_section(10);
        fern.evolve(&mut section);
        assert!(fern.offspring.is_empty());
        assert_eq!(fern.health, 2);
        assert_eq!(fern.size, 2);
        assert_eq!(section.conditions.moisture, 8);
    }
}

#[test]
fn moisture_deficit_drains_cell_and_costs_one_point() {
    let mut fern = fresh_fern();
    fern.health = 5;
    let mut section = fresh_section(1); // below the fern's threshold of 2
    fern.evolve(&mut section);
    assert_eq!(section.conditions.moisture, 0);
    assert_eq!(fern.health, 4);
    assert_eq!(fern.size, 1);
    assert!(fern.messages.is_empty());
}

#[test]
fn moisture_deficit_death_is_logged() {
    let mut fern = fresh_fern(); // health 1
    let mut section = fresh_section(0);
    fern.evolve(&mut section);
    assert_eq!(fern.health, 0);
    assert_eq!(fern.messages.len(), 1);
    assert_eq!(fern.messages[0], "The Fern perishes");
}

#[test]
fn growth_caps_at_ceilings() {
    let mut fern = fresh_fern();
    fern.health = 10; // at health_max
    fern.size = 8; // at size_max
    let mut section = fresh_section(10);
    fern.evolve(&mut section);
    assert_eq!(fern.health, 10);
    assert_eq!(fern.size, 8);
    assert_eq!(section.conditions.moisture, 8);
}

#[test]
fn mature_plant_spawns_at_most_one_seedling_nearby() {
    for _ in 0..64 {
        let mut fern = fresh_fern();
        fern.size = 8;
        fern.health = 8;
        let mut section = fresh_section(10);
        fern.evolve(&mut section);
        assert!(fern.offspring.len() <= 1);
        if let Some(seedling) = fern.offspring.first() {
            assert_eq!(seedling.age, 0);
            assert_eq!(seedling.health, 1);
            assert_eq!(seedling.size, 1);
            assert!(matches!(seedling.kind, PlantKind::Fern));
            assert!(seedling.messages.is_empty());
            assert!(seedling.offspring.is_empty());
            let dx = (seedling.location.x - fern.location.x).abs();
            let dy = (seedling.location.y - fern.location.y).abs();
            assert!(dx <= 1 && dy <= 1);
            assert!(dx != 0 || dy != 0);
            assert!(seedling.location.x >= 0 && seedling.location.x <= 4);
            assert!(seedling.location.y >= 0 && seedling.location.y <= 4);
        }
    }
}

#[test]
fn propagate_places_seedlings_in_range() {
    let mut tree = fresh_tree();
    let brood = tree.propagate(3);
    assert_eq!(brood.len(), 3);
    let spot = brood[0].location;
    for seedling in &brood {
        // all seedlings of one call land on the same picked location
        assert_eq!(seedling.location, spot);
        let dx = (seedling.location.x - tree.location.x).abs();
        let dy = (seedling.location.y - tree.location.y).abs();
        assert!(dx <= 3 && dy <= 3);
        assert!(dx != 0 || dy != 0);
    }
}

#[test]
fn damage_saturates_at_zero() {
    let mut fern = fresh_fern();
    fern.health = 5;
    fern.damage(3);
    assert_eq!(fern.health, 2);
    fern.damage(10);
    assert_eq!(fern.health, 0);
    assert!(!fern.alive());
}

#[test]
fn dead_plant_only_ages() {
    let mut fern = fresh_fern();
    fern.health = 0;
    fern.size = 4;
    let mut section = fresh_section(9);
    fern.evolve(&mut section);
    assert_eq!(fern.age, 1);
    assert_eq!(fern.health, 0);
    assert_eq!(fern.size, 4);
    assert_eq!(section.conditions.moisture, 9);
    // dying happened before this tick: no new message
    assert!(fern.messages.is_empty());
}

#[test]
fn burning_plant_takes_bounded_damage_and_cannot_drink() {
    for _ in 0..32 {
        let mut tree = fresh_tree();
        tree.health = 18;
        tree.size = 10;
        tree.on_fire = true;
        let mut section = fresh_section(0); // below the tree's threshold of 4
        tree.evolve(&mut section);
        // fire costs at most health_max / 10 = 1, the dry cell one more
        assert!(tree.health >= 16 && tree.health <= 18);
        assert_eq!(tree.size, 10);
        assert_eq!(section.conditions.moisture, 0);
        assert!(tree.on_fire);
        assert!(tree.offspring.is_empty());
    }
}

#[test]
fn burning_plant_with_wet_cell_is_left_alone() {
    for _ in 0..32 {
        let mut tree = fresh_tree();
        tree.health = 18;
        tree.on_fire = true;
        let mut section = fresh_section(50);
        tree.evolve(&mut section);
        // a burning plant cannot respire: the wet cell keeps its moisture
        assert_eq!(section.conditions.moisture, 50);
        assert!(tree.health >= 17 && tree.health <= 18);
        assert_eq!(tree.size, 1);
    }
}

#[test]
fn rock_evolve_is_a_no_op() {
    let mut rock = Rock { location: Location { max: 4, x: 2, y: 2 } };
    let mut section = fresh_section(7);
    rock.evolve(&mut section);
    assert_eq!(rock.location, Location { max: 4, x: 2, y: 2 });
    assert_eq!(section.conditions.moisture, 7);
    assert_eq!(section.conditions.light, 70);
}

#[test]
fn summary_formats_the_plant() {
    let fern = fresh_fern();
    assert_eq!(
        fern.summary(),
        "Plant { kind: Fern age: 0/12, health: 1/10, size: 1/8 location: Location { max: 4, x: 1, y: 1 }}"
    );
    let mut tree = fresh_tree();
    tree.age = 7;
    tree.health = 12;
    tree.size = 30;
    tree.location = Location { max: 4, x: 0, y: 3 };
    assert_eq!(
        tree.summary(),
        "Plant { kind: Tree age: 7/80, health: 12/18, size: 30/50 location: Location { max: 4, x: 0, y: 3 }}"
    );
}

#[test]
fn kind_icons() {
    assert_eq!(PlantKind::Fern.icon(), '🌿');
    assert_eq!(PlantKind::Tree.icon(), '🌲');
}

use tilegen::{RelativeDirection, TileSystem, TileType};

#[test]
fn duplicate_registration_keeps_first_entry() {
    let mut system = TileSystem::new();

    let mut first = TileType::new("X");
    first.below("Y");
    system.add_tile(first).unwrap();

    let mut second = TileType::new("X");
    second.above("Z");
    second.above("Y");
    let rejected = system.add_tile(second).unwrap_err();

    // the rejected tile is handed back unchanged
    assert_eq!(rejected.name, "X");
    assert_eq!(rejected.must.len(), 2);

    // the catalog still holds the first registration, untouched
    let kept = system.borrow_tile("X").unwrap();
    assert_eq!(kept.name, "X");
    assert_eq!(kept.must.len(), 1);
    assert_eq!(kept.must_not.len(), 0);
    assert_eq!(system.tile_count(), 1);
}

#[test]
fn borrow_tile_unknown_name() {
    let mut system = TileSystem::new();
    system.add_tile(TileType::new("known")).unwrap();
    assert!(system.borrow_tile("known").is_some());
    assert!(system.borrow_tile("unknown").is_none());
}

#[test]
fn tile_by_index_follows_registration_order() {
    let mut system = TileSystem::new();
    system.add_tile(TileType::new("zero")).unwrap();
    system.add_tile(TileType::new("one")).unwrap();
    assert_eq!(system.tile_by_index(0).unwrap().name, "zero");
    assert_eq!(system.tile_by_index(1).unwrap().name, "one");
    assert!(system.tile_by_index(2).is_none());
}

#[test]
fn flip_exchanges_opposites() {
    assert_eq!(RelativeDirection::UP.flip(), RelativeDirection::DOWN);
    assert_eq!(RelativeDirection::DOWN.flip(), RelativeDirection::UP);
    assert_eq!(RelativeDirection::LEFT.flip(), RelativeDirection::RIGHT);
    assert_eq!(RelativeDirection::RIGHT.flip(), RelativeDirection::LEFT);
    assert_eq!(RelativeDirection::UP.flip().flip(), RelativeDirection::UP);
    assert_eq!(RelativeDirection::LEFT.flip().flip(), RelativeDirection::LEFT);
}

#[test]
fn builders_store_requirements() {
    let mut t = TileType::new("t");
    t.above("a");
    t.below("b");
    t.left("l");
    t.right("r");
    assert_eq!(t.must.len(), 4);
    assert_eq!(t.must[0].dir, RelativeDirection::DOWN);
    assert_eq!(t.must[0].tile, "a");
    assert_eq!(t.must[1].dir, RelativeDirection::UP);
    assert_eq!(t.must[1].tile, "b");
    assert_eq!(t.must[2].dir, RelativeDirection::RIGHT);
    assert_eq!(t.must[2].tile, "l");
    assert_eq!(t.must[3].dir, RelativeDirection::LEFT);
    assert_eq!(t.must[3].tile, "r");

    t.not_above("na");
    t.not_below("nb");
    t.not_left("nl");
    t.not_right("nr");
    assert_eq!(t.must_not.len(), 4);
    assert_eq!(t.must_not[0].dir, RelativeDirection::DOWN);
    assert_eq!(t.must_not[0].tile, "na");
    assert_eq!(t.must_not[1].dir, RelativeDirection::UP);
    assert_eq!(t.must_not[1].tile, "nb");
    assert_eq!(t.must_not[2].dir, RelativeDirection::RIGHT);
    assert_eq!(t.must_not[2].tile, "nl");
    assert_eq!(t.must_not[3].dir, RelativeDirection::LEFT);
    assert_eq!(t.must_not[3].tile, "nr");
}

#[test]
fn validate_references_accepts_resolved_catalog() {
    let mut system = TileSystem::new();
    let mut ground = TileType::new("ground");
    ground.below("floor");
    system.add_tile(ground).unwrap();
    let mut floor = TileType::new("floor");
    floor.above("ground");
    floor.not_below("floor");
    system.add_tile(floor).unwrap();
    assert!(system.validate_references().is_ok());
}

#[test]
fn validate_references_reports_unregistered_target() {
    let mut system = TileSystem::new();
    let mut lonely = TileType::new("lonely");
    lonely.below("missing");
    system.add_tile(lonely).unwrap();
    let err = system.validate_references().unwrap_err();
    assert_eq!(err.tile, "lonely");
    assert_eq!(err.target, "missing");
}

#[test]
fn grid_reports_dimensions_and_bounds() {
    let mut system = TileSystem::new();
    system.add_tile(TileType::new("only")).unwrap();
    let map = system.try_gen(2, 3).unwrap();
    assert_eq!(map.width(), 2);
    assert_eq!(map.height(), 3);
    assert!(map.get(1, 2).is_some());
    assert_eq!(map.get(2, 0), None);
    assert_eq!(map.get(0, 3), None);
}

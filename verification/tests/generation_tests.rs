use hexadie::{
    colors_for, generate_map, grow, owner_color, player_color, seed, seed_with_draws, Color,
    Coord, GameSettings, HexGrid, MapError, MapRng, Territory,
};

fn settings(width: u32, height: u32, area_size: u32, player_count: Option<u32>) -> GameSettings {
    GameSettings { width, height, area_size, player_count }
}

/// The per-cell owner ids of a grid, row-major.
fn owner_map(grid: &HexGrid) -> Vec<Option<u32>> {
    let mut out = Vec::new();
    for row in 0..grid.height {
        for col in 0..grid.width {
            out.push(grid.owner_of(col, row).expect("in bounds"));
        }
    }
    out
}

#[test]
fn seeding_places_distinct_singletons() {
    let mut grid = HexGrid::new(4, 4).unwrap();
    let mut rng = MapRng::new(7);
    let territories = seed(&mut grid, 2, 8, &mut rng).expect("seeding fits");
    assert_eq!(territories.len(), 8);
    let mut seeds: Vec<Coord> = Vec::new();
    for (i, t) in territories.iter().enumerate() {
        assert_eq!(t.cells.len(), 1);
        assert!(!t.blocked);
        assert_eq!(t.player, (i as u32) % 2);
        let c = t.cells[0];
        assert_eq!(grid.owner_of(c.col, c.row), Ok(Some(i as u32)));
        assert!(!seeds.contains(&c), "two territories share a seed cell");
        seeds.push(c);
    }
    let owned = owner_map(&grid).iter().filter(|o| o.is_some()).count();
    assert_eq!(owned, 8);
}

#[test]
fn seeding_at_most_one_territory_always_succeeds() {
    // With no collision possible, no draw sequence can exhaust the budget.
    for seed_value in 0..25u64 {
        let mut grid = HexGrid::new(3, 2).unwrap();
        let mut rng = MapRng::new(seed_value);
        let ts = seed(&mut grid, 4, 0, &mut rng).expect("nothing to place");
        assert!(ts.is_empty());
        assert!(owner_map(&grid).iter().all(|o| o.is_none()));

        let mut grid = HexGrid::new(3, 2).unwrap();
        let mut rng = MapRng::new(seed_value);
        let ts = seed(&mut grid, 4, 1, &mut rng).expect("one territory fits a fresh grid");
        assert_eq!(ts.len(), 1);
        assert_eq!(ts[0].player, 0);
        assert_eq!(ts[0].cells.len(), 1);
        let c = ts[0].cells[0];
        assert_eq!(grid.owner_of(c.col, c.row), Ok(Some(0)));
    }
}

#[test]
fn seeding_fails_when_grid_is_too_small() {
    // 32 territories cannot be placed on a 2-cell grid.
    let mut grid = HexGrid::new(2, 1).unwrap();
    let mut rng = MapRng::new(0);
    assert_eq!(
        seed(&mut grid, 8, 32, &mut rng).err(),
        Some(MapError::SeedingExhausted)
    );
    let mut rng = MapRng::new(99);
    let r = generate_map(&settings(2, 1, 4, Some(8)), &mut rng);
    assert!(matches!(r, Err(MapError::SeedingExhausted)));
}

#[test]
fn generation_rejects_bad_configurations() {
    let mut rng = MapRng::new(1);
    assert!(matches!(
        generate_map(&settings(4, 4, 2, Some(9)), &mut rng),
        Err(MapError::UnsupportedPlayerCount)
    ));
    assert!(matches!(
        generate_map(&settings(4, 4, 2, Some(0)), &mut rng),
        Err(MapError::UnsupportedPlayerCount)
    ));
    assert!(matches!(
        generate_map(&settings(0, 4, 2, Some(2)), &mut rng),
        Err(MapError::InvalidDimensions)
    ));
    assert!(matches!(
        generate_map(&settings(4, 0, 2, Some(2)), &mut rng),
        Err(MapError::InvalidDimensions)
    ));
}

#[test]
fn growth_reaches_target_or_blocks() {
    let mut rng = MapRng::new(42);
    let map = generate_map(&settings(6, 5, 3, Some(3)), &mut rng).expect("fits");
    assert_eq!(map.territories.len(), 12);
    assert!(map.rounds <= 3);
    for t in &map.territories {
        assert!(t.cells.len() <= 3);
        assert!(t.cells.len() == 3 || t.blocked, "territory neither at target nor blocked");
    }
}

#[test]
fn owned_cells_belong_to_exactly_one_territory() {
    let mut rng = MapRng::new(42);
    let map = generate_map(&settings(6, 5, 3, Some(3)), &mut rng).expect("fits");
    // Ownership and membership agree, and memberships are disjoint.
    for row in 0..5u32 {
        for col in 0..6u32 {
            let c = Coord { col, row };
            let owner = map.grid.owner_of(col, row).unwrap();
            let holders: Vec<usize> = (0..map.territories.len())
                .filter(|&t| map.territories[t].cells.contains(&c))
                .collect();
            match owner {
                Some(id) => assert_eq!(holders, vec![id as usize]),
                None => assert!(holders.is_empty()),
            }
        }
    }
}

#[test]
fn generation_is_deterministic_for_a_seeded_source() {
    let mut rng1 = MapRng::new(1234);
    let mut rng2 = MapRng::new(1234);
    let m1 = generate_map(&settings(7, 6, 3, Some(4)), &mut rng1).expect("fits");
    let m2 = generate_map(&settings(7, 6, 3, Some(4)), &mut rng2).expect("fits");
    assert_eq!(owner_map(&m1.grid), owner_map(&m2.grid));
    assert_eq!(m1.rounds, m2.rounds);
    assert_eq!(m1.territories.len(), m2.territories.len());
    for (a, b) in m1.territories.iter().zip(m2.territories.iter()) {
        assert_eq!(a.player, b.player);
        assert_eq!(a.cells, b.cells);
        assert_eq!(a.blocked, b.blocked);
    }
}

#[test]
fn growth_is_deterministic_for_equal_draws() {
    let draws = vec![
        Coord { col: 0, row: 0 },
        Coord { col: 3, row: 0 },
        Coord { col: 0, row: 3 },
        Coord { col: 3, row: 3 },
    ];
    let mut results = Vec::new();
    for _ in 0..2 {
        let mut grid = HexGrid::new(4, 4).unwrap();
        let mut ts = seed_with_draws(&mut grid, 2, 4, &draws).expect("draws are free");
        let rounds = grow(&mut grid, &mut ts, 4);
        results.push((owner_map(&grid), rounds));
    }
    assert_eq!(results[0], results[1]);
}

#[test]
fn growth_terminates_within_target_rounds() {
    for seed_value in 0..20u64 {
        let mut rng = MapRng::new(seed_value);
        let map = generate_map(&settings(8, 8, 4, Some(4)), &mut rng).expect("fits");
        assert!(map.rounds <= 4, "round counter exceeded the target size");
    }
}

#[test]
fn full_coverage_scenario() {
    // width=4, height=4, 2 players, target size 2: 8 territories of 2 cells
    // can tile all 16 cells exactly.
    let draws = vec![
        Coord { col: 0, row: 0 },
        Coord { col: 2, row: 0 },
        Coord { col: 0, row: 2 },
        Coord { col: 2, row: 2 },
        Coord { col: 1, row: 1 },
        Coord { col: 3, row: 1 },
        Coord { col: 1, row: 3 },
        Coord { col: 3, row: 3 },
    ];
    let mut grid = HexGrid::new(4, 4).unwrap();
    let mut ts = seed_with_draws(&mut grid, 2, 8, &draws).expect("distinct cells");
    assert_eq!(ts.len(), 8);
    let rounds = grow(&mut grid, &mut ts, 2);
    assert!(rounds <= 2);
    let owners = owner_map(&grid);
    assert!(owners.iter().all(|o| o.is_some()), "a cell was left unowned");
    for t in &ts {
        assert_eq!(t.cells.len(), 2, "a territory missed its target size");
    }
}

#[test]
fn isolated_territory_blocks_at_size_one() {
    // Seed every cell of a 3x3 grid: the center territory is surrounded by
    // cells owned by others, so growth can only block it at size 1.
    let mut draws = Vec::new();
    for row in 0..3u32 {
        for col in 0..3u32 {
            draws.push(Coord { col, row });
        }
    }
    let mut grid = HexGrid::new(3, 3).unwrap();
    let mut ts = seed_with_draws(&mut grid, 3, 9, &draws).expect("all cells free");
    let center_id = grid.owner_of(1, 1).unwrap().expect("center was seeded");
    let rounds = grow(&mut grid, &mut ts, 3);
    assert!(rounds <= 3);
    let center = &ts[center_id as usize];
    assert!(center.blocked);
    assert_eq!(center.cells.len(), 1);
    for n in grid.neighbors(1, 1) {
        let owner = grid.owner_of(n.col, n.row).unwrap();
        assert!(owner.is_some() && owner != Some(center_id));
    }
}

#[test]
fn palette_has_eight_distinct_player_colors() {
    let mut seen = Vec::new();
    for p in 0..8u32 {
        let c = player_color(p).expect("supported player");
        assert!(!seen.contains(&c), "two players share a color");
        seen.push(c);
    }
    assert!(player_color(8).is_none());
    assert!(player_color(1000).is_none());
    // One pinned palette entry: the first player's fixed color.
    assert_eq!(
        player_color(0),
        Some(Color { red: 78, green: 205, blue: 196 })
    );
}

#[test]
fn colors_for_maps_each_territory_to_its_player_color() {
    let mut rng = MapRng::new(5);
    let map = generate_map(&settings(5, 5, 2, Some(4)), &mut rng).expect("fits");
    let colors = colors_for(&map.territories).expect("players are within the palette");
    assert_eq!(colors.len(), map.territories.len());
    for (t, c) in map.territories.iter().zip(colors.iter()) {
        assert_eq!(Some(*c), player_color(t.player));
    }
}

#[test]
fn colors_for_rejects_players_past_the_palette() {
    let rogue = Territory { player: 9, cells: vec![Coord { col: 0, row: 0 }], blocked: false };
    assert_eq!(
        colors_for(&vec![rogue]).err(),
        Some(MapError::UnsupportedPlayerCount)
    );
}

#[test]
fn owner_color_projects_ownership() {
    let mut rng = MapRng::new(8);
    let map = generate_map(&settings(4, 4, 2, Some(2)), &mut rng).expect("fits");
    assert!(matches!(
        owner_color(&map.grid, &map.territories, 4, 0),
        Err(MapError::OutOfBounds)
    ));
    for row in 0..4u32 {
        for col in 0..4u32 {
            let c = owner_color(&map.grid, &map.territories, col, row).expect("in bounds");
            match map.grid.owner_of(col, row).unwrap() {
                None => assert!(c.is_none()),
                Some(id) => {
                    let player = map.territories[id as usize].player;
                    assert_eq!(c, player_color(player));
                },
            }
        }
    }
}

#[test]
fn random_draws_land_on_the_grid() {
    // A single-cell grid leaves the random source exactly one legal draw:
    // seeding succeeds only because every draw stays below its bound.
    for seed_value in 0..50u64 {
        let mut grid = HexGrid::new(1, 1).unwrap();
        let mut rng = MapRng::new(seed_value);
        let ts = seed(&mut grid, 1, 1, &mut rng).expect("the only cell is free");
        assert_eq!(ts[0].cells[0], Coord { col: 0, row: 0 });
    }
}

#[test]
fn area_size_zero_is_treated_as_one() {
    let mut rng = MapRng::new(3);
    let map = generate_map(&settings(6, 6, 0, Some(2)), &mut rng).expect("fits");
    for t in &map.territories {
        assert!(t.cells.len() == 1 || t.blocked);
        assert_eq!(t.cells.len(), 1);
    }
}

#[test]
fn default_player_count_is_eight() {
    let mut rng = MapRng::new(11);
    // 8 players => 32 territories; a 8x8 grid holds them.
    let map = generate_map(&settings(8, 8, 1, None), &mut rng).expect("fits");
    assert_eq!(map.territories.len(), 32);
    let players: Vec<u32> = map.territories.iter().map(|t| t.player).collect();
    for (i, p) in players.iter().enumerate() {
        assert_eq!(*p, (i as u32) % 8);
    }
}

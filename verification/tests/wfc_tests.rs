use expl::hexgrid::layout::{GridLayout, HexagonalGridLayout, SquareGridLayout};
use expl::hexgrid::{Grid, HexCoord};
use expl::wfc::cell::Cell;
use expl::wfc::generator::{first_entry, insert_entry, position_key, remove_entry, Generator};
use std::collections::HashMap;
use expl::wfc::seed::SeedLayout;
use expl::wfc::template::{sort_tiles, Template};
use expl::wfc::tile::{extract_tiles, standard_tile_transforms};
use expl::wfc::util::{wrap_grid, DumpGrid, DumpGridWith, LoadGrid, LoadGridWith};
use expl::wfc::{Seed, SeedType};

#[test]
fn display_seed() {
    assert_eq!(
        Seed {
            seed_type: SeedType::Hexagonal(8),
            rng_seed: 1337,
        }
        .to_string(),
        "AAEPWOIF"
    );
}

#[test]
fn parse_seed() {
    let seed: Result<Seed, _> = "AAEPWOIF".parse();
    assert_eq!(
        seed,
        Ok(Seed {
            seed_type: SeedType::Hexagonal(8),
            rng_seed: 1337,
        })
    );
}

#[test]
fn seed_text_round_trip() {
    for seed in [
        Seed {
            seed_type: SeedType::Square(40, 25),
            rng_seed: u64::MAX,
        },
        Seed {
            seed_type: SeedType::Hexagonal(0),
            rng_seed: 0,
        },
        Seed::new(SeedType::Hexagonal(12)),
    ] {
        let text = seed.to_string();
        let back: Result<Seed, _> = text.parse();
        assert_eq!(back, Ok(seed));
    }
}

#[test]
fn seed_bytes_are_bincode_varints() {
    let seed = Seed {
        seed_type: SeedType::Hexagonal(8),
        rng_seed: 1337,
    };
    assert_eq!(seed.to_bytes(), vec![0, 8, 251, 57, 5]);
    let square = Seed {
        seed_type: SeedType::Square(3, 4),
        rng_seed: 5,
    };
    assert_eq!(square.to_bytes(), vec![1, 3, 4, 5]);
    assert_eq!(Seed::from_bytes(&[1, 3, 4, 5]), Some(square));
    assert_eq!(Seed::from_bytes(&[2, 3, 4, 5]), None);
    assert_eq!(Seed::from_bytes(&[0, 3, 4, 5]), None);
}

#[test]
fn invalid_seed_text() {
    let seed: Result<Seed, _> = "!!".parse();
    assert_eq!(seed, Err("Not a valid seed"));
    let seed: Result<Seed, _> = "AE".parse();
    assert_eq!(seed, Err("Not a valid seed"));
}

#[test]
fn seed_types_and_layouts() {
    assert_eq!(
        HexagonalGridLayout::from_seed_type(SeedType::Hexagonal(5)),
        Ok(HexagonalGridLayout { radius: 5 })
    );
    assert_eq!(
        HexagonalGridLayout::from_seed_type(SeedType::Square(2, 3)),
        Err("Incompatible seed")
    );
    assert_eq!(
        SquareGridLayout::from_seed_type(SeedType::Square(2, 3)),
        Ok(SquareGridLayout {
            width: 2,
            height: 3
        })
    );
    assert_eq!(
        SquareGridLayout::from_seed_type(SeedType::Hexagonal(5)),
        Err("Incompatible seed")
    );
    assert_eq!(
        SeedType::from(HexagonalGridLayout { radius: 7 }),
        SeedType::Hexagonal(7)
    );
    let layout: Result<SquareGridLayout, _> = SeedType::Square(4, 1).try_into();
    assert_eq!(
        layout,
        Ok(SquareGridLayout {
            width: 4,
            height: 1
        })
    );
    assert_eq!(
        SquareGridLayout {
            width: 9,
            height: 2
        }
        .to_seed_type(),
        SeedType::Square(9, 2)
    );
}

#[test]
fn cells_narrow_and_select() {
    let mut cell = Cell::empty(5);
    assert!(matches!(cell, Cell::Alternatives(5, _)));
    assert_eq!(cell.select_nth(0), Some(0));
    assert_eq!(cell.select_nth(4), Some(4));
    assert_eq!(cell.select_nth(5), None);

    let mut keep = Cell::empty(5);
    if let Cell::Alternatives(_, alts) = &mut keep {
        alts.set(1, false);
        alts.set(3, false);
    }
    if let Cell::Alternatives(_, alts) = &keep {
        cell.retain(alts);
    }
    assert!(matches!(cell, Cell::Alternatives(3, _)));
    assert_eq!(cell.select_nth(1), Some(2));
    assert_eq!(cell.select_nth(2), Some(4));

    let copy = cell.clone();
    assert_eq!(copy, cell);

    cell.collapse(2);
    assert_eq!(cell, Cell::Collapsed(2));
    assert_eq!(cell.select_nth(0), None);
    let mut rng = <rand_xoshiro::Xoshiro256PlusPlus as rand::SeedableRng>::seed_from_u64(3);
    assert_eq!(cell.select(&mut rng), None);
    assert_eq!(Cell::empty(0).select(&mut rng), None);
    let choice = Cell::empty(4).select(&mut rng).unwrap();
    assert!(choice < 4);

    let mut open = Cell::empty(6);
    let mut fresh = fixedbitset::FixedBitSet::with_capacity(6);
    fresh.set(5, true);
    open.set_alternatives(fresh);
    assert!(matches!(open, Cell::Alternatives(1, _)));
    assert_eq!(open.select_nth(0), Some(5));
}

#[test]
fn pending_entries() {
    let mut entries: HashMap<u64, usize> = HashMap::new();
    insert_entry(&mut entries, HexCoord::new(0, 0), 4);
    insert_entry(&mut entries, HexCoord::new(1, 0), 2);
    insert_entry(&mut entries, HexCoord::new(2, 0), 2);
    insert_entry(&mut entries, HexCoord::new(0, 0), 1);
    assert_eq!(entries.len(), 3);
    assert_eq!(first_entry(&entries), Some(HexCoord::new(0, 0)));
    remove_entry(&mut entries, HexCoord::new(0, 0));
    assert_eq!(first_entry(&entries), Some(HexCoord::new(2, 0)));
    remove_entry(&mut entries, HexCoord::new(5, 5));
    assert_eq!(entries.len(), 2);
    remove_entry(&mut entries, HexCoord::new(2, 0));
    remove_entry(&mut entries, HexCoord::new(1, 0));
    assert_eq!(first_entry(&entries), None);
}

/// A hexagonal grid of radius 3 with a band of mountains across it.
fn sample_map() -> Grid<HexagonalGridLayout, char> {
    let layout = HexagonalGridLayout { radius: 3 };
    let data = layout
        .iter()
        .into_iter()
        .map(|coord| {
            if coord.r == 0 {
                '^'
            } else if coord.q > 0 {
                '%'
            } else {
                '~'
            }
        })
        .collect();
    Grid::with_data(layout, data)
}

#[test]
fn wrapped_grid_keeps_inner_values() {
    let grid = sample_map();
    let wrapped = wrap_grid(sample_map());
    assert_eq!(wrapped.layout.radius, 4);
    for coord in grid.layout.iter() {
        assert_eq!(wrapped[coord], grid[coord]);
    }
    assert_eq!(wrapped[HexCoord::new(3, 0)], grid[HexCoord::new(-2, 2)]);
}

#[test]
fn tiles_are_distinct_and_sorted() {
    let wrapped = wrap_grid(sample_map());
    let transforms = standard_tile_transforms();
    assert_eq!(transforms.len(), 12);
    let tiles = extract_tiles(&wrapped, &transforms);
    let values: Vec<Vec<char>> = tiles.iter().map(|t| t.iter()).collect();
    for (i, a) in values.iter().enumerate() {
        for b in &values[i + 1..] {
            assert_ne!(a, b);
        }
    }
    let sorted = sort_tiles(&tiles);
    let sorted_values: Vec<Vec<char>> = sorted.iter().map(|t| t.iter()).collect();
    assert!(sorted_values.windows(2).all(|w| w[0] <= w[1]));
    assert_eq!(sorted_values.len(), values.len());

    let template = Template::from_tiles(tiles);
    assert_eq!(template.available_tiles(), sorted_values.len());
    for (id, tile_values) in sorted_values.iter().enumerate() {
        assert_eq!(template.contribution(id), tile_values[3]);
    }
    for (id, tile) in sorted.iter().enumerate() {
        for (d, (offset, compatible)) in template.compatible_tiles(id).into_iter().enumerate() {
            assert_eq!(offset, HexCoord::neighbour_offset(d));
            for (other_id, other) in sorted.iter().enumerate() {
                assert_eq!(compatible.contains(other_id), tile.compatible_with(other, offset));
            }
        }
    }
}

/// Every collapsed cell has an entry in the history, every narrowed cell is pending.
fn verify_generator_invariants(generator: &Generator<HexagonalGridLayout, char>) {
    for coord in generator.grid.layout.iter() {
        match &generator.grid[coord] {
            Cell::Collapsed(_) => {
                assert!(generator.collapsed.iter().any(|(cc, _, _)| *cc == coord));
            }
            Cell::Alternatives(num_alts, _) => {
                if *num_alts < generator.template.available_tiles() {
                    assert!(generator.pending.contains_key(&position_key(coord)));
                }
            }
        }
    }
}

#[test]
fn test_collapse() {
    let wrapped = wrap_grid(sample_map());
    let transforms = standard_tile_transforms();
    let template = Template::from_tiles(extract_tiles(&wrapped, &transforms));
    let mut generator = Generator::new_with_layout(&template, HexagonalGridLayout { radius: 5 });
    assert!(generator.export().is_err());
    let mut steps = 0;
    while generator.step().is_some() {
        verify_generator_invariants(&generator);
        steps += 1;
        assert!(steps <= 1000);
    }
    let output = generator.export().unwrap();
    assert_eq!(output.layout.radius, 5);
    for coord in output.layout.iter() {
        assert!(['^', '%', '~'].contains(&output[coord]));
    }
}

#[test]
fn template_compatibility_is_symmetric() {
    let wrapped = wrap_grid(sample_map());
    let transforms = standard_tile_transforms();
    let template = Template::from_tiles(extract_tiles(&wrapped, &transforms));
    let n = template.available_tiles();
    for t in 0..n {
        let pairs = template.compatible_tiles(t);
        for d in 0..6 {
            for j in 0..n {
                let back = template.compatible_tiles(j);
                assert_eq!(pairs[d].1.contains(j), back[(d + 3) % 6].1.contains(t));
            }
        }
    }
}

#[test]
fn generated_neighbours_fit() {
    let wrapped = wrap_grid(sample_map());
    let transforms = standard_tile_transforms();
    let template = Template::from_tiles(extract_tiles(&wrapped, &transforms));
    let seed: Seed = Seed {
        seed_type: SeedType::Hexagonal(4),
        rng_seed: 7,
    };
    let mut generator: Generator<HexagonalGridLayout, char> =
        Generator::new_with_seed(&template, seed).unwrap();
    let mut steps = 0;
    while generator.step().is_some() {
        steps += 1;
        assert!(steps <= 10000);
    }
    let tile_at = |coord: HexCoord| match &generator.grid[coord] {
        Cell::Collapsed(t) => *t,
        Cell::Alternatives(_, _) => panic!("every cell is collapsed"),
    };
    let mut pairs = 0;
    for coord in generator.grid.layout.iter() {
        let tile = tile_at(coord);
        for (d, (offset, compatible)) in template.compatible_tiles(tile).into_iter().enumerate() {
            let other = coord.plus(offset);
            if generator.grid.layout.contains(other) {
                assert!(compatible.contains(tile_at(other)), "{:?} {}", coord, d);
                pairs += 1;
            }
        }
    }
    assert!(pairs > 0);
}

#[test]
fn test_fixed_seed() {
    let wrapped = wrap_grid(sample_map());
    let transforms = standard_tile_transforms();
    let template = Template::from_tiles(extract_tiles(&wrapped, &transforms));
    let seed: Seed = "AAFP26SGQFDAYVCFVE".parse().unwrap();
    let run = || {
        let mut generator: Generator<HexagonalGridLayout, char> =
            Generator::new_with_seed(&template, seed).unwrap();
        assert_eq!(generator.grid.layout.radius, 10);
        let mut trace = Vec::new();
        while trace.len() < 405 && generator.step().is_some() {
            verify_generator_invariants(&generator);
            let last = generator.collapsed.last().map(|(c, t, _)| (*c, *t));
            trace.push(last);
        }
        trace
    };
    let trace = run();
    assert_eq!(trace.len(), 405);
    assert_eq!(trace, run());
}

#[test]
fn generator_from_seed_is_repeatable() {
    let wrapped = wrap_grid(sample_map());
    let transforms = standard_tile_transforms();
    let template = Template::from_tiles(extract_tiles(&wrapped, &transforms));
    let seed: Seed = Seed {
        seed_type: SeedType::Hexagonal(3),
        rng_seed: 42,
    };
    let run = || {
        let mut generator: Generator<HexagonalGridLayout, char> =
            Generator::new_with_seed(&template, seed).unwrap();
        let mut trace = Vec::new();
        while generator.step().is_some() {
            let last = generator.collapsed.last().map(|(c, t, _)| (*c, *t));
            trace.push(last);
        }
        trace
    };
    assert_eq!(run(), run());
    let wrong: Result<Generator<SquareGridLayout, char>, _> = Generator::new_with_seed(&template, seed);
    assert!(wrong.is_err());
}

#[test]
fn alternatives_follow_collapsed_neighbours() {
    let wrapped = wrap_grid(sample_map());
    let transforms = standard_tile_transforms();
    let template = Template::from_tiles(extract_tiles(&wrapped, &transforms));
    let mut generator = Generator::new_with_layout(&template, HexagonalGridLayout { radius: 3 });
    let all = generator.alternatives(HexCoord::new(1, 0));
    assert_eq!(all.count_ones(..), template.available_tiles());
    generator.step().unwrap();
    let (center, tile, _) = generator.collapsed[0].clone();
    assert_eq!(center, HexCoord::zero());
    let narrowed = generator.alternatives(HexCoord::new(1, 0));
    let allowed = template.compatible_tiles(tile)[0].1.clone();
    assert_eq!(narrowed, allowed);
    generator.rewind();
    assert!(generator.collapsed.is_empty());
    assert_eq!(generator.rejected, Some(vec![tile]));
    match &generator.grid[center] {
        Cell::Alternatives(n, alts) => {
            assert_eq!(*n, template.available_tiles() - 1);
            assert!(!alts.contains(tile));
        }
        Cell::Collapsed(_) => panic!("the rewound cell has alternatives"),
    }
}

#[derive(Copy, Clone, Debug, Eq, PartialEq, Hash, Ord, PartialOrd)]
pub enum Terrain {
    Ocean,
    Mountain,
    Forest,
}

impl Default for Terrain {
    fn default() -> Self {
        Terrain::Ocean
    }
}

impl From<Terrain> for char {
    fn from(terrain: Terrain) -> Self {
        match terrain {
            Terrain::Forest => '%',
            Terrain::Mountain => '^',
            Terrain::Ocean => '~',
        }
    }
}

impl TryFrom<char> for Terrain {
    type Error = expl::wfc::WFCError;

    fn try_from(c: char) -> Result<Terrain, Self::Error> {
        match c {
            '%' => Ok(Terrain::Forest),
            '^' => Ok(Terrain::Mountain),
            '~' => Ok(Terrain::Ocean),
            _ => Err(expl::wfc::WFCError::UnknownError),
        }
    }
}

#[test]
fn dump_hexagonal_grid() {
    let layout = HexagonalGridLayout { radius: 2 };
    let grid = Grid::with_data(layout, vec!['a', 'b', 'c', 'd', 'e', 'f', 'g']);
    assert_eq!(grid.dump(), "\n  b c\n g a d\n  f e\n");
    assert_eq!(
        grid.dump_with(|c: &char| c.to_ascii_uppercase()),
        "\n  B C\n G A D\n  F E\n"
    );
}

#[test]
fn dump_square_grid() {
    let layout = SquareGridLayout {
        width: 2,
        height: 2,
    };
    let grid = Grid::with_data(layout, vec!['a', 'b', 'c', 'd']);
    assert_eq!(grid.dump(), "\n a b\n  c d\n");
}

#[test]
fn load_hexagonal_grid() {
    let lines: Vec<String> = vec!["  ^ %".into(), " ~ ^ %".into(), "  ~ ~".into()];
    let grid = Grid::<HexagonalGridLayout, Terrain>::load(&lines).unwrap();
    assert_eq!(grid.layout.radius, 2);
    assert_eq!(grid[HexCoord::zero()], Terrain::Mountain);
    assert_eq!(grid[HexCoord::new(1, -1)], Terrain::Forest);
    assert_eq!(grid[HexCoord::new(-1, 1)], Terrain::Ocean);
    assert_eq!(grid.dump(), "\n  ^ %\n ~ ^ %\n  ~ ~\n");

    let forest = Grid::<HexagonalGridLayout, Terrain>::load_with(&lines, |_| {
        Ok::<_, &str>(Terrain::Forest)
    })
    .unwrap();
    assert_eq!(forest[HexCoord::zero()], Terrain::Forest);

    let bad: Vec<String> = vec!["  ^ %".into(), " ~ x %".into(), "  ~ ~".into()];
    assert!(matches!(
        Grid::<HexagonalGridLayout, Terrain>::load(&bad),
        Err(expl::wfc::WFCError::CellParseError)
    ));
}

#[test]
fn dumped_grid_loads_back() {
    let layout = HexagonalGridLayout { radius: 3 };
    let data: Vec<char> = "abcdefghijklmnopqrs".chars().collect();
    let grid = Grid::with_data(layout, data);
    let text = grid.dump();
    let lines: Vec<String> = text.lines().skip(1).map(|l| l.to_string()).collect();
    assert_eq!(lines.len(), 5);
    let loaded = Grid::<HexagonalGridLayout, char>::load_with(&lines, |c| Ok::<char, ()>(c)).unwrap();
    assert_eq!(loaded.layout, layout);
    for coord in layout.iter() {
        assert_eq!(loaded[coord], grid[coord]);
    }
}

#[test]
fn load_fills_positions_without_cells_with_default() {
    let lines: Vec<String> = vec!["  ^".into(), " ~ ^ %".into(), "".into()];
    let grid = Grid::<HexagonalGridLayout, Terrain>::load(&lines).unwrap();
    assert_eq!(grid[HexCoord::new(1, -1)], Terrain::default());
    assert_eq!(grid[HexCoord::new(-1, 1)], Terrain::default());
    assert_eq!(grid[HexCoord::new(0, -1)], Terrain::Mountain);
}

#[test]
fn tiles_fit_themselves_and_far_away() {
    let wrapped = wrap_grid(sample_map());
    let transforms = standard_tile_transforms();
    let tiles = extract_tiles(&wrapped, &transforms);
    for a in &tiles {
        assert!(a.compatible_with(a, HexCoord::zero()));
        for b in &tiles {
            assert!(a.compatible_with(b, HexCoord::new(3, 0)));
            assert!(a.compatible_with(b, HexCoord::new(-2, -1)));
            for (q, r) in [(1, 0), (0, 1), (-1, 1), (1, -1), (2, -1)] {
                assert_eq!(
                    a.compatible_with(b, HexCoord::new(q, r)),
                    b.compatible_with(a, HexCoord::new(-q, -r))
                );
            }
        }
    }
}

#[test]
fn template_connection_counts() {
    let wrapped = wrap_grid(sample_map());
    let transforms = standard_tile_transforms();
    let template = Template::from_tiles(extract_tiles(&wrapped, &transforms));
    let n = template.available_tiles() as u32;
    let counts = template.connections();
    assert_eq!(counts.len(), 6 * template.available_tiles());
    assert!(counts.iter().all(|&c| c == n));
    assert_eq!(expl::wfc::template::min_max(&counts), Some((n, n)));
    assert_eq!(expl::wfc::template::min_max(&vec![4, 1, 9, 3]), Some((1, 9)));
    assert_eq!(expl::wfc::template::min_max(&vec![]), None);
}

#[test]
fn step_returns_none_after_the_last_collapse() {
    let wrapped = wrap_grid(sample_map());
    let transforms = standard_tile_transforms();
    let template = Template::from_tiles(extract_tiles(&wrapped, &transforms));
    let mut generator = Generator::new_with_layout(&template, HexagonalGridLayout { radius: 3 });
    let mut last_collapsed = false;
    let mut steps = 0;
    loop {
        let before = generator.collapsed.len();
        if generator.step().is_none() {
            break;
        }
        last_collapsed = generator.collapsed.len() == before + 1;
        steps += 1;
        assert!(steps <= 10000);
    }
    assert!(last_collapsed);
    assert!(generator.pending.is_empty());
}

#[test]
fn position_keys_are_distinct() {
    let coords = [
        HexCoord::new(0, 0),
        HexCoord::new(-1, 0),
        HexCoord::new(0, -1),
        HexCoord::new(i32::MIN, i32::MAX),
        HexCoord::new(i32::MAX, i32::MIN),
    ];
    for a in &coords {
        for b in &coords {
            assert_eq!(position_key(*a) == position_key(*b), a == b);
        }
    }
}

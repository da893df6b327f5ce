use expl::hexgrid::imat3::IVec3;
use expl::hexgrid::layout::{GridLayout, HexagonalGridLayout, SquareGridLayout};
use expl::hexgrid::{ring, Grid, HexCoord, Neighbours, Regions, Transform, TransformMatrix};

#[test]
fn distance_to_neighbours() {
    let origin = HexCoord::zero();
    for neighbour in origin.neighbours() {
        assert_eq!(origin.distance(neighbour), 1);
    }
}

#[test]
fn long_distance() {
    let origin = HexCoord::zero();
    assert_eq!(origin.distance(HexCoord::new(4, -2)), 4);
    assert_eq!(origin.distance(HexCoord::new(4, -4)), 4);
    assert_eq!(origin.distance(HexCoord::new(3, 3)), 6);
}

#[test]
fn from_tuple() {
    let coord: HexCoord = (4, 5).into();
    assert_eq!(coord, HexCoord { q: 4, r: 5 });
}

#[test]
fn parse_ok() {
    let input = "q10r-2";
    let result: Result<HexCoord, _> = input.parse();
    assert_eq!(result, Ok(HexCoord::new(10, -2)));
}

#[test]
fn parse_fail() {
    let input = "10r-2";
    let result: Result<HexCoord, _> = input.parse();
    assert!(result.is_err());
}

#[test]
fn alternative_constructor() {
    let coord = HexCoord::new(4, 5);
    assert_eq!(coord, HexCoord::new_qs(coord.q, coord.s()));
    assert_eq!(coord, HexCoord::new_rs(coord.r, coord.s()));
}

#[test]
fn coord_text_round_trip() {
    let coord = HexCoord::new(10, -2);
    assert_eq!(coord.to_string(), "q10r-2");
    let back: Result<HexCoord, _> = coord.to_string().parse();
    assert_eq!(back, Ok(coord));
    let far = HexCoord::new(i32::MIN, i32::MAX);
    let back: Result<HexCoord, _> = far.to_string().parse();
    assert_eq!(back, Ok(far));
}

#[test]
fn coord_parse_errors() {
    let no_r: Result<HexCoord, _> = "q10".parse();
    assert!(no_r.is_err());
    let not_a_number: Result<HexCoord, _> = "qxr1".parse();
    assert!(not_a_number.is_err());
    let too_large: Result<HexCoord, _> = "q2147483648r0".parse();
    assert!(too_large.is_err());
}

#[test]
fn coord_arithmetic() {
    let a = HexCoord::new(1, -3);
    let b = HexCoord::new(2, 5);
    assert_eq!(a.plus(b), HexCoord::new(3, 2));
    assert_eq!(a.minus(b), HexCoord::new(-1, -8));
    assert_eq!(a.times(3), HexCoord::new(3, -9));
    assert_eq!(a.s(), 2);
    assert_eq!(a.length(), 3);
}

#[test]
fn mutate_and_read_back() {
    let layout = SquareGridLayout {
        width: 3,
        height: 3,
    };
    let mut grid = Grid {
        layout,
        data: vec![0; layout.size()],
    };

    grid.set(HexCoord::new(1, 2), 17);
    assert_eq!(grid.get(HexCoord::new(1, 2)), Some(&17));
    assert_eq!(grid[HexCoord::new(1, 2)], 17);

    *grid.index_mut(HexCoord::new(2, 1)) = 13;
    assert_eq!(grid.get(HexCoord::new(2, 1)), Some(&13));
    assert_eq!(grid[HexCoord::new(2, 1)], 13);
}

#[test]
fn grid_regions() {
    let layout = SquareGridLayout {
        width: 3,
        height: 3,
    };
    let grid = Grid {
        layout,
        data: vec![
            0, 0, 1, //
            0, 0, 2, //
            1, 1, 1,
        ],
    };

    let regions: Vec<_> = grid.regions(|a, b| a == b);
    println!("regions {:?}", regions);
    assert_eq!(regions.len(), 4);
    assert_eq!(
        regions.iter().map(|r| r.0.len()).sum::<usize>(),
        layout.size()
    );
}

#[test]
fn region_regions() {
    let layout = SquareGridLayout {
        width: 3,
        height: 3,
    };
    let grid = Grid::with_data(
        layout,
        vec![
            0, 0, 1, //
            0, 0, 2, //
            1, 1, 1,
        ],
    );

    let regions: Vec<_> = Regions::from(&grid, |a: &i32, b: &i32| a == b).iter();
    println!("regions {:?}", regions);
    assert_eq!(regions.len(), 4);
    assert_eq!(
        regions.iter().map(|r| r.0.len()).sum::<usize>(),
        layout.size()
    );
}

#[test]
fn regions_are_connected_and_uniform() {
    let layout = HexagonalGridLayout { radius: 2 };
    let grid = Grid::with_data(layout, vec![1, 1, 2, 2, 1, 1, 3]);
    let regions = grid.regions(|a, b| a == b);
    let mut seen: Vec<HexCoord> = Vec::new();
    for region in &regions {
        let first = grid[region.0[0]];
        for coord in &region.0 {
            assert_eq!(grid[*coord], first);
            assert!(!seen.contains(coord));
            seen.push(*coord);
        }
    }
    assert_eq!(seen.len(), layout.size());
}

#[test]
fn square_map_3x3() {
    let layout = SquareGridLayout {
        width: 3,
        height: 3,
    };
    assert_eq!(layout.iter().len(), 9);
    let coords: Vec<HexCoord> = layout.iter().into_iter().collect();

    println!("coords {:?}", coords);
    assert_eq!(coords.len(), 9);
    assert_eq!(coords[0], HexCoord::zero());
    assert_eq!(layout.offset(HexCoord::zero()), Some(0));
    assert_eq!(coords[1], HexCoord::new(1, 0));
    assert_eq!(coords[2], HexCoord::new(2, 0));
    assert_eq!(coords[3], HexCoord::new(0, 1));
    assert_eq!(coords[4], HexCoord::new(1, 1));
    assert_eq!(coords[5], HexCoord::new(2, 1));
    assert_eq!(coords[6], HexCoord::new(-1, 2));
    assert_eq!(layout.offset(HexCoord::new(-1, 2)), Some(6));
    assert_eq!(coords[7], HexCoord::new(0, 2));
    assert_eq!(coords[8], HexCoord::new(1, 2));
    assert_eq!(layout.offset(HexCoord::new(1, 2)), Some(8));

    assert!(layout.contains(HexCoord::zero()));
    assert!(layout.contains(HexCoord::new(-1, 2)));
    assert!(!layout.contains(HexCoord::new(-2, 2)));
}

#[test]
fn square_offset_matches_iter() {
    let layout = SquareGridLayout {
        width: 8,
        height: 8,
    };
    let offsets: Vec<_> = layout
        .iter()
        .into_iter()
        .map(|coord| layout.offset(coord))
        .collect();
    assert_eq!(offsets, (0..layout.size()).map(Some).collect::<Vec<_>>());
}

#[test]
fn hexagonal_map_r2() {
    let layout = HexagonalGridLayout { radius: 2 };
    let coords: Vec<HexCoord> = layout.iter().into_iter().collect();

    assert_eq!(layout.iter().len(), 7);
    println!("coords {:?}", coords);
    assert_eq!(layout.size(), 7);
    assert_eq!(coords.len(), 7);
    assert_eq!(coords[0], HexCoord::zero());
    assert_eq!(coords[1], HexCoord::new(0, -1));
    assert_eq!(coords[2], HexCoord::new(1, -1));
    assert_eq!(coords[5], HexCoord::new(-1, 1));
    assert_eq!(layout.offset(HexCoord::zero()), Some(0));
    assert_eq!(layout.offset(HexCoord::new(0, -1)), Some(1));
    assert_eq!(layout.offset(HexCoord::new(-1, 1)), Some(5));

    assert!(layout.contains(HexCoord::zero()));
    assert!(layout.contains(HexCoord::new(-1, 1)));
    assert!(!layout.contains(HexCoord::new(-2, 1)));
}

#[test]
fn hexagonal_map_iter_r3() {
    let layout = HexagonalGridLayout { radius: 3 };
    let coords: Vec<HexCoord> = layout.iter().into_iter().collect();

    println!("coords {:?}", coords);
    assert_eq!(layout.size(), 19);
    assert_eq!(coords.len(), 19);
    assert_eq!(coords[0], HexCoord::zero());
    assert_eq!(coords[1], HexCoord::new(0, -1));
    assert_eq!(coords[2], HexCoord::new(0, -2));
    assert_eq!(coords[3], HexCoord::new(1, -1));
    assert_eq!(coords[7], HexCoord::new(1, 0));
    assert_eq!(coords[13], HexCoord::new(-1, 1));
    assert_eq!(layout.offset(HexCoord::new(-2, 0)), Some(18));
}

#[test]
fn hexagonal_offset_matches_iter() {
    let layout = HexagonalGridLayout { radius: 5 };
    let coords: Vec<HexCoord> = layout.iter().into_iter().collect();
    println!("coords {:?}", coords);
    let offsets: Vec<_> = layout
        .iter()
        .into_iter()
        .map(|coord| layout.offset(coord))
        .collect();
    assert_eq!(offsets, (0..layout.size()).map(Some).collect::<Vec<_>>());
}

#[test]
fn test_wrap_coord() {
    let layout = HexagonalGridLayout { radius: 3 };
    assert_eq!(layout.wrap(HexCoord::new(3, 0)), HexCoord::new(-2, 2));
}

#[test]
fn ring_positions_wrap_into_layout() {
    let layout = HexagonalGridLayout { radius: 4 };
    let outer = ring(HexCoord::zero(), 5);
    assert_eq!(outer.len(), 24);
    for coord in outer {
        assert_eq!(coord.length(), 4);
        let wrapped = layout.wrap(coord);
        assert!(layout.contains(wrapped));
    }
}

#[test]
fn ring_is_sorted_and_complete() {
    let coords = ring(HexCoord::new(1, 1), 2);
    assert_eq!(
        coords,
        vec![
            HexCoord::new(0, 1),
            HexCoord::new(0, 2),
            HexCoord::new(1, 0),
            HexCoord::new(1, 2),
            HexCoord::new(2, 0),
            HexCoord::new(2, 1),
        ]
    );
    assert_eq!(ring(HexCoord::zero(), 1), vec![HexCoord::zero()]);
}

#[test]
fn layout_centers() {
    assert_eq!(HexagonalGridLayout { radius: 4 }.center(), HexCoord::zero());
    assert_eq!(
        SquareGridLayout {
            width: 10,
            height: 8
        }
        .center(),
        HexCoord::new(3, 4)
    );
}

#[test]
fn layout_iterators_walk_in_storage_order() {
    let layout = HexagonalGridLayout { radius: 3 };
    let mut it = expl::hexgrid::layout::HexagonalGridLayoutIterator::new(layout);
    assert_eq!(it.size_hint(), (19, Some(19)));
    let mut walked = Vec::new();
    while let Some(coord) = it.next() {
        walked.push(coord);
    }
    assert_eq!(walked, layout.iter());

    let square = SquareGridLayout {
        width: 4,
        height: 2,
    };
    let mut it = expl::hexgrid::layout::SquareGridLayoutIterator::new(square);
    assert_eq!(it.size_hint(), (8, Some(8)));
    let mut walked = Vec::new();
    while let Some(coord) = it.next() {
        walked.push(coord);
    }
    assert_eq!(walked, square.iter());
}

#[test]
fn test_from_fn() {
    let neighbours = Neighbours::from_fn(|coord: HexCoord| coord.distance(HexCoord::new(-2, 2)));
    assert_eq!(neighbours.values(), &[3, 2, 1, 2, 3, 3]);
}

#[test]
fn test_from_fn_around() {
    let neighbours = Neighbours::from_fn_around(HexCoord::new(-2, 2), |coord: HexCoord| {
        coord.distance(HexCoord::new(-2, 2))
    });
    assert_eq!(neighbours.values(), &[1, 1, 1, 1, 1, 1]);
}

#[test]
fn test_iter() {
    let neighbours = Neighbours::new([1, 1, 2, 3, 5, 8]);
    let mut iter = neighbours.iter().into_iter();
    assert_eq!(iter.next(), Some((HexCoord::new(1, 0), &1)));
    assert_eq!(iter.next(), Some((HexCoord::new(0, 1), &1)));
    assert_eq!(iter.next(), Some((HexCoord::new(-1, 1), &2)));
    assert_eq!(iter.next(), Some((HexCoord::new(-1, 0), &3)));
    assert_eq!(iter.next(), Some((HexCoord::new(0, -1), &5)));
    assert_eq!(iter.next(), Some((HexCoord::new(1, -1), &8)));
    assert_eq!(iter.next(), None);
}

#[test]
fn neighbours_map_and_set() {
    let mut neighbours = Neighbours::new([1, 2, 3, 4, 5, 6]);
    neighbours.set(2, 30);
    assert_eq!(*neighbours.index(2), 30);
    let doubled = neighbours.map(|v: i32| v * 2);
    assert_eq!(doubled.values(), &[2, 4, 60, 8, 10, 12]);
    let values: Vec<i32> = neighbours.iter_values().into_iter().copied().collect();
    assert_eq!(values, vec![1, 2, 30, 4, 5, 6]);
}

#[test]
fn transform_apply() {
    let source = HexCoord::new(2, -2);
    assert_eq!(Transform::Identity.apply(source), HexCoord::new(2, -2));
    assert_eq!(
        Transform::RotateClockwise60.apply(source),
        HexCoord::new(2, 0)
    );
    assert_eq!(
        Transform::RotateClockwise120.apply(source),
        HexCoord::new(0, 2)
    );
    assert_eq!(
        Transform::RotateClockwise60.apply(Transform::RotateClockwise60.apply(source)),
        HexCoord::new(0, 2)
    );
}

#[test]
fn transform_matrix() {
    let source = HexCoord::new(2, -2);
    let transform = TransformMatrix::from_transforms(&[
        Transform::RotateClockwise60,
        Transform::RotateClockwise60,
    ]);
    assert_eq!(transform.apply(source), HexCoord::new(0, 2));
}

#[test]
fn transform_imat3_products() {
    let source = HexCoord::new(2, -2);
    assert_eq!(
        Transform::Identity.into_imat3().mul_vec3(source.qrs()),
        IVec3::new(2, -2, 0),
    );
    assert_eq!(
        Transform::RotateClockwise60.into_imat3().mul_vec3(source.qrs()),
        IVec3::new(2, 0, -2),
    );
    let rotate_twice = Transform::RotateClockwise60
        .into_imat3()
        .mul_mat3(&Transform::RotateClockwise60.into_imat3());
    assert_eq!(rotate_twice.mul_vec3(source.qrs()), IVec3::new(0, 2, -2));
    assert_eq!(
        HexCoord::try_from_cube(IVec3::new(2, -3, 1)),
        Ok(HexCoord::new(2, -3))
    );
    assert!(HexCoord::try_from_cube(IVec3::new(2, -3, 2)).is_err());
}

#[test]
fn composed_transforms_apply_last_first() {
    let source = HexCoord::new(3, -1);
    let composed = TransformMatrix::from_transforms(&[Transform::ReflectS, Transform::RotateClockwise60]);
    assert_eq!(
        composed.apply(source),
        Transform::ReflectS.apply(Transform::RotateClockwise60.apply(source))
    );
    assert_eq!(
        TransformMatrix::from_transform(Transform::ReflectQ).apply(source),
        Transform::ReflectQ.apply(source)
    );
    assert_eq!(composed.apply(source).length(), source.length());
}

#[test]
fn one_cell_grid_iterates_and_has_one_region() {
    let layout = HexagonalGridLayout { radius: 0 };
    let grid = Grid::with_data(layout, vec![7]);
    let pairs = grid.iter();
    assert_eq!(pairs.len(), 1);
    assert_eq!(pairs[0], (HexCoord::new(0, 0), &7));
    let regions: Vec<_> = grid.regions(|a, b| a != b);
    assert_eq!(regions.len(), 1);
    assert_eq!(regions[0].0, vec![HexCoord::new(0, 0)]);
}

use tilemap_core::tile_coords::TileCoords;
use tilemap_core::tile_data::TileData;
use tilemap_core::tile_data::TileDataError;
use tilemap_core::tilemap::TileDesc;
use tilemap_core::tilemap::TileType;

#[test]
fn populate() {
    let td = TileData::new(2, 2).unwrap();
    assert_eq!(4, td.len(), "has 4 items");
    assert!(!td.is_empty(), "is empty");
    let res = td.get_tile(&0, &0);
    assert!(res.is_ok(), "not ok");
    let res = td.get_tile(&1, &1);
    assert!(res.is_ok(), "not ok");
    let res = td.get_tile(&10, &100);
    assert_eq!(
        res.err(),
        Some(TileDataError::OutOfBoundsError(10, 100, 2, 2))
    );
}

#[test]
fn set_and_get() {
    let mut td = TileData::new(2, 2).unwrap();
    td.set_tile(TileDesc::new(Some(0), TileCoords::new(0, 0), None))
        .unwrap();

    let tile = td.get_tile(&0, &0).unwrap();
    let (x, y) = (tile.coords.x(), tile.coords.y());
    assert_eq!((x, y), (0, 0));
    assert_eq!(tile.tile_index, Some(0));

    let no_tile = td.get_tile(&1, &1).unwrap();
    let (x, y) = (no_tile.coords.x(), no_tile.coords.y());
    assert_eq!((x, y), (1, 1));
    assert_eq!(no_tile.tile_index, None);
}

#[test]
fn new_from_vec() {
    let v = vec![
        TileDesc::new(None, TileCoords::new(0, 0), None),
        TileDesc::new(None, TileCoords::new(1, 0), None),
    ];

    let td = TileData::from_vec(2, 2, v).unwrap();

    let t1 = td.get_tile(&0, &0).unwrap();
    let t2 = td.get_tile(&1, &0).unwrap();

    let (t1x, t1y) = (t1.coords.x(), t1.coords.y());
    let (t2x, t2y) = (t2.coords.x(), t2.coords.y());
    assert_eq!((t1x, t1y), (0, 0));
    assert_eq!((t2x, t2y), (1, 0));
}

#[test]
fn iterator() {
    let v = vec![
        TileDesc::new(None, TileCoords::new(0, 0), None),
        TileDesc::new(None, TileCoords::new(1, 0), None),
    ];
    let td = TileData::from_vec(2, 2, v).unwrap();
    let mut count = 0;
    let mut x = 0;
    let mut y = 0;
    let mut iter = td.iter();
    while let Some(t) = iter.next() {
        let (n, m) = (t.coords.x(), t.coords.y());
        assert_eq!((n, m), (x, y));
        y += 1;
        if y == 2 {
            y = 0;
            x += 1;
        }
        count += 1;
    }
    assert_eq!(count, 4);
}

#[test]
fn boundary_rejection() {
    let mut td = TileData::new(4, 3).unwrap();
    // the exclusive bound itself is rejected
    let at_x_bound = td.set_tile(TileDesc::new(Some(7), TileCoords::new(4, 0), None));
    assert_eq!(at_x_bound, Err(TileDataError::OutOfBoundsError(4, 0, 4, 3)));
    let at_y_bound = td.set_tile(TileDesc::new(Some(7), TileCoords::new(0, 3), None));
    assert_eq!(at_y_bound, Err(TileDataError::OutOfBoundsError(0, 3, 4, 3)));
    // one short of the bound succeeds
    let inside = td.set_tile(TileDesc::new(Some(7), TileCoords::new(3, 2), None));
    assert_eq!(inside, Ok(()));
    assert_eq!(td.get_tile(&3, &2).unwrap().tile_index, Some(7));
}

#[test]
fn zero_sized_grids_are_rejected() {
    assert_eq!(
        TileData::new(0, 5).err(),
        Some(TileDataError::InitializationError(0, 5))
    );
    assert_eq!(
        TileData::new(5, 0).err(),
        Some(TileDataError::InitializationError(5, 0))
    );
    assert_eq!(
        TileData::from_vec(0, 0, vec![]).err(),
        Some(TileDataError::InitializationError(0, 0))
    );
}

#[test]
fn from_vec_fails_on_first_out_of_bounds_entry() {
    let v = vec![
        TileDesc::new(Some(1), TileCoords::new(0, 0), None),
        TileDesc::new(Some(2), TileCoords::new(5, 1), Some(TileType::Wall)),
        TileDesc::new(Some(3), TileCoords::new(9, 9), None),
    ];
    let r = TileData::from_vec(2, 2, v);
    assert_eq!(r.err(), Some(TileDataError::OutOfBoundsError(5, 1, 2, 2)));
}

#[test]
fn later_entries_overwrite_earlier_ones() {
    let v = vec![
        TileDesc::new(Some(1), TileCoords::new(0, 1), None),
        TileDesc::new(Some(2), TileCoords::new(0, 1), Some(TileType::Door)),
    ];
    let td = TileData::from_vec(2, 2, v).unwrap();
    let t = td.get_tile(&0, &1).unwrap();
    assert_eq!(t.tile_index, Some(2));
    assert_eq!(t.metadata, Some(TileType::Door));
}

#[test]
fn growing_the_bounds_leaves_new_cells_unpopulated() {
    let mut td = TileData::new(1, 1).unwrap();
    td.set_tilemap_size(2, 2);
    assert_eq!(td.get_tile(&0, &0).unwrap().tile_index, None);
    assert_eq!(
        td.get_tile(&1, &1).err(),
        Some(TileDataError::NotFoundError(1, 1))
    );
}

#[test]
fn shrinking_the_bounds_hides_stale_entries() {
    let mut td = TileData::new(3, 3).unwrap();
    td.set_tile(TileDesc::new(Some(9), TileCoords::new(2, 2), None))
        .unwrap();
    td.set_tilemap_size(1, 1);
    assert_eq!(
        td.get_tile(&2, &2).err(),
        Some(TileDataError::OutOfBoundsError(2, 2, 1, 1))
    );
    // the remaining cell is still there
    assert_eq!(td.get_tile(&0, &0).unwrap().tile_index, None);
}

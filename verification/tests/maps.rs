use tilemap_core::codec::parse_map;
use tilemap_core::codec::serialize_map;
use tilemap_core::codec::MapParseError;
use tilemap_core::settings::GameSettings;
use tilemap_core::settings::SettingsFile;
use tilemap_core::tile_coords::coord_to_screen_pos;
use tilemap_core::tile_coords::TileCoords;
use tilemap_core::tile_data::TileData;
use tilemap_core::tile_data::TileDataError;
use tilemap_core::tilemap::MapScreen;
use tilemap_core::tilemap::TileType;

fn reference_settings(editor: bool) -> GameSettings {
    let sf = SettingsFile {
        scale: 1,
        x_max: 24,
        y_max: 18,
        tile_height: 16,
        tile_width: 16,
        tile_z: 0,
        game_z: 1,
    };
    GameSettings::new_from_sf(&sf, editor)
}

fn sized_screen(w: u32, h: u32, name: &str) -> MapScreen {
    let mut ms = MapScreen::new(24, 18, Some(name), Some("sheet.png"));
    ms.tile_data = TileData::new(w, h).unwrap();
    ms
}

#[test]
fn new_map_screen_fields() {
    let ms = MapScreen::new(8, 9, Some("cellar"), Some("tiles.png"));
    assert_eq!(ms.tile_rows, 8);
    assert_eq!(ms.tile_cols, 9);
    assert_eq!(ms.map_name, "cellar");
    assert_eq!(ms.tile_set.as_deref(), Some("tiles.png"));
    assert_eq!(ms.tile_data.bound_x(), 0);
    assert_eq!(ms.tile_data.bound_y(), 0);
}

#[test]
fn rename_and_tile_set_path() {
    let mut ms = MapScreen::default();
    assert_eq!(ms.map_name, "");
    assert_eq!(ms.tile_set, None);
    ms.rename("the dungeon");
    ms.set_tile_set_path(Some(String::from("dungeon.png")));
    assert_eq!(ms.map_name, "the dungeon");
    assert_eq!(ms.tile_set.as_deref(), Some("dungeon.png"));
}

#[test]
fn paint_tile_stores_and_rejects() {
    let mut ms = sized_screen(4, 4, "paint");
    let ok = ms.paint_tile(TileCoords::new(1, 2), 7, Some(TileType::Item));
    assert_eq!(ok, Ok(()));
    let t = ms.tile_data.get_tile(&1, &2).unwrap();
    assert_eq!(t.tile_index, Some(7));
    assert_eq!(t.metadata, Some(TileType::Item));
    let bad = ms.paint_tile(TileCoords::new(4, 0), 7, None);
    assert_eq!(bad, Err(TileDataError::OutOfBoundsError(4, 0, 4, 4)));
}

#[test]
fn sprite_index_formula() {
    let ms = MapScreen::new(24, 18, None, None);
    // sprite_index = col + row * sheet_rows
    assert_eq!(ms.sprite_index(0, 0), 0);
    assert_eq!(ms.sprite_index(2, 3), 3 + 2 * 24);
}

#[test]
fn render_projection_covers_every_cell() {
    let mut ms = sized_screen(2, 2, "tiny");
    ms.paint_tile(TileCoords::new(1, 0), 5, None).unwrap();
    let data = ms.tilemapdata_from_struct(3).unwrap();
    assert_eq!(data.len(), 4);
    // row-major: (0,0) (0,1) (1,0) (1,1)
    assert_eq!((data[0].x, data[0].y), (0, 0));
    assert_eq!((data[1].x, data[1].y), (0, 1));
    assert_eq!((data[2].x, data[2].y), (1, 0));
    assert_eq!((data[3].x, data[3].y), (1, 1));
    assert_eq!(data[2].sprite_index, Some(5));
    assert_eq!(data[0].sprite_index, None);
    assert!(data.iter().all(|p| p.z == 3));
}

#[test]
fn wallmap_projects_only_walls() {
    let gs = reference_settings(false);
    let mut ms = sized_screen(24, 18, "walls");
    ms.paint_tile(TileCoords::new(1, 16), 2, Some(TileType::Wall))
        .unwrap();
    ms.paint_tile(TileCoords::new(2, 16), 3, Some(TileType::Door))
        .unwrap();
    let walls = ms.get_wallmap(&gs);
    assert_eq!(walls.len(), 1);
    let expected = coord_to_screen_pos(1, 16, gs.game_z, &gs);
    assert_eq!(walls[0], expected);
    assert_eq!(walls[0].z, 1);
}

#[test]
fn serialized_form_of_a_blank_screen() {
    let ms = MapScreen::default();
    let bytes = serialize_map(&ms);
    assert_eq!(bytes, b"tilemap\n0 \n0\n0 0 \n24\n18\n0 0 0\n".to_vec());
}

#[test]
fn parse_blank_screen_bytes() {
    let ms = parse_map(b"tilemap\n0 \n0\n0 0 \n24\n18\n0 0 0\n").unwrap();
    assert_eq!(ms.map_name, "");
    assert_eq!(ms.map_id, 0);
    assert_eq!(ms.tile_set, None);
    assert_eq!(ms.tile_rows, 24);
    assert_eq!(ms.tile_cols, 18);
    assert_eq!(ms.tile_data.bound_x(), 0);
    assert_eq!(ms.tile_data.bound_y(), 0);
}

#[test]
fn parse_rejects_malformed_input() {
    assert_eq!(parse_map(b"").err(), Some(MapParseError::Malformed));
    assert_eq!(parse_map(b"garbage").err(), Some(MapParseError::Malformed));
    // truncated after the name line
    assert_eq!(
        parse_map(b"tilemap\n3 abc\n").err(),
        Some(MapParseError::Malformed)
    );
    // a tag code the format does not know
    assert_eq!(
        parse_map(b"tilemap\n0 \n0\n0 0 \n1\n1\n1 1 1\n0 0 0 0 6\n").err(),
        Some(MapParseError::Malformed)
    );
    // trailing bytes after the grid lines
    assert_eq!(
        parse_map(b"tilemap\n0 \n0\n0 0 \n24\n18\n0 0 0\nx").err(),
        Some(MapParseError::Malformed)
    );
    // an invalid name byte count
    assert_eq!(
        parse_map(b"tilemap\n99 x\n0\n0 0 \n24\n18\n0 0 0\n").err(),
        Some(MapParseError::Malformed)
    );
}

#[test]
fn persistence_round_trip() {
    let mut ms = sized_screen(6, 5, "caf\u{e9} of doom");
    ms.paint_tile(TileCoords::new(0, 0), 11, Some(TileType::Wall))
        .unwrap();
    ms.paint_tile(TileCoords::new(3, 4), 0, Some(TileType::NPC))
        .unwrap();
    ms.paint_tile(TileCoords::new(5, 2), 7, None).unwrap();
    let bytes = serialize_map(&ms);
    let back = parse_map(&bytes).unwrap();

    assert_eq!(back.map_name, ms.map_name);
    assert_eq!(back.map_id, ms.map_id);
    assert_eq!(back.tile_set, ms.tile_set);
    assert_eq!(back.tile_rows, ms.tile_rows);
    assert_eq!(back.tile_cols, ms.tile_cols);
    assert_eq!(back.tile_data.bound_x(), 6);
    assert_eq!(back.tile_data.bound_y(), 5);

    // every (coords, tile_index, tag) triple is reproduced
    let mut original = Vec::new();
    let mut it = ms.tile_data.iter();
    while let Some(t) = it.next() {
        original.push((t.coords.x(), t.coords.y(), t.tile_index, t.metadata));
    }
    let mut reloaded = Vec::new();
    let mut it = back.tile_data.iter();
    while let Some(t) = it.next() {
        reloaded.push((t.coords.x(), t.coords.y(), t.tile_index, t.metadata));
    }
    assert_eq!(original.len(), 30);
    assert_eq!(original, reloaded);
}

#[test]
fn round_trip_keeps_an_empty_cell_empty() {
    // a grid whose bounds were grown past the stored data keeps its holes
    let mut ms = sized_screen(1, 1, "holes");
    ms.tile_data.set_tilemap_size(2, 2);
    let bytes = serialize_map(&ms);
    let back = parse_map(&bytes).unwrap();
    assert_eq!(back.tile_data.bound_x(), 2);
    assert_eq!(back.tile_data.bound_y(), 2);
    assert_eq!(back.tile_data.get_tile(&0, &0).unwrap().tile_index, None);
    assert_eq!(
        back.tile_data.get_tile(&1, &1).err(),
        Some(TileDataError::NotFoundError(1, 1))
    );
}

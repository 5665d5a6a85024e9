use tilemap_core::settings::GameSettings;
use tilemap_core::settings::SettingsFile;
use tilemap_core::tile_coords::coord_to_screen_pos;
use tilemap_core::tile_coords::screen_pos_to_coord;
use tilemap_core::tile_coords::top_left_to_coord;
use tilemap_core::tile_coords::ScreenPos;
use tilemap_core::tile_coords::TileCoords;

fn reference_file() -> SettingsFile {
    SettingsFile {
        scale: 1,
        x_max: 24,
        y_max: 18,
        tile_height: 16,
        tile_width: 16,
        tile_z: 0,
        game_z: 1,
    }
}

#[test]
fn coord_to_screen_pos_test() {
    let sf = reference_file();
    let gs = GameSettings::new_from_sf(&sf, false);
    let pos0 = coord_to_screen_pos(0, 0, 0, &gs);
    assert_eq!(pos0.x, gs.game_area_x_transform);
    assert_eq!(pos0.y, gs.game_area_y_transform);
    let pos1 = coord_to_screen_pos(1, 1, 0, &gs);
    assert_eq!(
        pos1.x,
        gs.game_area_x_transform + (gs.scale * gs.tile_width) as i32
    );
    assert_eq!(
        pos1.y,
        gs.game_area_y_transform + (gs.scale * gs.tile_width) as i32
    );
}

#[test]
fn screen_pos_to_coord_test() {
    let sf = reference_file();
    let gs = GameSettings::new_from_sf(&sf, false);
    let step = (gs.scale * gs.tile_width) as i32;
    let pos0 = screen_pos_to_coord(
        ScreenPos {
            x: gs.game_area_x_transform,
            y: gs.game_area_y_transform,
            z: 0,
        },
        &gs,
    );
    assert_eq!(pos0, Some(TileCoords::new(0, 0)));
    let pos1 = screen_pos_to_coord(
        ScreenPos {
            x: gs.game_area_x_transform + step,
            y: gs.game_area_y_transform + step,
            z: 0,
        },
        &gs,
    );
    assert_eq!(pos1, Some(TileCoords::new(1, 1)));

    // anywhere in tile selects proper tile
    let pos2 = screen_pos_to_coord(
        ScreenPos {
            x: gs.game_area_x_transform + step * 4 + 2,
            y: gs.game_area_y_transform + step * 4 + 2,
            z: 0,
        },
        &gs,
    );
    assert_eq!(pos2, Some(TileCoords::new(4, 4)));
}

#[test]
fn screen_pos_to_coord_editor_test() {
    let sf = reference_file();
    let gs = GameSettings::new_from_sf(&sf, true);
    let step = (gs.scale * gs.tile_width) as i32;
    let screen_pos = ScreenPos {
        x: gs.game_area_x_transform,
        y: gs.game_area_y_transform,
        z: 0,
    };
    let pos0 = screen_pos_to_coord(screen_pos, &gs);
    assert_eq!(pos0, Some(TileCoords::new(0, 0)));
    let pos1 = screen_pos_to_coord(
        ScreenPos {
            x: gs.game_area_x_transform + step,
            y: gs.game_area_y_transform + step,
            z: 0,
        },
        &gs,
    );
    assert_eq!(pos1, Some(TileCoords::new(1, 1)));

    // anywhere in tile selects proper tile
    let pos2 = screen_pos_to_coord(
        ScreenPos {
            x: gs.game_area_x_transform + step * 4 + 2,
            y: gs.game_area_y_transform + step * 4 + 2,
            z: 0,
        },
        &gs,
    );
    assert_eq!(pos2, Some(TileCoords::new(4, 4)));
}

#[test]
fn top_left_to_coord_editor_test() {
    let sf = reference_file();
    let gs = GameSettings::new_from_sf(&sf, true);
    let screen_pos = ScreenPos {
        x: gs.left_margin,
        y: gs.viewport_height,
        z: 0,
    };
    let pos0 = top_left_to_coord(screen_pos, &gs);
    assert_eq!(pos0, Some(TileCoords::new(0, 0)));

    let screen_pos = ScreenPos {
        x: gs.left_margin + 100,
        y: gs.viewport_height - 100,
        z: 0,
    };
    let pos0 = top_left_to_coord(screen_pos, &gs);
    assert_eq!(pos0, Some(TileCoords::new(6, 6)));
}

#[test]
fn positions_left_of_the_grid_map_to_no_tile() {
    let sf = reference_file();
    let gs = GameSettings::new_from_sf(&sf, false);
    let below = screen_pos_to_coord(
        ScreenPos {
            x: gs.game_area_x_transform - 1,
            y: gs.game_area_y_transform,
            z: 0,
        },
        &gs,
    );
    assert_eq!(below, None);
    let editor = GameSettings::new_from_sf(&sf, true);
    let left = top_left_to_coord(
        ScreenPos {
            x: editor.left_margin - 1,
            y: editor.viewport_height,
            z: 0,
        },
        &editor,
    );
    assert_eq!(left, None);
}

#[test]
fn round_trip_every_grid_coordinate() {
    let sf = reference_file();
    for editor in [false, true] {
        let gs = GameSettings::new_from_sf(&sf, editor);
        for x in 0..24u32 {
            for y in 0..18u32 {
                let pos = coord_to_screen_pos(x, y, 0, &gs);
                let back = screen_pos_to_coord(pos, &gs);
                assert_eq!(back, Some(TileCoords::new(x, y)));
            }
        }
    }
}

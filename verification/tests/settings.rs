use tilemap_core::settings::GameSettings;
use tilemap_core::settings::SettingsFile;

fn reference_file() -> SettingsFile {
    SettingsFile {
        scale: 1,
        x_max: 24,
        y_max: 18,
        tile_height: 16,
        tile_width: 16,
        tile_z: 0,
        game_z: 1,
    }
}

#[test]
fn screen_calculations_game() {
    let sf = reference_file();
    let gs = GameSettings::new_from_sf(&sf, false);
    assert_eq!(gs.game_area_x_res, 384, "game_area_x_res");
    assert_eq!(gs.game_area_y_res, 288, "game_area_y_res");
    assert_eq!(gs.top_margin, 57, "top_margin");
    assert_eq!(gs.left_margin, 0, "left_margin");
    assert_eq!(gs.viewport_width, 384, "viewport_width");
    assert_eq!(gs.viewport_height, 345, "viewport_height");
    assert_eq!(gs.game_area_x_transform, -184, "game_area_x_transform");
    assert_eq!(gs.game_area_y_transform, -165, "game_area_y_transform");
    assert_eq!(gs.game_area_x_max, 184, "game_area_x_max");
    assert_eq!(gs.game_area_x_min, -184, "game_area_x_min");
    assert_eq!(gs.game_area_y_max, 107, "game_area_y_max");
    assert_eq!(gs.game_area_y_min, -165, "game_area_y_min");
}

#[test]
fn screen_calculations_editor() {
    let sf = reference_file();
    let gs = GameSettings::new_from_sf(&sf, true);
    assert_eq!(gs.game_area_x_res, 384, "game_area_x_res");
    assert_eq!(gs.game_area_y_res, 288, "game_area_y_res");
    assert_eq!(gs.top_margin, 57, "top_margin");
    assert_eq!(gs.left_margin, 192, "left_margin");
    assert_eq!(gs.viewport_width, 576, "viewport_width");
    assert_eq!(gs.viewport_height, 345, "viewport_height");
    assert_eq!(gs.game_area_x_transform, -376, "game_area_x_transform");
    assert_eq!(gs.game_area_y_transform, -165, "game_area_y_transform");
    assert_eq!(gs.game_area_x_max, -8, "game_area_x_max");
    assert_eq!(gs.game_area_x_min, -376, "game_area_x_min");
    assert_eq!(gs.game_area_y_max, 107, "game_area_y_max");
    assert_eq!(gs.game_area_y_min, -165, "game_area_y_min");
}

#[test]
fn layout_is_deterministic() {
    let a = GameSettings::new(2, 10, 8, 16, 24, 0, 1, true);
    let b = GameSettings::new(2, 10, 8, 16, 24, 0, 1, true);
    assert_eq!(a, b);
}

#[test]
fn odd_sizes_floor_margins() {
    // a 7x3 grid of 9x11 tiles at scale 1: margins round down
    let gs = GameSettings::new(1, 7, 3, 9, 11, 0, 1, false);
    assert_eq!(gs.game_area_x_res, 63);
    assert_eq!(gs.game_area_y_res, 33);
    assert_eq!(gs.top_margin, 6); // floor(33 / 5)
    assert_eq!(gs.left_margin, 0);
    // floor((9 - 63) / 2) == -27
    assert_eq!(gs.game_area_x_transform, -27);
    // floor((11 - 33 - 6) / 2) == -14
    assert_eq!(gs.game_area_y_transform, -14);
}

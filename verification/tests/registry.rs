use purepic::registry::{
    context_menu_command, context_menu_icon, dword_bytes, dword_from_query,
    string_value_bytes, wide, window_state_from_values, window_state_values, REG_DWORD,
};
use purepic::registry::{preference_values, preferences_from_values, ThumbnailPreferences};
use purepic::thumbnail::ThumbnailDock;
use purepic::window::SavedWindowState;

#[test]
fn context_menu_command_quotes_executable_and_image_path() {
    assert_eq!(
        context_menu_command(r"C:\Program Files\PurePic\PurePic.exe"),
        r#""C:\Program Files\PurePic\PurePic.exe" "%1""#
    );
}

#[test]
fn context_menu_icon_is_the_first_icon_of_the_program() {
    assert_eq!(
        context_menu_icon(r"C:\PurePic\PurePic.exe"),
        r#""C:\PurePic\PurePic.exe",0"#
    );
}

#[test]
fn dword_values_round_trip() {
    for value in [0u32, 1, 255, 256, 0x1234_5678, u32::MAX] {
        let bytes = dword_bytes(value);
        assert_eq!(bytes, value.to_le_bytes());
        assert_eq!(dword_from_query(0, REG_DWORD, 4, bytes), Some(value));
    }
}

#[test]
fn failed_or_mistyped_queries_give_no_value() {
    let bytes = 7u32.to_le_bytes();
    assert_eq!(dword_from_query(2, REG_DWORD, 4, bytes), None);
    assert_eq!(dword_from_query(0, 1, 4, bytes), None);
    assert_eq!(dword_from_query(0, REG_DWORD, 2, bytes), None);
}

#[test]
fn window_state_round_trips_through_its_values() {
    let state = SavedWindowState { width: 1600, height: 1000, maximized: true };
    let (width, height, maximized) = window_state_values(state);
    assert_eq!((width, height, maximized), (1600, 1000, 1));
    assert_eq!(window_state_from_values(Some(width), Some(height), Some(maximized)), Some(state));
    assert_eq!(window_state_from_values(Some(width), None, Some(maximized)), None);
    assert_eq!(
        window_state_from_values(Some(900), Some(900), Some(7)),
        Some(SavedWindowState { width: 900, height: 900, maximized: true })
    );
}

#[test]
fn names_are_zero_terminated_utf16() {
    let expected: Vec<u16> = "Software\\PurePic 打开 😀".encode_utf16().chain(Some(0)).collect();
    assert_eq!(wide("Software\\PurePic 打开 😀"), expected);
    assert_eq!(wide(""), vec![0]);
}

#[test]
fn string_values_are_little_endian_utf16_bytes() {
    let expected: Vec<u8> = "使用 PurePic 打开"
        .encode_utf16()
        .chain(Some(0))
        .flat_map(|unit| unit.to_le_bytes())
        .collect();
    assert_eq!(string_value_bytes("使用 PurePic 打开"), expected);
    assert_eq!(string_value_bytes("A"), vec![0x41, 0, 0, 0]);
}

#[test]
fn thumbnail_preferences_round_trip_and_default() {
    for dock in [ThumbnailDock::Top, ThumbnailDock::Bottom, ThumbnailDock::Left, ThumbnailDock::Right] {
        for visible in [false, true] {
            let preferences = ThumbnailPreferences { visible, dock };
            let (shown, edge) = preference_values(preferences);
            assert_eq!(preferences_from_values(Some(shown), Some(edge)), preferences);
        }
    }
    assert_eq!(preference_values(ThumbnailPreferences { visible: true, dock: ThumbnailDock::Left }), (1, 2));
    assert_eq!(
        preferences_from_values(None, Some(9)),
        ThumbnailPreferences { visible: false, dock: ThumbnailDock::Bottom }
    );
}

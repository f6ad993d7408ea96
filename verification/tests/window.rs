use purepic::chrome::{NonClientHit, PixelRect};
use purepic::window::{
    apply_maximized_work_area, caption_command, client_size_from_lparam,
    enforce_minimum_window_size, initial_window_size, inset_client_rect, key_command,
    saved_window_state_from_placement, signed_high_word, signed_low_word, KeyCommand,
    SavedWindowState, SystemCommand, WindowBounds, VK_DELETE, VK_ESCAPE, VK_F11, VK_LEFT,
    VK_RIGHT,
};

#[test]
fn minimum_window_tracking_size_is_890_square() {
    let mut bounds = WindowBounds::default();
    enforce_minimum_window_size(&mut bounds);
    assert_eq!(bounds.min_track_size.x, 890);
    assert_eq!(bounds.min_track_size.y, 890);
}

#[test]
fn maximized_window_uses_the_monitor_work_area() {
    let mut bounds = WindowBounds::default();
    apply_maximized_work_area(
        &mut bounds,
        PixelRect { left: -1920, top: 0, right: 0, bottom: 1080 },
        PixelRect { left: -1920, top: 0, right: 0, bottom: 1040 },
    );
    assert_eq!(bounds.max_position.x, 0);
    assert_eq!(bounds.max_position.y, 0);
    assert_eq!(bounds.max_size.x, 1920);
    assert_eq!(bounds.max_size.y, 1040);
}

#[test]
fn maximized_client_excludes_the_invisible_resize_frame() {
    let mut rect = PixelRect { left: -12, top: -12, right: 3852, bottom: 2076 };
    inset_client_rect(&mut rect, 12, 12);
    assert_eq!(rect, PixelRect { left: 0, top: 0, right: 3840, bottom: 2064 });
}

#[test]
fn saved_window_state_uses_normal_size_and_maximized_flag() {
    let normal_position = PixelRect { left: 100, top: 200, right: 1700, bottom: 1200 };
    assert_eq!(
        saved_window_state_from_placement(normal_position, true),
        SavedWindowState { width: 1600, height: 1000, maximized: true }
    );
}

#[test]
fn saved_window_state_never_goes_below_the_minimum_size() {
    let normal_position = PixelRect { left: 0, top: 0, right: 300, bottom: 2000 };
    assert_eq!(
        saved_window_state_from_placement(normal_position, false),
        SavedWindowState { width: 890, height: 2000, maximized: false }
    );
}

#[test]
fn initial_size_comes_from_the_saved_state_within_limits() {
    assert_eq!(initial_window_size(None), (1920, 1080));
    let saved = SavedWindowState { width: 1200, height: 100_000, maximized: false };
    assert_eq!(initial_window_size(Some(saved)), (1200, 65535));
    let tiny = SavedWindowState { width: 10, height: 10, maximized: true };
    assert_eq!(initial_window_size(Some(tiny)), (890, 890));
}

#[test]
fn mouse_coordinates_are_signed_words() {
    let packed: isize = 0xFFF6_0014;
    assert_eq!(signed_low_word(packed), 20);
    assert_eq!(signed_high_word(packed), -10);
}

#[test]
fn resize_parameter_holds_width_and_height() {
    assert_eq!(client_size_from_lparam(0x0438_0780), (1920, 1080));
}

#[test]
fn caption_buttons_post_window_commands() {
    assert_eq!(caption_command(NonClientHit::MinimizeButton, false), Some(SystemCommand::Minimize));
    assert_eq!(caption_command(NonClientHit::MaximizeButton, false), Some(SystemCommand::Maximize));
    assert_eq!(caption_command(NonClientHit::MaximizeButton, true), Some(SystemCommand::Restore));
    assert_eq!(caption_command(NonClientHit::CloseButton, true), Some(SystemCommand::Close));
    assert_eq!(caption_command(NonClientHit::Caption, false), None);
}

#[test]
fn keys_navigate_delete_and_toggle_fullscreen() {
    assert_eq!(key_command(VK_LEFT, false), KeyCommand::PreviousImage);
    assert_eq!(key_command(VK_RIGHT, false), KeyCommand::NextImage);
    assert_eq!(key_command(VK_DELETE, false), KeyCommand::DeleteImage);
    assert_eq!(key_command(VK_F11, false), KeyCommand::SetFullscreen(true));
    assert_eq!(key_command(VK_F11, true), KeyCommand::SetFullscreen(false));
    assert_eq!(key_command(VK_ESCAPE, true), KeyCommand::SetFullscreen(false));
    assert_eq!(key_command(VK_ESCAPE, false), KeyCommand::CloseMenus);
    assert_eq!(key_command(0x41, false), KeyCommand::Ignore);
}

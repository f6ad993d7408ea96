use purepic::controls::{StatusControl, ThumbnailControl};
use purepic::pointer::{pointer_step, PointerEffect, PointerHit, PointerState};
use purepic::thumbnail::ThumbnailDock;

fn state() -> PointerState {
    PointerState {
        fullscreen: false,
        dock_menu_open: false,
        zoom_menu_open: false,
        thumbnail_visible: true,
        dock: ThumbnailDock::Bottom,
    }
}

fn nothing_hit() -> PointerHit {
    PointerHit {
        navigation: None,
        default_app_button: false,
        title_action_button: false,
        dock_choice: None,
        zoom_choice: None,
        thumbnail_control: None,
        scrollbar: false,
        thumbnail: None,
        in_thumbnail_panel: false,
        status_control: None,
    }
}

#[test]
fn a_press_on_nothing_drags_the_image() {
    assert_eq!(pointer_step(state(), nothing_hit()), (state(), PointerEffect::Pan));
}

#[test]
fn navigation_buttons_come_first_even_in_fullscreen() {
    let fullscreen = PointerState { fullscreen: true, ..state() };
    let hit = PointerHit { navigation: Some(4), status_control: Some(StatusControl::ZoomIn), ..nothing_hit() };
    assert_eq!(pointer_step(fullscreen, hit), (fullscreen, PointerEffect::OpenThumbnail(4)));
    let hit = PointerHit { status_control: Some(StatusControl::ZoomIn), ..nothing_hit() };
    assert_eq!(pointer_step(fullscreen, hit), (fullscreen, PointerEffect::Pan));
}

#[test]
fn the_dock_menu_opens_and_closes_with_the_chosen_dock() {
    let hit = PointerHit { thumbnail_control: Some(ThumbnailControl::DockMenu), ..nothing_hit() };
    let (opened, effect) = pointer_step(state(), hit);
    assert!(opened.dock_menu_open);
    assert_eq!(effect, PointerEffect::Nothing);
    let hit = PointerHit { dock_choice: Some(ThumbnailDock::Left), ..nothing_hit() };
    let (chosen, effect) = pointer_step(opened, hit);
    assert_eq!(chosen, PointerState { dock: ThumbnailDock::Left, ..state() });
    assert_eq!(effect, PointerEffect::ThumbnailLayoutChanged);
    let hit = PointerHit { thumbnail: Some(2), ..nothing_hit() };
    assert_eq!(pointer_step(opened, hit), (state(), PointerEffect::Nothing));
}

#[test]
fn the_zoom_menu_closes_on_any_press_below_the_title_bar() {
    let open = PointerState { zoom_menu_open: true, ..state() };
    let hit = PointerHit { zoom_choice: Some(3), ..nothing_hit() };
    assert_eq!(pointer_step(open, hit), (state(), PointerEffect::ZoomChosen(3)));
    assert_eq!(pointer_step(open, nothing_hit()), (state(), PointerEffect::Nothing));
    let hit = PointerHit { title_action_button: true, ..nothing_hit() };
    assert_eq!(pointer_step(open, hit), (open, PointerEffect::ToggleContextMenu));
    let hit = PointerHit { status_control: Some(StatusControl::ZoomMenu), ..nothing_hit() };
    assert_eq!(pointer_step(state(), hit), (open, PointerEffect::Nothing));
}

#[test]
fn the_strip_toggle_scroll_bar_and_thumbnails() {
    let hit = PointerHit { thumbnail_control: Some(ThumbnailControl::Toggle), ..nothing_hit() };
    assert_eq!(
        pointer_step(state(), hit),
        (PointerState { thumbnail_visible: false, ..state() }, PointerEffect::ThumbnailLayoutChanged)
    );
    let hit = PointerHit { scrollbar: true, thumbnail: Some(1), in_thumbnail_panel: true, ..nothing_hit() };
    assert_eq!(pointer_step(state(), hit).1, PointerEffect::BeginThumbnailScroll);
    let hit = PointerHit { thumbnail: Some(1), in_thumbnail_panel: true, ..nothing_hit() };
    assert_eq!(pointer_step(state(), hit).1, PointerEffect::OpenThumbnail(1));
    let hit = PointerHit { in_thumbnail_panel: true, status_control: Some(StatusControl::Slider), ..nothing_hit() };
    assert_eq!(pointer_step(state(), hit).1, PointerEffect::Nothing);
}

#[test]
fn zoom_controls_and_title_buttons() {
    let cases = [
        (StatusControl::ActualSize, PointerEffect::ActualSize),
        (StatusControl::ZoomOut, PointerEffect::ZoomOut),
        (StatusControl::Slider, PointerEffect::BeginSlider),
        (StatusControl::ZoomIn, PointerEffect::ZoomIn),
        (StatusControl::Fullscreen, PointerEffect::ToggleFullscreen),
    ];
    for (control, effect) in cases {
        let hit = PointerHit { status_control: Some(control), ..nothing_hit() };
        assert_eq!(pointer_step(state(), hit), (state(), effect));
    }
    let hit = PointerHit { default_app_button: true, title_action_button: true, ..nothing_hit() };
    assert_eq!(pointer_step(state(), hit).1, PointerEffect::OpenDefaultAppSettings);
}

use purepic::chrome::{
    caption_button_from_hit, high_word_signed, low_word_signed, non_client_hit_test, scale_dip,
    CaptionButton, FrameMetrics, NonClientHit, PixelRect,
};

#[test]
fn scales_dip_to_physical_pixels() {
    assert_eq!(scale_dip(48, 96), 48);
    assert_eq!(scale_dip(48, 144), 72);
    assert_eq!(scale_dip(48, 192), 96);
}

#[test]
fn scaling_rounds_to_the_nearest_pixel() {
    assert_eq!(scale_dip(1, 120), 1);
    assert_eq!(scale_dip(46, 120), 58);
    assert_eq!(scale_dip(36, 168), 63);
}

#[test]
fn packed_coordinates_are_read_as_signed_words() {
    let packed: isize = (((-5i32 as u16 as u32) << 16) | (-20i32 as u16 as u32)) as isize;
    assert_eq!(low_word_signed(packed), -20);
    assert_eq!(high_word_signed(packed), -5);
    assert_eq!(low_word_signed(0x0064_00C8), 200);
    assert_eq!(high_word_signed(0x0064_00C8), 100);
}

fn pack(x: i32, y: i32) -> isize {
    (((y as u16 as u32) << 16) | (x as u16 as u32)) as isize
}

const WINDOW: PixelRect = PixelRect { left: 100, top: 50, right: 1100, bottom: 850 };
const FRAME: FrameMetrics = FrameMetrics { cx_frame: 4, cy_frame: 4, padded_border: 4 };

#[test]
fn restored_window_edges_resize() {
    assert_eq!(non_client_hit_test(WINDOW, pack(102, 52), 96, false, FRAME), NonClientHit::TopLeft);
    assert_eq!(non_client_hit_test(WINDOW, pack(1098, 848), 96, false, FRAME), NonClientHit::BottomRight);
    assert_eq!(non_client_hit_test(WINDOW, pack(102, 400), 96, false, FRAME), NonClientHit::Left);
    assert_eq!(non_client_hit_test(WINDOW, pack(600, 52), 96, false, FRAME), NonClientHit::Top);
}

#[test]
fn title_bar_holds_the_caption_buttons() {
    assert_eq!(non_client_hit_test(WINDOW, pack(1080, 70), 96, false, FRAME), NonClientHit::CloseButton);
    assert_eq!(non_client_hit_test(WINDOW, pack(1030, 70), 96, false, FRAME), NonClientHit::MaximizeButton);
    assert_eq!(non_client_hit_test(WINDOW, pack(980, 70), 96, false, FRAME), NonClientHit::MinimizeButton);
    assert_eq!(non_client_hit_test(WINDOW, pack(500, 70), 96, false, FRAME), NonClientHit::Caption);
    assert_eq!(non_client_hit_test(WINDOW, pack(500, 300), 96, false, FRAME), NonClientHit::Client);
}

#[test]
fn maximized_window_has_no_resize_border() {
    assert_eq!(non_client_hit_test(WINDOW, pack(102, 52), 96, true, FRAME), NonClientHit::Caption);
}

#[test]
fn caption_hits_map_to_their_buttons() {
    assert_eq!(caption_button_from_hit(NonClientHit::CloseButton), CaptionButton::Close);
    assert_eq!(caption_button_from_hit(NonClientHit::MinimizeButton), CaptionButton::Minimize);
    assert_eq!(caption_button_from_hit(NonClientHit::MaximizeButton), CaptionButton::Maximize);
    assert_eq!(caption_button_from_hit(NonClientHit::Caption), CaptionButton::NoButton);
}

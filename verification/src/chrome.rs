//! Window chrome: DPI scaling, packed pointer coordinates and the non-client hit test
//! that decides which part of the custom-drawn frame lies under the pointer.

use vstd::prelude::*;

verus! {

/// Height of the custom title bar, in device-independent pixels.
pub const TITLE_BAR_HEIGHT_DIP: i32 = 36;

/// Width of one caption button (minimize, maximize, close), in device-independent pixels.
pub const CAPTION_BUTTON_WIDTH_DIP: i32 = 46;

/// Integer division rounding toward zero, as Rust's `/` on integers does.
pub open spec fn div_toward_zero(a: int, b: int) -> int
    recommends
        b > 0,
{
    if a >= 0 {
        a / b
    } else {
        -((-a) / b)
    }
}

/// Physical pixels for `value` device-independent pixels at `dpi`, rounded to the
/// nearest pixel, then truncated to 32 bits.
pub open spec fn scaled_dip(value: int, dpi: int) -> i32 {
    div_toward_zero(value * dpi + 48, 96) as i32
}

/// Scales `value` device-independent pixels to physical pixels at `dpi`.
pub fn scale_dip(value: i32, dpi: u32) -> (r: i32)
    ensures
        r == scaled_dip(value as int, dpi as int),
{
    let v: i64 = value as i64;
    let d: i64 = dpi as i64;
    assert(-0x8000_0000 * 0xffff_ffff <= v * d <= 0x7fff_ffff * 0xffff_ffff) by (nonlinear_arith)
        requires
            -0x8000_0000 <= v <= 0x7fff_ffff,
            0 <= d <= 0xffff_ffff,
    ;
    let product: i64 = v * d + 48;
    let q: i64 = product / 96;
    #[verifier::truncate]
    (q as i32)
}

/// The 16-bit word `word` (0..65536) read as a two's-complement signed number.
pub open spec fn signed_word(word: int) -> int {
    if word >= 0x8000 {
        word - 0x1_0000
    } else {
        word
    }
}

/// The signed x coordinate packed into the low word of a message parameter.
pub open spec fn low_word_of(value: int) -> int {
    signed_word(value % 0x1_0000)
}

/// The signed y coordinate packed into the second 16-bit word of a message parameter.
pub open spec fn high_word_of(value: int) -> int {
    signed_word((value / 0x1_0000) % 0x1_0000)
}

/// Reads the low word of `value` as a signed 16-bit number.
pub fn low_word_signed(value: isize) -> (r: i32)
    ensures
        r == low_word_of(value as int),
{
    let low: u16 = #[verifier::truncate] (value as u16);
    assert(low as int == (value as int) % 0x1_0000) by (bit_vector)
        requires
            low == #[verifier::truncate] (value as u16),
    ;
    if low >= 0x8000 {
        low as i32 - 0x1_0000
    } else {
        low as i32
    }
}

/// Reads bits 16 to 31 of `value` as a signed 16-bit number.
pub fn high_word_signed(value: isize) -> (r: i32)
    ensures
        r == high_word_of(value as int),
{
    let shifted: isize = value >> 16;
    let high: u16 = #[verifier::truncate] (shifted as u16);
    assert(high as int == ((value as int) / 0x1_0000) % 0x1_0000) by (bit_vector)
        requires
            shifted == value >> 16,
            high == #[verifier::truncate] (shifted as u16),
    ;
    if high >= 0x8000 {
        high as i32 - 0x1_0000
    } else {
        high as i32
    }
}

/// A caption button of the custom title bar.
#[derive(Clone, Copy, Debug, PartialEq, Eq, Structural)]
pub enum CaptionButton {
    NoButton,
    Minimize,
    Maximize,
    Close,
}

/// The part of the window frame that a point falls on.
#[derive(Clone, Copy, Debug, PartialEq, Eq, Structural)]
pub enum NonClientHit {
    Client,
    Caption,
    MinimizeButton,
    MaximizeButton,
    CloseButton,
    Left,
    Right,
    Top,
    Bottom,
    TopLeft,
    TopRight,
    BottomLeft,
    BottomRight,
}

/// Maps a frame part to the caption button it stands for, if any.
pub fn caption_button_from_hit(hit: NonClientHit) -> (r: CaptionButton)
    ensures
        r == (match hit {
            NonClientHit::MinimizeButton => CaptionButton::Minimize,
            NonClientHit::MaximizeButton => CaptionButton::Maximize,
            NonClientHit::CloseButton => CaptionButton::Close,
            _ => CaptionButton::NoButton,
        }),
{
    match hit {
        NonClientHit::MinimizeButton => CaptionButton::Minimize,
        NonClientHit::MaximizeButton => CaptionButton::Maximize,
        NonClientHit::CloseButton => CaptionButton::Close,
        _ => CaptionButton::NoButton,
    }
}

/// A window rectangle in screen or client pixels.
#[derive(Clone, Copy, Debug, PartialEq, Eq, Structural)]
pub struct PixelRect {
    pub left: i32,
    pub top: i32,
    pub right: i32,
    pub bottom: i32,
}

/// The system's resize-frame metrics at the window's DPI.
#[derive(Clone, Copy, Debug, PartialEq, Eq, Structural)]
pub struct FrameMetrics {
    /// Horizontal sizing border.
    pub cx_frame: i32,
    /// Vertical sizing border.
    pub cy_frame: i32,
    /// Padding added around the sizing border.
    pub padded_border: i32,
}

/// The frame part under window-relative point (`x`, `y`) of a window `width` by `height`
/// pixels. A restored window has resize borders `frame_x` and `frame_y` thick; the title
/// bar and its caption buttons are `title_height` tall and `button_width` wide each.
pub open spec fn frame_hit(
    x: int,
    y: int,
    width: int,
    height: int,
    maximized: bool,
    frame_x: int,
    frame_y: int,
    title_height: int,
    button_width: int,
) -> NonClientHit {
    let left = 0 <= x < frame_x;
    let right = x < width && x >= width - frame_x;
    let top = 0 <= y < frame_y;
    let bottom = y < height && y >= height - frame_y;
    if !maximized && left && top {
        NonClientHit::TopLeft
    } else if !maximized && right && top {
        NonClientHit::TopRight
    } else if !maximized && left && bottom {
        NonClientHit::BottomLeft
    } else if !maximized && right && bottom {
        NonClientHit::BottomRight
    } else if !maximized && left {
        NonClientHit::Left
    } else if !maximized && right {
        NonClientHit::Right
    } else if !maximized && top {
        NonClientHit::Top
    } else if !maximized && bottom {
        NonClientHit::Bottom
    } else if y < 0 || y >= title_height {
        NonClientHit::Client
    } else if x >= width - button_width {
        NonClientHit::CloseButton
    } else if x >= width - 2 * button_width {
        NonClientHit::MaximizeButton
    } else if x >= width - 3 * button_width {
        NonClientHit::MinimizeButton
    } else {
        NonClientHit::Caption
    }
}

/// Whether frame part `r` fits the window-relative point (`x`, `y`) of a window `width`
/// by `height` pixels, with resize bands `frame_x` and `frame_y` thick (restored windows
/// only) and a title bar `title_height` tall with caption buttons `button_width` wide:
/// a resize edge or corner lies on the sides of the window whose bands hold the point; a
/// point in a band gets that band's edge, or its corner where two bands meet (the left and
/// top bands taking precedence where bands overlap); outside the bands, a point below or
/// above the title bar is client area, and a point on it is the close, maximize or minimize
/// button counting from the right edge, or else caption.
pub open spec fn hit_fits_the_point(
    r: NonClientHit,
    x: int,
    y: int,
    width: int,
    height: int,
    maximized: bool,
    frame_x: int,
    frame_y: int,
    title_height: int,
    button_width: int,
) -> bool {
    let restored = !maximized;
    let left = 0 <= x < frame_x;
    let right = width - frame_x <= x < width;
    let top = 0 <= y < frame_y;
    let bottom = height - frame_y <= y < height;
    let in_band = restored && (left || right || top || bottom);
    &&& (r == NonClientHit::Left || r == NonClientHit::TopLeft || r == NonClientHit::BottomLeft)
        ==> restored && left
    &&& (r == NonClientHit::Right || r == NonClientHit::TopRight || r == NonClientHit::BottomRight)
        ==> restored && right
    &&& (r == NonClientHit::Top || r == NonClientHit::TopLeft || r == NonClientHit::TopRight)
        ==> restored && top
    &&& (r == NonClientHit::Bottom || r == NonClientHit::BottomLeft || r
        == NonClientHit::BottomRight) ==> restored && bottom
    &&& restored && left && top ==> r == NonClientHit::TopLeft
    &&& restored && right && top && !left ==> r == NonClientHit::TopRight
    &&& restored && left && bottom && !top ==> r == NonClientHit::BottomLeft
    &&& restored && right && bottom && !left && !top ==> r == NonClientHit::BottomRight
    &&& restored && left && !top && !bottom ==> r == NonClientHit::Left
    &&& restored && right && !left && !top && !bottom ==> r == NonClientHit::Right
    &&& restored && top && !left && !right ==> r == NonClientHit::Top
    &&& restored && bottom && !left && !right && !top ==> r == NonClientHit::Bottom
    &&& !in_band && (y < 0 || y >= title_height) ==> r == NonClientHit::Client
    &&& !in_band && 0 <= y < title_height ==> {
        ||| r == NonClientHit::CloseButton && width - button_width <= x
        ||| r == NonClientHit::MaximizeButton && width - 2 * button_width <= x < width
            - button_width
        ||| r == NonClientHit::MinimizeButton && width - 3 * button_width <= x < width - 2
            * button_width
        ||| r == NonClientHit::Caption && x < width - 3 * button_width
    }
}

/// The frame hit test answers, for every point, the frame part that lies there: resize
/// edges and corners on the sides of a restored window whose bands hold the point, the
/// caption buttons from the right end of the title bar, caption on the rest of the title
/// bar and client area elsewhere.
pub proof fn frame_hit_fits_the_point(
    x: int,
    y: int,
    width: int,
    height: int,
    maximized: bool,
    frame_x: int,
    frame_y: int,
    title_height: int,
    button_width: int,
)
    ensures
        hit_fits_the_point(
            frame_hit(x, y, width, height, maximized, frame_x, frame_y, title_height, button_width),
            x,
            y,
            width,
            height,
            maximized,
            frame_x,
            frame_y,
            title_height,
            button_width,
        ),
{
}

/// Every intermediate of the hit test fits in 32 bits.
pub open spec fn hit_test_in_range(window: PixelRect, lparam: int, dpi: int, frame: FrameMetrics) -> bool {
    let d = if dpi < 1 { 1 } else { dpi };
    let x = low_word_of(lparam) - window.left;
    let y = high_word_of(lparam) - window.top;
    let width = window.right - window.left;
    let height = window.bottom - window.top;
    let frame_x = frame.cx_frame + frame.padded_border;
    let frame_y = frame.cy_frame + frame.padded_border;
    let bw = scaled_dip(CAPTION_BUTTON_WIDTH_DIP as int, d) as int;
    &&& i32::MIN <= x <= i32::MAX
    &&& i32::MIN <= y <= i32::MAX
    &&& i32::MIN <= width <= i32::MAX
    &&& i32::MIN <= height <= i32::MAX
    &&& i32::MIN <= frame_x <= i32::MAX
    &&& i32::MIN <= frame_y <= i32::MAX
    &&& i32::MIN <= width - frame_x <= i32::MAX
    &&& i32::MIN <= height - frame_y <= i32::MAX
    &&& i32::MIN <= 3 * bw <= i32::MAX
    &&& i32::MIN <= width - 3 * bw <= i32::MAX
    &&& i32::MIN <= width - 2 * bw <= i32::MAX
    &&& i32::MIN <= width - bw <= i32::MAX
}

/// Decides which frame part of `window` lies under the screen point packed in `lparam`.
/// `dpi` is the window's DPI (0 counts as 1) and `frame` the system resize metrics.
pub fn non_client_hit_test(
    window: PixelRect,
    lparam: isize,
    dpi: u32,
    maximized: bool,
    frame: FrameMetrics,
) -> (r: NonClientHit)
    requires
        hit_test_in_range(window, lparam as int, dpi as int, frame),
    ensures
        ({
            let d = if dpi < 1 { 1 } else { dpi as int };
            r == frame_hit(
                low_word_of(lparam as int) - window.left,
                high_word_of(lparam as int) - window.top,
                window.right - window.left,
                window.bottom - window.top,
                maximized,
                frame.cx_frame + frame.padded_border,
                frame.cy_frame + frame.padded_border,
                scaled_dip(TITLE_BAR_HEIGHT_DIP as int, d) as int,
                scaled_dip(CAPTION_BUTTON_WIDTH_DIP as int, d) as int,
            )
        }),
        ({
            let d = if dpi < 1 { 1 } else { dpi as int };
            hit_fits_the_point(
                r,
                low_word_of(lparam as int) - window.left,
                high_word_of(lparam as int) - window.top,
                window.right - window.left,
                window.bottom - window.top,
                maximized,
                frame.cx_frame + frame.padded_border,
                frame.cy_frame + frame.padded_border,
                scaled_dip(TITLE_BAR_HEIGHT_DIP as int, d) as int,
                scaled_dip(CAPTION_BUTTON_WIDTH_DIP as int, d) as int,
            )
        }),
{
    let screen_x = low_word_signed(lparam);
    let screen_y = high_word_signed(lparam);
    let x = screen_x - window.left;
    let y = screen_y - window.top;
    let width = window.right - window.left;
    let height = window.bottom - window.top;
    let dpi = if dpi < 1 { 1 } else { dpi };

    if !maximized {
        let frame_x = frame.cx_frame + frame.padded_border;
        let frame_y = frame.cy_frame + frame.padded_border;
        let left = x >= 0 && x < frame_x;
        let right = x < width && x >= width - frame_x;
        let top = y >= 0 && y < frame_y;
        let bottom = y < height && y >= height - frame_y;
        if left && top {
            return NonClientHit::TopLeft;
        } else if right && top {
            return NonClientHit::TopRight;
        } else if left && bottom {
            return NonClientHit::BottomLeft;
        } else if right && bottom {
            return NonClientHit::BottomRight;
        } else if left {
            return NonClientHit::Left;
        } else if right {
            return NonClientHit::Right;
        } else if top {
            return NonClientHit::Top;
        } else if bottom {
            return NonClientHit::Bottom;
        }
    }
    let title_height = scale_dip(TITLE_BAR_HEIGHT_DIP, dpi);
    if y < 0 || y >= title_height {
        return NonClientHit::Client;
    }
    let button_width = scale_dip(CAPTION_BUTTON_WIDTH_DIP, dpi);
    if x >= width - button_width {
        NonClientHit::CloseButton
    } else if x >= width - button_width * 2 {
        NonClientHit::MaximizeButton
    } else if x >= width - button_width * 3 {
        NonClientHit::MinimizeButton
    } else {
        NonClientHit::Caption
    }
}

} // verus!

//! Window sizing rules and the decoding of window messages into commands.

use vstd::prelude::*;
use crate::chrome::{high_word_of, low_word_of, NonClientHit, PixelRect};

verus! {

/// Smallest width the window can be resized to, in pixels.
pub const MINIMUM_WIDTH: i32 = 890;
/// Smallest height the window can be resized to, in pixels.
pub const MINIMUM_HEIGHT: i32 = 890;
/// Width of a window that has no saved size.
pub const INITIAL_WIDTH: i32 = 1920;
/// Height of a window that has no saved size.
pub const INITIAL_HEIGHT: i32 = 1080;

/// The window size and state remembered between runs.
#[derive(Clone, Copy, Debug, PartialEq, Eq, Structural)]
pub struct SavedWindowState {
    pub width: u32,
    pub height: u32,
    pub maximized: bool,
}

/// A point in pixels.
#[derive(Clone, Copy, Debug, PartialEq, Eq, Structural)]
pub struct PixelPoint {
    pub x: i32,
    pub y: i32,
}

/// The size limits the system asks a window for while it is moved, sized or maximized.
#[derive(Clone, Copy, Debug, PartialEq, Eq, Structural)]
pub struct WindowBounds {
    pub max_size: PixelPoint,
    pub max_position: PixelPoint,
    pub min_track_size: PixelPoint,
    pub max_track_size: PixelPoint,
}

impl Default for WindowBounds {
    /// All limits zero.
    fn default() -> (r: Self)
        ensures
            r == (WindowBounds {
                max_size: PixelPoint { x: 0, y: 0 },
                max_position: PixelPoint { x: 0, y: 0 },
                min_track_size: PixelPoint { x: 0, y: 0 },
                max_track_size: PixelPoint { x: 0, y: 0 },
            }),
    {
        WindowBounds {
            max_size: PixelPoint { x: 0, y: 0 },
            max_position: PixelPoint { x: 0, y: 0 },
            min_track_size: PixelPoint { x: 0, y: 0 },
            max_track_size: PixelPoint { x: 0, y: 0 },
        }
    }
}

/// Keeps the user from sizing the window below the minimum size.
pub fn enforce_minimum_window_size(bounds: &mut WindowBounds)
    ensures
        *final(bounds) == (WindowBounds {
            min_track_size: PixelPoint { x: MINIMUM_WIDTH, y: MINIMUM_HEIGHT },
            ..*old(bounds)
        }),
{
    bounds.min_track_size.x = MINIMUM_WIDTH;
    bounds.min_track_size.y = MINIMUM_HEIGHT;
}

/// Makes a maximized window fill the work area of its monitor (the monitor minus the
/// taskbar), positioned relative to the monitor.
pub fn apply_maximized_work_area(bounds: &mut WindowBounds, monitor: PixelRect, work_area: PixelRect)
    requires
        i32::MIN <= work_area.left - monitor.left <= i32::MAX,
        i32::MIN <= work_area.top - monitor.top <= i32::MAX,
        i32::MIN <= work_area.right - work_area.left <= i32::MAX,
        i32::MIN <= work_area.bottom - work_area.top <= i32::MAX,
    ensures
        *final(bounds) == (WindowBounds {
            max_position: PixelPoint {
                x: (work_area.left - monitor.left) as i32,
                y: (work_area.top - monitor.top) as i32,
            },
            max_size: PixelPoint {
                x: (work_area.right - work_area.left) as i32,
                y: (work_area.bottom - work_area.top) as i32,
            },
            ..*old(bounds)
        }),
{
    bounds.max_position.x = work_area.left - monitor.left;
    bounds.max_position.y = work_area.top - monitor.top;
    bounds.max_size.x = work_area.right - work_area.left;
    bounds.max_size.y = work_area.bottom - work_area.top;
}

/// Shrinks `rect` by `frame_x` on the left and right and `frame_y` at the top and bottom.
pub fn inset_client_rect(rect: &mut PixelRect, frame_x: i32, frame_y: i32)
    requires
        i32::MIN <= old(rect).left + frame_x <= i32::MAX,
        i32::MIN <= old(rect).top + frame_y <= i32::MAX,
        i32::MIN <= old(rect).right - frame_x <= i32::MAX,
        i32::MIN <= old(rect).bottom - frame_y <= i32::MAX,
    ensures
        *final(rect) == (PixelRect {
            left: (old(rect).left + frame_x) as i32,
            top: (old(rect).top + frame_y) as i32,
            right: (old(rect).right - frame_x) as i32,
            bottom: (old(rect).bottom - frame_y) as i32,
        }),
{
    rect.left = rect.left + frame_x;
    rect.top = rect.top + frame_y;
    rect.right = rect.right - frame_x;
    rect.bottom = rect.bottom - frame_y;
}

/// The larger of two integers.
pub open spec fn max_int(a: int, b: int) -> int {
    if a >= b {
        a
    } else {
        b
    }
}

/// The state to remember for a window whose restored position is `normal_position`:
/// its restored size (never below the minimum) and whether it is maximized.
pub fn saved_window_state_from_placement(normal_position: PixelRect, maximized: bool) -> (r: SavedWindowState)
    requires
        i32::MIN <= normal_position.right - normal_position.left <= i32::MAX,
        i32::MIN <= normal_position.bottom - normal_position.top <= i32::MAX,
    ensures
        r.width as int == max_int(normal_position.right - normal_position.left, MINIMUM_WIDTH as int),
        r.height as int == max_int(normal_position.bottom - normal_position.top, MINIMUM_HEIGHT as int),
        r.maximized == maximized,
{
    let width = normal_position.right - normal_position.left;
    let height = normal_position.bottom - normal_position.top;
    let width = if width >= MINIMUM_WIDTH {
        width
    } else {
        MINIMUM_WIDTH
    };
    let height = if height >= MINIMUM_HEIGHT {
        height
    } else {
        MINIMUM_HEIGHT
    };
    SavedWindowState { width: width as u32, height: height as u32, maximized }
}

/// `value` limited to `low..=high`.
pub open spec fn clamp_int(value: int, low: int, high: int) -> int {
    if value < low {
        low
    } else if value > high {
        high
    } else {
        value
    }
}

/// The size to create the window at: the remembered size limited to the minimum size and
/// to 65535 pixels, or the initial size when nothing was remembered.
pub fn initial_window_size(saved: Option<SavedWindowState>) -> (r: (i32, i32))
    ensures
        r == (match saved {
            Some(state) => (
                clamp_int(state.width as int, MINIMUM_WIDTH as int, 0xffff) as i32,
                clamp_int(state.height as int, MINIMUM_HEIGHT as int, 0xffff) as i32,
            ),
            None => (INITIAL_WIDTH, INITIAL_HEIGHT),
        }),
{
    match saved {
        Some(state) => {
            let width: u32 = if state.width < 890 {
                890
            } else if state.width > 0xffff {
                0xffff
            } else {
                state.width
            };
            let height: u32 = if state.height < 890 {
                890
            } else if state.height > 0xffff {
                0xffff
            } else {
                state.height
            };
            (width as i32, height as i32)
        },
        None => (INITIAL_WIDTH, INITIAL_HEIGHT),
    }
}

/// The signed x coordinate in the low word of a mouse message parameter.
pub fn signed_low_word(value: isize) -> (r: i32)
    ensures
        r == low_word_of(value as int),
{
    let low: u16 = #[verifier::truncate] (value as u16);
    assert(low as int == (value as int) % 0x1_0000) by (bit_vector)
        requires
            low == #[verifier::truncate] (value as u16),
    ;
    let signed: i16 = #[verifier::truncate] (low as i16);
    assert(signed as int == if low >= 0x8000 { low - 0x1_0000 } else { low as int }) by (bit_vector)
        requires
            signed == #[verifier::truncate] (low as i16),
    ;
    signed as i32
}

/// The signed y coordinate in the second word of a mouse message parameter.
pub fn signed_high_word(value: isize) -> (r: i32)
    ensures
        r == high_word_of(value as int),
{
    let word: u32 = #[verifier::truncate] (value as u32);
    let shifted: u32 = word >> 16;
    let high: u16 = #[verifier::truncate] (shifted as u16);
    assert(high as int == ((value as int) / 0x1_0000) % 0x1_0000) by (bit_vector)
        requires
            word == #[verifier::truncate] (value as u32),
            shifted == word >> 16,
            high == #[verifier::truncate] (shifted as u16),
    ;
    let signed: i16 = #[verifier::truncate] (high as i16);
    assert(signed as int == if high >= 0x8000 { high - 0x1_0000 } else { high as int }) by (bit_vector)
        requires
            signed == #[verifier::truncate] (high as i16),
    ;
    signed as i32
}

/// The client width and height packed in a resize message parameter.
pub fn client_size_from_lparam(lparam: isize) -> (r: (u32, u32))
    ensures
        r.0 as int == (lparam as int) % 0x1_0000,
        r.1 as int == ((lparam as int) / 0x1_0000) % 0x1_0000,
{
    let packed: u32 = #[verifier::truncate] (lparam as u32);
    let width = packed & 0xFFFF;
    let height = (packed >> 16) & 0xFFFF;
    assert(width as int == (lparam as int) % 0x1_0000 && height as int == ((lparam as int) / 0x1_0000) % 0x1_0000)
        by (bit_vector)
        requires
            packed == #[verifier::truncate] (lparam as u32),
            width == packed & 0xFFFF,
            height == (packed >> 16) & 0xFFFF,
    ;
    (width, height)
}

/// A window command that a caption button asks for.
#[derive(Clone, Copy, Debug, PartialEq, Eq, Structural)]
pub enum SystemCommand {
    Minimize,
    Maximize,
    Restore,
    Close,
}

/// The command for a press on frame part `hit`: the caption buttons minimize, maximize
/// (restore when already maximized) and close; other parts are left to the system.
pub fn caption_command(hit: NonClientHit, maximized: bool) -> (r: Option<SystemCommand>)
    ensures
        r == (match hit {
            NonClientHit::MinimizeButton => Some(SystemCommand::Minimize),
            NonClientHit::MaximizeButton => if maximized {
                Some(SystemCommand::Restore)
            } else {
                Some(SystemCommand::Maximize)
            },
            NonClientHit::CloseButton => Some(SystemCommand::Close),
            _ => None,
        }),
{
    match hit {
        NonClientHit::MinimizeButton => Some(SystemCommand::Minimize),
        NonClientHit::MaximizeButton => if maximized {
            Some(SystemCommand::Restore)
        } else {
            Some(SystemCommand::Maximize)
        },
        NonClientHit::CloseButton => Some(SystemCommand::Close),
        _ => None,
    }
}

/// Virtual-key code of the left arrow key.
pub const VK_LEFT: u32 = 0x25;
/// Virtual-key code of the right arrow key.
pub const VK_RIGHT: u32 = 0x27;
/// Virtual-key code of the Delete key.
pub const VK_DELETE: u32 = 0x2E;
/// Virtual-key code of F11.
pub const VK_F11: u32 = 0x7A;
/// Virtual-key code of Escape.
pub const VK_ESCAPE: u32 = 0x1B;

/// What a key press asks the viewer to do.
#[derive(Clone, Copy, Debug, PartialEq, Eq, Structural)]
pub enum KeyCommand {
    /// Open the image before the selected one.
    PreviousImage,
    /// Open the image after the selected one.
    NextImage,
    /// Move the shown image to the recycle bin.
    DeleteImage,
    /// Enter (`true`) or leave (`false`) full screen.
    SetFullscreen(bool),
    /// Close open menus.
    CloseMenus,
    /// Nothing.
    Ignore,
}

/// The command for key `virtual_key` while the window is (or is not) in full screen:
/// arrows move between images, Delete recycles the image, F11 toggles full screen, and
/// Escape leaves full screen or else closes menus.
pub fn key_command(virtual_key: u32, fullscreen: bool) -> (r: KeyCommand)
    ensures
        r == (if virtual_key == VK_LEFT {
            KeyCommand::PreviousImage
        } else if virtual_key == VK_RIGHT {
            KeyCommand::NextImage
        } else if virtual_key == VK_DELETE {
            KeyCommand::DeleteImage
        } else if virtual_key == VK_F11 {
            KeyCommand::SetFullscreen(!fullscreen)
        } else if virtual_key == VK_ESCAPE && fullscreen {
            KeyCommand::SetFullscreen(false)
        } else if virtual_key == VK_ESCAPE {
            KeyCommand::CloseMenus
        } else {
            KeyCommand::Ignore
        }),
{
    if virtual_key == VK_LEFT {
        KeyCommand::PreviousImage
    } else if virtual_key == VK_RIGHT {
        KeyCommand::NextImage
    } else if virtual_key == VK_DELETE {
        KeyCommand::DeleteImage
    } else if virtual_key == VK_F11 {
        KeyCommand::SetFullscreen(!fullscreen)
    } else if virtual_key == VK_ESCAPE && fullscreen {
        KeyCommand::SetFullscreen(false)
    } else if virtual_key == VK_ESCAPE {
        KeyCommand::CloseMenus
    } else {
        KeyCommand::Ignore
    }
}

} // verus!

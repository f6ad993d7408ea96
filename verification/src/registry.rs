//! What the viewer keeps in the registry: the window state as three DWORD values, and the
//! Explorer context-menu entry that opens an image with the viewer. The registry calls are
//! made by the application; this module computes what is written and reads what comes back.

use vstd::prelude::*;
use vstd::string::StringExecFns;
use crate::thumbnail::ThumbnailDock;
use crate::window::SavedWindowState;

verus! {

/// Registry value type of a 32-bit number stored least significant byte first.
pub const REG_DWORD: u32 = 4;

/// The number stored in the four bytes of a DWORD value.
pub open spec fn dword_value(bytes: Seq<u8>) -> int {
    bytes[0] + 256 * bytes[1] + 65536 * bytes[2] + 16777216 * bytes[3]
}

/// The four bytes that store `value` as a DWORD, least significant first.
pub open spec fn dword_bytes_of(value: u32) -> Seq<u8> {
    seq![
        (value % 256) as u8,
        (value / 256 % 256) as u8,
        (value / 65536 % 256) as u8,
        (value / 16777216) as u8,
    ]
}

/// The value of a registry query for a DWORD: `Some` exactly when the query succeeded
/// (`status` 0) and found a DWORD of four bytes.
pub fn dword_from_query(status: u32, kind: u32, length: u32, bytes: [u8; 4]) -> (r: Option<u32>)
    ensures
        r is Some <==> (status == 0 && kind == REG_DWORD && length == 4),
        r matches Some(value) ==> value == dword_value(bytes@),
{
    if status == 0 && kind == REG_DWORD && length == 4 {
        let value: u32 = bytes[0] as u32 + bytes[1] as u32 * 256 + bytes[2] as u32 * 65536
            + bytes[3] as u32 * 16777216;
        Some(value)
    } else {
        None
    }
}

/// The bytes written for a DWORD value.
pub fn dword_bytes(value: u32) -> (r: [u8; 4])
    ensures
        r@ == dword_bytes_of(value),
{
    let low: u8 = (value % 256) as u8;
    let second: u8 = (value / 256 % 256) as u8;
    let third: u8 = (value / 65536 % 256) as u8;
    let high: u8 = (value / 16777216) as u8;
    let r = [low, second, third, high];
    assert(r@ =~= dword_bytes_of(value));
    r
}

/// Reading back the bytes written for a DWORD gives the number that was written.
pub proof fn dword_round_trip(value: u32)
    ensures
        dword_value(dword_bytes_of(value)) == value,
{
    let v = value as int;
    assert(v == v % 256 + 256 * (v / 256 % 256) + 65536 * (v / 65536 % 256) + 16777216 * (v
        / 16777216)) by (nonlinear_arith)
        requires
            0 <= v < 0x1_0000_0000,
    {
        assert(v == 256 * (v / 256) + v % 256);
        assert(v / 256 == 256 * (v / 256 / 256) + v / 256 % 256);
        assert(v / 256 / 256 == v / 65536);
        assert(v / 65536 == 256 * (v / 65536 / 256) + v / 65536 % 256);
        assert(v / 65536 / 256 == v / 16777216);
    }
}

/// The three values that store a window state: width, height, and 1 or 0 for maximized.
pub open spec fn state_values(state: SavedWindowState) -> (u32, u32, u32) {
    (state.width, state.height, if state.maximized { 1u32 } else { 0u32 })
}

/// The window state read from its three values, if all three were found; any value other
/// than 0 means maximized.
pub open spec fn state_from_values(width: Option<u32>, height: Option<u32>, maximized: Option<u32>) -> Option<SavedWindowState> {
    match (width, height, maximized) {
        (Some(width), Some(height), Some(maximized)) => Some(
            SavedWindowState { width, height, maximized: maximized != 0 },
        ),
        _ => None,
    }
}

/// The values written for `state`.
pub fn window_state_values(state: SavedWindowState) -> (r: (u32, u32, u32))
    ensures
        r == state_values(state),
{
    (state.width, state.height, if state.maximized { 1 } else { 0 })
}

/// The window state read back from its values; `None` when any of them is missing.
pub fn window_state_from_values(width: Option<u32>, height: Option<u32>, maximized: Option<u32>) -> (r: Option<SavedWindowState>)
    ensures
        r == state_from_values(width, height, maximized),
{
    match (width, height, maximized) {
        (Some(width), Some(height), Some(maximized)) => Some(
            SavedWindowState { width, height, maximized: maximized != 0 },
        ),
        _ => None,
    }
}

/// Reading back the values written for a window state gives that state.
pub proof fn window_state_round_trip(state: SavedWindowState)
    ensures
        state_from_values(
            Some(state_values(state).0),
            Some(state_values(state).1),
            Some(state_values(state).2),
        ) == Some(state),
{
}

/// Whether the thumbnail strip is shown, and the edge it is docked to.
#[derive(Clone, Copy, Debug, PartialEq, Eq, Structural)]
pub struct ThumbnailPreferences {
    pub visible: bool,
    pub dock: ThumbnailDock,
}

/// The number that stores a dock edge.
pub open spec fn dock_number(dock: ThumbnailDock) -> u32 {
    match dock {
        ThumbnailDock::Top => 0,
        ThumbnailDock::Bottom => 1,
        ThumbnailDock::Left => 2,
        ThumbnailDock::Right => 3,
    }
}

/// The dock edge stored as `value`, if it stands for one.
pub open spec fn dock_of_number(value: u32) -> Option<ThumbnailDock> {
    if value == 0 {
        Some(ThumbnailDock::Top)
    } else if value == 1 {
        Some(ThumbnailDock::Bottom)
    } else if value == 2 {
        Some(ThumbnailDock::Left)
    } else if value == 3 {
        Some(ThumbnailDock::Right)
    } else {
        None
    }
}

/// The preferences read from their two values: the strip is shown when its value is
/// present and not 0; the dock falls back to the bottom edge when its value is missing or
/// stands for no edge.
pub open spec fn preferences_from(visible: Option<u32>, dock: Option<u32>) -> ThumbnailPreferences {
    ThumbnailPreferences {
        visible: match visible {
            Some(value) => value != 0,
            None => false,
        },
        dock: match dock {
            Some(value) => match dock_of_number(value) {
                Some(edge) => edge,
                None => ThumbnailDock::Bottom,
            },
            None => ThumbnailDock::Bottom,
        },
    }
}

/// The two values written for thumbnail preferences: 1 or 0 for shown, and the dock edge.
pub fn preference_values(preferences: ThumbnailPreferences) -> (r: (u32, u32))
    ensures
        r == (if preferences.visible { 1u32 } else { 0u32 }, dock_number(preferences.dock)),
{
    let dock: u32 = match preferences.dock {
        ThumbnailDock::Top => 0,
        ThumbnailDock::Bottom => 1,
        ThumbnailDock::Left => 2,
        ThumbnailDock::Right => 3,
    };
    (if preferences.visible { 1 } else { 0 }, dock)
}

/// The thumbnail preferences read back from their values.
pub fn preferences_from_values(visible: Option<u32>, dock: Option<u32>) -> (r: ThumbnailPreferences)
    ensures
        r == preferences_from(visible, dock),
{
    let shown = match visible {
        Some(value) => value != 0,
        None => false,
    };
    let edge = match dock {
        Some(0) => ThumbnailDock::Top,
        Some(2) => ThumbnailDock::Left,
        Some(3) => ThumbnailDock::Right,
        _ => ThumbnailDock::Bottom,
    };
    ThumbnailPreferences { visible: shown, dock: edge }
}

/// Reading back the values written for thumbnail preferences gives those preferences.
pub proof fn preferences_round_trip(preferences: ThumbnailPreferences)
    ensures
        preferences_from(
            Some(if preferences.visible { 1u32 } else { 0u32 }),
            Some(dock_number(preferences.dock)),
        ) == preferences,
{
}

/// `text` between double quotes.
pub open spec fn quoted(text: Seq<char>) -> Seq<char> {
    seq!['"'] + text + seq!['"']
}

/// The command Explorer runs to open an image with `executable`: the quoted program
/// followed by the quoted placeholder for the file.
pub open spec fn open_command(executable: Seq<char>) -> Seq<char> {
    quoted(executable) + seq![' '] + quoted(seq!['%', '1'])
}

/// The icon of the context-menu entry: the first icon of `executable`.
pub open spec fn icon_location(executable: Seq<char>) -> Seq<char> {
    quoted(executable) + seq![',', '0']
}

/// The command that the context-menu entry runs for `executable`.
pub fn context_menu_command(executable: &str) -> (r: String)
    ensures
        r@ == open_command(executable@),
{
    let mut r = String::from_str("\"");
    r.append(executable);
    r.append("\" \"%1\"");
    proof {
        reveal_strlit("\"");
        reveal_strlit("\" \"%1\"");
        assert(r@ =~= open_command(executable@));
    }
    r
}

/// The icon location of the context-menu entry for `executable`.
pub fn context_menu_icon(executable: &str) -> (r: String)
    ensures
        r@ == icon_location(executable@),
{
    let mut r = String::from_str("\"");
    r.append(executable);
    r.append("\",0");
    proof {
        reveal_strlit("\"");
        reveal_strlit("\",0");
        assert(r@ =~= icon_location(executable@));
    }
    r
}

/// The UTF-16 code units of one character: itself below 0x10000, otherwise a surrogate pair.
pub open spec fn utf16_units(c: char) -> Seq<u16> {
    let v = c as int;
    if v < 0x10000 {
        seq![v as u16]
    } else {
        seq![(0xD800 + (v - 0x10000) / 0x400) as u16, (0xDC00 + (v - 0x10000) % 0x400) as u16]
    }
}

/// The UTF-16 encoding of a text.
pub open spec fn utf16(text: Seq<char>) -> Seq<u16>
    decreases text.len(),
{
    if text.len() == 0 {
        Seq::empty()
    } else {
        utf16(text.drop_last()) + utf16_units(text.last())
    }
}

/// The bytes of UTF-16 code units, each least significant byte first.
pub open spec fn unit_bytes(units: Seq<u16>) -> Seq<u8>
    decreases units.len(),
{
    if units.len() == 0 {
        Seq::empty()
    } else {
        unit_bytes(units.drop_last()) + seq![
            (units.last() % 256) as u8,
            (units.last() / 256) as u8,
        ]
    }
}

/// `value` as a zero-terminated UTF-16 string, the form the registry functions take names in.
pub fn wide(value: &str) -> (r: Vec<u16>)
    ensures
        r@ == utf16(value@).push(0),
{
    let length = value.unicode_len();
    let mut r: Vec<u16> = Vec::new();
    let mut i: usize = 0;
    while i < length
        invariant
            length == value@.len(),
            i <= length,
            r@ == utf16(value@.take(i as int)),
        decreases length - i,
    {
        let c = value.get_char(i);
        let code: u32 = c as u32;
        if code < 0x10000 {
            r.push(code as u16);
        } else {
            let offset: u32 = code - 0x10000;
            r.push((0xD800 + offset / 0x400) as u16);
            r.push((0xDC00 + offset % 0x400) as u16);
        }
        proof {
            let next = value@.take(i + 1);
            assert(next.drop_last() =~= value@.take(i as int));
            assert(next.last() == c);
            assert(r@ =~= utf16(next));
        }
        i = i + 1;
    }
    assert(value@.take(length as int) =~= value@);
    r.push(0);
    r
}

/// The bytes written for a text value: its zero-terminated UTF-16 encoding, each unit
/// least significant byte first.
pub fn string_value_bytes(value: &str) -> (r: Vec<u8>)
    ensures
        r@ == unit_bytes(utf16(value@).push(0)),
{
    let units = wide(value);
    let mut r: Vec<u8> = Vec::new();
    let mut i: usize = 0;
    while i < units.len()
        invariant
            i <= units@.len(),
            units@ == utf16(value@).push(0),
            r@ == unit_bytes(units@.take(i as int)),
        decreases units@.len() - i,
    {
        let unit = units[i];
        r.push((unit % 256) as u8);
        r.push((unit / 256) as u8);
        proof {
            let next = units@.take(i + 1);
            assert(next.drop_last() =~= units@.take(i as int));
            assert(next.last() == unit);
            assert(r@ =~= unit_bytes(next));
        }
        i = i + 1;
    }
    assert(units@.take(units@.len() as int) =~= units@);
    r
}

} // verus!

//! The thumbnail strip: which files it shows, how they are ordered, and in which order
//! their previews are loaded.

use std::cmp::Ordering;
use vstd::prelude::*;
use crate::natural::{compare_file_names, file_name_order, order_of};
use crate::text::{
    final_part, has_portable_extension, has_portable_name, is_bare_name, last_dot, path_extension,
    path_file_name,
};

verus! {

/// Size of the decoded-thumbnail cache, in bytes.
pub const THUMBNAIL_CACHE_BUDGET_BYTES: usize = 32 * 1024 * 1024;

/// Most thumbnail decodes that may wait in the loader's queue.
pub const THUMBNAIL_QUEUE_CAPACITY: usize = 24;

/// The edge of the window that the thumbnail strip is docked to.
#[derive(Clone, Copy, Debug, PartialEq, Eq, Structural)]
pub enum ThumbnailDock {
    Top,
    Bottom,
    Left,
    Right,
}

impl ThumbnailDock {
    /// Whether the strip runs along the top or bottom edge.
    pub fn is_horizontal(self) -> (r: bool)
        ensures
            r == (self == ThumbnailDock::Top || self == ThumbnailDock::Bottom),
    {
        match self {
            ThumbnailDock::Top | ThumbnailDock::Bottom => true,
            ThumbnailDock::Left | ThumbnailDock::Right => false,
        }
    }
}

impl Default for ThumbnailDock {
    /// The strip starts out along the bottom edge.
    fn default() -> (r: Self)
        ensures
            r == ThumbnailDock::Bottom,
    {
        ThumbnailDock::Bottom
    }
}

/// ASCII lowercase of one character; other characters are unchanged.
pub open spec fn ascii_lower(c: char) -> char {
    if 'A' <= c <= 'Z' {
        ((c as u32) + 32) as char
    } else {
        c
    }
}

/// ASCII lowercase of a text.
pub open spec fn ascii_lower_text(text: Seq<char>) -> Seq<char> {
    Seq::new(text.len(), |i: int| ascii_lower(text[i]))
}

/// The image file extensions the viewer opens, in lowercase.
pub open spec fn supported_extensions() -> Seq<Seq<char>> {
    seq![
        seq!['j', 'p', 'g'],
        seq!['j', 'p', 'e', 'g'],
        seq!['p', 'n', 'g'],
        seq!['b', 'm', 'p'],
        seq!['g', 'i', 'f'],
        seq!['t', 'i', 'f'],
        seq!['t', 'i', 'f', 'f'],
        seq!['w', 'e', 'b', 'p'],
    ]
}

/// Whether `extension`, ignoring ASCII case, is one the viewer opens.
pub open spec fn is_supported_extension_text(extension: Seq<char>) -> bool {
    supported_extensions().contains(ascii_lower_text(extension))
}

fn ascii_lower_char(c: char) -> (r: char)
    ensures
        r == ascii_lower(c),
{
    if 'A' <= c && c <= 'Z' {
        let code: u32 = c as u32 + 32;
        let lowered: u8 = code as u8;
        lowered as char
    } else {
        c
    }
}

fn chars_equal(a: &Vec<char>, b: &Vec<char>) -> (r: bool)
    ensures
        r == (a@ == b@),
{
    if a.len() != b.len() {
        return false;
    }
    let mut i: usize = 0;
    while i < a.len()
        invariant
            i <= a@.len() == b@.len(),
            forall|j: int| 0 <= j < i ==> a@[j] == b@[j],
        decreases a@.len() - i,
    {
        if a[i] != b[i] {
            return false;
        }
        i = i + 1;
    }
    assert(a@ =~= b@);
    true
}

/// Whether `text` names one of the image formats the viewer decodes: JPEG (`jpg` or
/// `jpeg`), PNG, BMP, GIF, TIFF (`tif` or `tiff`) or WebP, written in lowercase.
pub open spec fn names_image_format(text: Seq<char>) -> bool {
    ||| text == seq!['j', 'p', 'g']
    ||| text == seq!['j', 'p', 'e', 'g']
    ||| text == seq!['p', 'n', 'g']
    ||| text == seq!['b', 'm', 'p']
    ||| text == seq!['g', 'i', 'f']
    ||| text == seq!['t', 'i', 'f']
    ||| text == seq!['t', 'i', 'f', 'f']
    ||| text == seq!['w', 'e', 'b', 'p']
}

/// An extension is supported exactly when, in ASCII lowercase, it names one of the image
/// formats the viewer decodes (JPEG, PNG, BMP, GIF, TIFF, WebP), whatever its case.
pub proof fn supported_extensions_are_the_image_formats(extension: Seq<char>)
    ensures
        is_supported_extension_text(extension) <==> names_image_format(ascii_lower_text(extension)),
{
    let lower = ascii_lower_text(extension);
    let list = supported_extensions();
    if names_image_format(lower) {
        if lower == seq!['j', 'p', 'g'] {
            assert(list[0] == lower);
        } else if lower == seq!['j', 'p', 'e', 'g'] {
            assert(list[1] == lower);
        } else if lower == seq!['p', 'n', 'g'] {
            assert(list[2] == lower);
        } else if lower == seq!['b', 'm', 'p'] {
            assert(list[3] == lower);
        } else if lower == seq!['g', 'i', 'f'] {
            assert(list[4] == lower);
        } else if lower == seq!['t', 'i', 'f'] {
            assert(list[5] == lower);
        } else if lower == seq!['t', 'i', 'f', 'f'] {
            assert(list[6] == lower);
        } else {
            assert(list[7] == lower);
        }
    }
    if list.contains(lower) {
        let m = choose|m: int| 0 <= m < list.len() && list[m] == lower;
        assert(0 <= m < 8);
        if m == 0 {
        } else if m == 1 {
        } else if m == 2 {
        } else if m == 3 {
        } else if m == 4 {
        } else if m == 5 {
        } else if m == 6 {
        } else {
        }
    }
}

/// Whether `text` spells `lower` (a lowercase ASCII word) with any of its letters written
/// in upper case.
pub open spec fn spells_in_any_case(text: Seq<char>, lower: Seq<char>) -> bool {
    &&& text.len() == lower.len()
    &&& forall|i: int|
        0 <= i < text.len() ==> 'a' <= #[trigger] lower[i] <= 'z' && (text[i] == lower[i] || ('A'
            <= text[i] <= 'Z' && text[i] as u32 + 32 == lower[i] as u32))
}

/// The case of an extension's letters does not matter: every way of writing a supported
/// format's extension in upper- and lowercase ASCII letters is supported.
pub proof fn supported_extensions_ignore_case(extension: Seq<char>, format: Seq<char>)
    requires
        names_image_format(format),
        spells_in_any_case(extension, format),
    ensures
        is_supported_extension_text(extension),
{
    assert forall|i: int| 0 <= i < extension.len() implies ascii_lower(extension[i])
        == format[i] by {
        if extension[i] != format[i] {
            assert(extension[i] as u32 + 32 == format[i] as u32);
        }
    }
    assert(ascii_lower_text(extension) =~= format);
    supported_extensions_are_the_image_formats(extension);
}

/// Whether `extension` (without its dot), ignoring ASCII case, is one the viewer opens:
/// JPEG, PNG, BMP, GIF, TIFF or WebP.
pub fn is_supported_extension(extension: &str) -> (r: bool)
    ensures
        r == is_supported_extension_text(extension@),
        r == names_image_format(ascii_lower_text(extension@)),
{
    proof {
        supported_extensions_are_the_image_formats(extension@);
    }
    let length = extension.unicode_len();
    let mut lower: Vec<char> = Vec::new();
    let mut i: usize = 0;
    while i < length
        invariant
            length == extension@.len(),
            i <= length,
            lower@.len() == i,
            forall|j: int| 0 <= j < i ==> lower@[j] == ascii_lower(extension@[j]),
        decreases length - i,
    {
        let c = extension.get_char(i);
        lower.push(ascii_lower_char(c));
        i = i + 1;
    }
    assert(lower@ =~= ascii_lower_text(extension@));
    let candidates: Vec<Vec<char>> = vec![
        vec!['j', 'p', 'g'],
        vec!['j', 'p', 'e', 'g'],
        vec!['p', 'n', 'g'],
        vec!['b', 'm', 'p'],
        vec!['g', 'i', 'f'],
        vec!['t', 'i', 'f'],
        vec!['t', 'i', 'f', 'f'],
        vec!['w', 'e', 'b', 'p'],
    ];
    let ghost views = supported_extensions();
    assert(candidates@.len() == views.len());
    assert(forall|k: int| 0 <= k < views.len() ==> #[trigger] candidates@[k]@ == views[k]);
    let mut k: usize = 0;
    while k < candidates.len()
        invariant
            candidates@.len() == views.len(),
            forall|m: int| 0 <= m < views.len() ==> #[trigger] candidates@[m]@ == views[m],
            k <= candidates@.len(),
            lower@ == ascii_lower_text(extension@),
            views == supported_extensions(),
            forall|m: int| 0 <= m < k ==> views[m] != lower@,
        decreases candidates@.len() - k,
    {
        if chars_equal(&lower, &candidates[k]) {
            assert(views[k as int] == lower@);
            assert(views.contains(lower@));
            return true;
        }
        k = k + 1;
    }
    assert(!views.contains(lower@)) by {
        if views.contains(lower@) {
            let m = choose|m: int| 0 <= m < views.len() && views[m] == lower@;
            assert(views[m] != lower@);
        }
    }
    false
}

/// Whether the file at `path` has an extension the viewer opens (ignoring ASCII case).
/// The extension is the one `Path::extension` finds: for a bare file name, or for a path
/// whose file name is the text after its last `/`, the text after the name's last `.`,
/// unless that `.` leads the name; for any path whose last `.` follows a file name's first
/// character on every platform (such as `C:\\images\\photo.png`), the text after that `.`.
pub fn is_supported_image(path: &str) -> (r: bool)
    ensures
        has_portable_extension(path@) ==> r == is_supported_extension_text(
            path@.skip(last_dot(path@) + 1),
        ),
        is_bare_name(path@) ==> r == (last_dot(path@) > 0 && is_supported_extension_text(
            path@.skip(last_dot(path@) + 1),
        )),
        has_portable_name(path@) ==> r == (last_dot(final_part(path@)) > 0
            && is_supported_extension_text(
            final_part(path@).skip(last_dot(final_part(path@)) + 1),
        )),
        r ==> exists|i: int, extension: Seq<char>|
            0 <= i && i + 1 + extension.len() <= path@.len() && path@[i] == '.'
                && #[trigger] path@.subrange(i + 1, i + 1 + extension.len()) == extension
                && is_supported_extension_text(extension),
{
    match path_extension(path) {
        Some(extension) => is_supported_extension(extension.as_str()),
        None => false,
    }
}

/// Whether `key` is what the strip orders the file at `path` by: its file name, a nonempty
/// part of the path, or the whole path when it has no file name.
pub open spec fn is_file_name_key(key: Seq<char>, path: Seq<char>) -> bool {
    key == path || (key.len() > 0 && exists|i: int|
        0 <= i && i + key.len() <= path.len() && #[trigger] path.subrange(i, i + key.len()) == key)
}

/// The text the strip orders the file at `path` by: its file name as `Path::file_name`
/// finds it (for a path whose name is the same on every platform, the text after its last
/// `/`), or the whole path when it has none.
pub fn file_name_key(path: &str) -> (r: String)
    ensures
        is_file_name_key(r@, path@),
        has_portable_name(path@) ==> r@ == final_part(path@),
{
    match path_file_name(path) {
        Some(name) => name,
        None => path.to_owned(),
    }
}

/// Orders two image paths for the thumbnail strip: by their file names (the whole path
/// when there is none) in natural, case-insensitive order. For paths whose file name is
/// the text after their last `/`, those texts are compared.
pub fn natural_path_compare(left: &str, right: &str) -> (r: Ordering)
    ensures
        exists|l: Seq<char>, m: Seq<char>|
            r == order_of(#[trigger] file_name_order(l, m)) && is_file_name_key(l, left@)
                && is_file_name_key(m, right@),
        has_portable_name(left@) && has_portable_name(right@) ==> r == order_of(
            file_name_order(final_part(left@), final_part(right@)),
        ),
{
    let left_name = file_name_key(left);
    let right_name = file_name_key(right);
    compare_file_names(left_name.as_str(), right_name.as_str())
}

/// `a - b`, or 0 when `b` exceeds `a`.
pub open spec fn saturating_difference(a: int, b: int) -> int {
    if a >= b {
        a - b
    } else {
        0
    }
}

/// The smaller of two integers.
pub open spec fn min_int(a: int, b: int) -> int {
    if a <= b {
        a
    } else {
        b
    }
}

/// The items from `start` up to (not including) `end`, ascending.
pub open spec fn ascending(start: int, end: int) -> Seq<int> {
    Seq::new(saturating_difference(end, start) as nat, |i: int| start + i)
}

/// The items from `end - 1` down to `start`.
pub open spec fn descending(start: int, end: int) -> Seq<int> {
    Seq::new(saturating_difference(end, start) as nat, |i: int| end - 1 - i)
}

/// The range of items whose previews are kept ready: the visible items plus
/// `prefetch_count` items on each side, clipped to the strip.
pub open spec fn prefetch_window(
    item_count: int,
    first_visible: int,
    visible_count: int,
    prefetch_count: int,
) -> (int, int) {
    if item_count == 0 {
        (0, 0)
    } else {
        (
            saturating_difference(first_visible, prefetch_count),
            min_int(first_visible + visible_count + prefetch_count, item_count),
        )
    }
}

/// Whether item `i` is an item of a strip of `item_count` items that lies within
/// `prefetch_count` items of the visible part (`visible_count` items from `first_visible`).
pub open spec fn near_the_view(
    item_count: int,
    first_visible: int,
    visible_count: int,
    prefetch_count: int,
    i: int,
) -> bool {
    0 <= i < item_count && first_visible - prefetch_count <= i < first_visible + visible_count
        + prefetch_count
}

/// The prefetch window starts `prefetch_count` items before the first visible item, or at
/// the first item when there are fewer before it, and ends `prefetch_count` items after
/// the last visible one, or at the end of the strip; its items are exactly the items of
/// the strip that lie within `prefetch_count` of the visible part.
pub proof fn prefetch_window_holds_the_items_near_the_view(
    item_count: int,
    first_visible: int,
    visible_count: int,
    prefetch_count: int,
)
    requires
        item_count >= 0,
        first_visible >= 0,
        visible_count >= 0,
        prefetch_count >= 0,
    ensures
        ({
            let r = prefetch_window(item_count, first_visible, visible_count, prefetch_count);
            &&& item_count > 0 ==> r.0 == (if first_visible >= prefetch_count {
                first_visible - prefetch_count
            } else {
                0
            })
            &&& item_count > 0 ==> r.1 == (if first_visible + visible_count + prefetch_count
                <= item_count {
                first_visible + visible_count + prefetch_count
            } else {
                item_count
            })
            &&& item_count == 0 ==> r == (0int, 0int)
            &&& forall|i: int|
                r.0 <= i < r.1 <==> #[trigger] near_the_view(
                    item_count,
                    first_visible,
                    visible_count,
                    prefetch_count,
                    i,
                )
        }),
{
}

/// The range of items to keep loaded around the visible part of a strip of `item_count`
/// items whose first visible item is `first_visible`, with `visible_count` items in view
/// and `prefetch_count` more prefetched on each side.
pub fn prefetch_range(item_count: usize, first_visible: usize, visible_count: usize, prefetch_count: usize) -> (r: (
    usize,
    usize,
))
    requires
        first_visible + visible_count + prefetch_count <= usize::MAX,
    ensures
        (r.0 as int, r.1 as int) == prefetch_window(
            item_count as int,
            first_visible as int,
            visible_count as int,
            prefetch_count as int,
        ),
        item_count == 0 ==> r == (0usize, 0usize),
        item_count > 0 ==> r.0 == (if first_visible >= prefetch_count {
            first_visible - prefetch_count
        } else {
            0
        }),
        item_count > 0 ==> r.1 == (if first_visible + visible_count + prefetch_count <= item_count {
            first_visible + visible_count + prefetch_count
        } else {
            item_count as int
        }),
        forall|i: int|
            r.0 <= i < r.1 <==> #[trigger] near_the_view(
                item_count as int,
                first_visible as int,
                visible_count as int,
                prefetch_count as int,
                i,
            ),
{
    proof {
        prefetch_window_holds_the_items_near_the_view(
            item_count as int,
            first_visible as int,
            visible_count as int,
            prefetch_count as int,
        );
    }
    if item_count == 0 {
        return (0, 0);
    }
    let start = if first_visible >= prefetch_count {
        first_visible - prefetch_count
    } else {
        0
    };
    let wanted_end = first_visible + visible_count + prefetch_count;
    let end = if wanted_end <= item_count {
        wanted_end
    } else {
        item_count
    };
    (start, end)
}

/// The order in which previews are wanted, before duplicates and items past the end are
/// dropped: the selection and its two neighbours, the visible items, the items before them
/// (nearest first), then the items after them.
pub open spec fn preview_candidates(
    item_count: int,
    first_visible: int,
    visible_count: int,
    prefetch_count: int,
    selected: Option<usize>,
) -> Seq<int> {
    let visible_end = min_int(first_visible + visible_count, item_count);
    let prefetch_start = saturating_difference(first_visible, prefetch_count);
    let prefetch_end = min_int(visible_end + prefetch_count, item_count);
    let around_selection = match selected {
        Some(s) => if s < item_count {
            if s > 0 {
                seq![s as int, s - 1, s + 1]
            } else {
                seq![s as int, s + 1]
            }
        } else {
            Seq::empty()
        },
        None => Seq::empty(),
    };
    around_selection + ascending(first_visible, visible_end) + descending(prefetch_start, first_visible)
        + ascending(visible_end, prefetch_end)
}

/// The candidates below `item_count`, each kept at its first occurrence only.
pub open spec fn first_occurrences(candidates: Seq<int>, item_count: int) -> Seq<int>
    decreases candidates.len(),
{
    if candidates.len() == 0 {
        Seq::empty()
    } else {
        let kept = first_occurrences(candidates.drop_last(), item_count);
        let c = candidates.last();
        if 0 <= c < item_count && !kept.contains(c) {
            kept.push(c)
        } else {
            kept
        }
    }
}

/// The load order of previews: every wanted item once, in the order the candidates give.
pub open spec fn preview_order(
    item_count: int,
    first_visible: int,
    visible_count: int,
    prefetch_count: int,
    selected: Option<usize>,
) -> Seq<int> {
    first_occurrences(
        preview_candidates(item_count, first_visible, visible_count, prefetch_count, selected),
        item_count,
    )
}

/// Inputs on which the preview order can be computed without overflowing.
pub open spec fn preview_order_in_range(
    item_count: int,
    first_visible: int,
    visible_count: int,
    prefetch_count: int,
) -> bool {
    let visible_end = min_int(first_visible + visible_count, item_count);
    let prefetch_start = saturating_difference(first_visible, prefetch_count);
    let prefetch_end = min_int(visible_end + prefetch_count, item_count);
    &&& first_visible + visible_count <= usize::MAX
    &&& visible_end + prefetch_count <= usize::MAX
    &&& item_count > 0 ==> prefetch_start <= prefetch_end
    &&& item_count > 0 ==> prefetch_end - prefetch_start + 3 <= usize::MAX
}

/// What first_occurrences keeps: items below the count, none twice, each a candidate, and
/// every candidate below the count.
pub proof fn lemma_first_occurrences(candidates: Seq<int>, item_count: int)
    ensures
        ({
            let kept = first_occurrences(candidates, item_count);
            &&& forall|i: int| 0 <= i < kept.len() ==> 0 <= #[trigger] kept[i] < item_count
            &&& forall|i: int, j: int| 0 <= i < j < kept.len() ==> kept[i] != kept[j]
            &&& forall|i: int| 0 <= i < kept.len() ==> candidates.contains(#[trigger] kept[i])
            &&& forall|c: int| 0 <= c < item_count && candidates.contains(c) ==> #[trigger] kept.contains(c)
        }),
    decreases candidates.len(),
{
    if candidates.len() > 0 {
        let rest = candidates.drop_last();
        lemma_first_occurrences(rest, item_count);
        let kept = first_occurrences(rest, item_count);
        let c = candidates.last();
        assert forall|x: int| rest.contains(x) implies candidates.contains(x) by {
            let k = choose|k: int| 0 <= k < rest.len() && rest[k] == x;
            assert(candidates[k] == x);
        }
        assert(candidates[candidates.len() - 1] == c);
        assert forall|x: int| 0 <= x < item_count && candidates.contains(x) implies
            #[trigger] first_occurrences(candidates, item_count).contains(x) by {
            let k = choose|k: int| 0 <= k < candidates.len() && candidates[k] == x;
            if k < candidates.len() - 1 {
                assert(rest[k] == x);
                assert(kept.contains(x));
                let m = choose|m: int| 0 <= m < kept.len() && kept[m] == x;
                if 0 <= c < item_count && !kept.contains(c) {
                    assert(kept.push(c)[m] == x);
                }
            } else {
                if !(0 <= c < item_count && !kept.contains(c)) {
                } else {
                    assert(kept.push(c)[kept.len() as int] == x);
                }
            }
        }
    }
}

/// Adds `index` to `indices` unless it is past the end or already there.
fn push_new(indices: &mut Vec<usize>, included: &mut Vec<bool>, item_count: usize, index: usize)
    requires
        old(included)@.len() == item_count,
        forall|i: int| 0 <= i < item_count ==> (old(included)@[i] <==> old(indices)@.contains(i as usize)),
        forall|i: int| 0 <= i < old(indices)@.len() ==> #[trigger] old(indices)@[i] < item_count,
    ensures
        final(included)@.len() == item_count,
        forall|i: int| 0 <= i < item_count ==> (final(included)@[i] <==> final(indices)@.contains(i as usize)),
        forall|i: int| 0 <= i < final(indices)@.len() ==> #[trigger] final(indices)@[i] < item_count,
        final(indices)@ == (if index < item_count && !old(indices)@.contains(index) {
            old(indices)@.push(index)
        } else {
            old(indices)@
        }),
{
    if index < item_count && !included[index] {
        included.set(index, true);
        indices.push(index);
        proof {
            assert forall|i: int| 0 <= i < item_count implies (included@[i] <==> indices@.contains(i as usize)) by {
                if i == index {
                    assert(indices@[indices@.len() - 1] == index);
                } else {
                    if indices@.contains(i as usize) {
                        let k = choose|k: int| 0 <= k < indices@.len() && indices@[k] == i as usize;
                        assert(k < indices@.len() - 1);
                        assert(old(indices)@[k] == i as usize);
                    }
                    if old(indices)@.contains(i as usize) {
                        let k = choose|k: int| 0 <= k < old(indices)@.len() && old(indices)@[k] == i as usize;
                        assert(indices@[k] == i as usize);
                    }
                }
            }
        }
    }
}

/// A sequence of indices viewed as integers.
pub open spec fn as_ints(s: Seq<usize>) -> Seq<int> {
    s.map_values(|i: usize| i as int)
}

proof fn lemma_as_ints_push(s: Seq<usize>, x: usize)
    ensures
        as_ints(s.push(x)) == as_ints(s).push(x as int),
        as_ints(s).contains(x as int) <==> s.contains(x),
{
    assert(as_ints(s.push(x)) =~= as_ints(s).push(x as int));
    if s.contains(x) {
        let k = choose|k: int| 0 <= k < s.len() && s[k] == x;
        assert(as_ints(s)[k] == x as int);
    }
    if as_ints(s).contains(x as int) {
        let k = choose|k: int| 0 <= k < as_ints(s).len() && as_ints(s)[k] == x as int;
        assert(s[k] == x);
    }
}

/// One candidate more: first_occurrences grows by it exactly when it is new and in range.
proof fn lemma_first_occurrences_push(pushed: Seq<int>, c: int, item_count: int)
    ensures
        first_occurrences(pushed.push(c), item_count) == (if 0 <= c < item_count && !first_occurrences(
            pushed,
            item_count,
        ).contains(c) {
            first_occurrences(pushed, item_count).push(c)
        } else {
            first_occurrences(pushed, item_count)
        }),
{
    assert(pushed.push(c).drop_last() =~= pushed);
}

/// Offers candidate `c` to the load order and records it.
fn offer(
    indices: &mut Vec<usize>,
    included: &mut Vec<bool>,
    item_count: usize,
    c: usize,
    Ghost(pushed): Ghost<Seq<int>>,
)
    requires
        order_state(old(indices)@, old(included)@, item_count as int, pushed),
    ensures
        order_state(final(indices)@, final(included)@, item_count as int, pushed.push(c as int)),
{
    proof {
        reveal(order_state);
        lemma_as_ints_push(old(indices)@, c);
        lemma_first_occurrences_push(pushed, c as int, item_count as int);
    }
    push_new(indices, included, item_count, c);
    proof {
        reveal(order_state);
    }
}

/// The bookkeeping of a load order under construction.
#[verifier::opaque]
pub open spec fn order_state(
    indices: Seq<usize>,
    included: Seq<bool>,
    item_count: int,
    pushed: Seq<int>,
) -> bool {
    &&& included.len() == item_count
    &&& forall|i: int| 0 <= i < item_count ==> (included[i] <==> indices.contains(i as usize))
    &&& forall|i: int| 0 <= i < indices.len() ==> #[trigger] indices[i] < item_count
    &&& as_ints(indices) == first_occurrences(pushed, item_count)
}

/// Offers the items `start..end`, ascending.
fn offer_ascending(
    indices: &mut Vec<usize>,
    included: &mut Vec<bool>,
    item_count: usize,
    start: usize,
    end: usize,
    Ghost(pushed): Ghost<Seq<int>>,
)
    requires
        order_state(old(indices)@, old(included)@, item_count as int, pushed),
    ensures
        order_state(final(indices)@, final(included)@, item_count as int, pushed + ascending(start as int, end as int)),
{
    let ghost mut sofar = pushed;
    assert(sofar =~= pushed + ascending(start as int, start as int));
    let mut index = start;
    while index < end
        invariant
            start <= index,
            index <= end || end < start,
            end < start ==> index == start,
            order_state(indices@, included@, item_count as int, sofar),
            sofar =~= pushed + ascending(start as int, index as int),
        decreases end - index,
    {
        offer(indices, included, item_count, index, Ghost(sofar));
        proof {
            sofar = sofar.push(index as int);
            assert(ascending(start as int, index + 1) =~= ascending(start as int, index as int).push(index as int));
        }
        index = index + 1;
    }
    assert(ascending(start as int, index as int) =~= ascending(start as int, end as int));
}

/// Offers the items `start..end`, descending.
fn offer_descending(
    indices: &mut Vec<usize>,
    included: &mut Vec<bool>,
    item_count: usize,
    start: usize,
    end: usize,
    Ghost(pushed): Ghost<Seq<int>>,
)
    requires
        order_state(old(indices)@, old(included)@, item_count as int, pushed),
    ensures
        order_state(final(indices)@, final(included)@, item_count as int, pushed + descending(start as int, end as int)),
{
    let ghost mut sofar = pushed;
    if end <= start {
        assert(pushed + descending(start as int, end as int) =~= pushed);
        return;
    }
    assert(sofar =~= pushed + descending(end as int, end as int));
    let mut index = end;
    while index > start
        invariant
            start <= index <= end,
            order_state(indices@, included@, item_count as int, sofar),
            sofar =~= pushed + descending(index as int, end as int),
        decreases index - start,
    {
        index = index - 1;
        offer(indices, included, item_count, index, Ghost(sofar));
        proof {
            sofar = sofar.push(index as int);
            assert(descending(index as int, end as int) =~= descending(index + 1, end as int).push(index as int));
        }
    }
}

/// The order in which to load thumbnail previews for a strip of `item_count` items whose
/// first visible item is `first_visible`, with `visible_count` items in view and
/// `prefetch_count` more wanted on each side: the selected item and its neighbours first,
/// then the visible items, then the ones before them (nearest first), then the ones after.
#[verifier::spinoff_prover]
#[verifier::rlimit(40)]
pub fn prioritized_thumbnail_indices(
    item_count: usize,
    first_visible: usize,
    visible_count: usize,
    prefetch_count: usize,
    selected: Option<usize>,
) -> (r: Vec<usize>)
    requires
        preview_order_in_range(
            item_count as int,
            first_visible as int,
            visible_count as int,
            prefetch_count as int,
        ),
    ensures
        item_count == 0 ==> r@.len() == 0,
        item_count > 0 ==> as_ints(r@) == preview_order(
            item_count as int,
            first_visible as int,
            visible_count as int,
            prefetch_count as int,
            selected,
        ),
        forall|i: int| 0 <= i < r@.len() ==> #[trigger] r@[i] < item_count,
        forall|i: int, j: int| 0 <= i < j < r@.len() ==> r@[i] != r@[j],
{
    if item_count == 0 {
        return Vec::new();
    }
    let visible_end = if first_visible + visible_count <= item_count {
        first_visible + visible_count
    } else {
        item_count
    };
    let prefetch_start = if first_visible >= prefetch_count {
        first_visible - prefetch_count
    } else {
        0
    };
    let prefetch_end = if visible_end + prefetch_count <= item_count {
        visible_end + prefetch_count
    } else {
        item_count
    };

    let mut indices: Vec<usize> = Vec::with_capacity(prefetch_end - prefetch_start + 3);
    let mut included: Vec<bool> = Vec::new();
    let mut n: usize = 0;
    while n < item_count
        invariant
            n <= item_count,
            included@.len() == n,
            forall|i: int| 0 <= i < n ==> !included@[i],
        decreases item_count - n,
    {
        included.push(false);
        n = n + 1;
    }
    let ghost mut pushed: Seq<int> = Seq::empty();
    assert(as_ints(indices@) =~= first_occurrences(pushed, item_count as int));
    assert(order_state(indices@, included@, item_count as int, pushed)) by {
        reveal(order_state);
    }

    if let Some(selected) = selected {
        if selected < item_count {
            offer(&mut indices, &mut included, item_count, selected, Ghost(pushed));
            proof { pushed = pushed.push(selected as int); }
            if selected > 0 {
                offer(&mut indices, &mut included, item_count, selected - 1, Ghost(pushed));
                proof { pushed = pushed.push(selected - 1); }
            }
            offer(&mut indices, &mut included, item_count, selected + 1, Ghost(pushed));
            proof { pushed = pushed.push(selected + 1); }
        }
    }
    let ghost around = pushed;
    offer_ascending(&mut indices, &mut included, item_count, first_visible, visible_end, Ghost(pushed));
    proof { pushed = pushed + ascending(first_visible as int, visible_end as int); }
    offer_descending(&mut indices, &mut included, item_count, prefetch_start, first_visible, Ghost(pushed));
    proof { pushed = pushed + descending(prefetch_start as int, first_visible as int); }
    offer_ascending(&mut indices, &mut included, item_count, visible_end, prefetch_end, Ghost(pushed));
    proof {
        pushed = pushed + ascending(visible_end as int, prefetch_end as int);
        assert(pushed =~= preview_candidates(
            item_count as int,
            first_visible as int,
            visible_count as int,
            prefetch_count as int,
            selected,
        ));
        lemma_first_occurrences(pushed, item_count as int);
        reveal(order_state);
        assert forall|i: int, j: int| 0 <= i < j < indices@.len() implies indices@[i] != indices@[j] by {
            assert(as_ints(indices@)[i] != as_ints(indices@)[j]);
        }
    }
    indices
}

} // verus!

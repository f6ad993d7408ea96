//! The thumbnail strip's catalog: the files of the opened image's folder, which of them is
//! selected, the state of each preview, and the budgeted cache of decoded previews.
//! Previews are of a type `I` that the renderer chooses.

use vstd::prelude::*;
use crate::thumbnail::{THUMBNAIL_CACHE_BUDGET_BYTES, THUMBNAIL_QUEUE_CAPACITY};

verus! {

/// What the window does after a click.
#[derive(Clone, Copy, Debug, PartialEq, Eq, Structural)]
pub enum PointerAction {
    NoAction,
    BeginSlider,
    BeginThumbnailScroll,
    BeginPan,
    ToggleFullscreen,
    ToggleContextMenu,
    OpenDefaultAppSettings,
    ThumbnailPreferencesChanged,
    OpenThumbnail(usize),
}

/// A preview that should be decoded.
pub struct ThumbnailRequest {
    pub index: usize,
    pub path: String,
    pub target_size_px: u32,
}

/// Where an item's preview stands.
#[derive(Clone, Copy, Debug, PartialEq, Eq, Structural)]
pub enum ThumbnailLoadState {
    Empty,
    Queued,
    Ready,
    Failed,
}

/// One file of the strip and its cached preview.
pub struct ThumbnailItem<I> {
    pub path: String,
    pub state: ThumbnailLoadState,
    pub image: Option<I>,
    pub byte_size: usize,
    pub target_size_px: u32,
    pub last_used: u64,
}

/// The side of the selected image to move to.
#[derive(Clone, Copy, Debug, PartialEq, Eq, Structural)]
pub enum ImageNavigation {
    Previous,
    Next,
}

/// ASCII lowercase of a byte.
pub open spec fn ascii_lower_byte(b: u8) -> u8 {
    if 65 <= b <= 90 {
        (b + 32) as u8
    } else {
        b
    }
}

/// Whether two byte strings are equal ignoring ASCII case.
pub open spec fn bytes_equal_ignoring_ascii_case(a: Seq<u8>, b: Seq<u8>) -> bool {
    &&& a.len() == b.len()
    &&& forall|i: int| 0 <= i < a.len() ==> ascii_lower_byte(#[trigger] a[i]) == ascii_lower_byte(b[i])
}

/// Whether two paths name the same file, comparing their text ignoring ASCII case.
pub open spec fn same_path(a: Seq<char>, b: Seq<char>) -> bool {
    bytes_equal_ignoring_ascii_case(vstd::utf8::encode_utf8(a), vstd::utf8::encode_utf8(b))
}

fn lower_byte(b: u8) -> (r: u8)
    ensures
        r == ascii_lower_byte(b),
{
    if 65 <= b && b <= 90 {
        b + 32
    } else {
        b
    }
}

/// Whether `left` and `right` are the same path, ignoring ASCII case.
pub fn paths_equal(left: &str, right: &str) -> (r: bool)
    ensures
        r == same_path(left@, right@),
{
    let a = left.as_bytes();
    let b = right.as_bytes();
    if a.len() != b.len() {
        return false;
    }
    let mut i: usize = 0;
    while i < a.len()
        invariant
            a@ == vstd::utf8::encode_utf8(left@),
            b@ == vstd::utf8::encode_utf8(right@),
            a@.len() == b@.len(),
            i <= a@.len(),
            forall|j: int| 0 <= j < i ==> ascii_lower_byte(#[trigger] a@[j]) == ascii_lower_byte(b@[j]),
        decreases a@.len() - i,
    {
        if lower_byte(a[i]) != lower_byte(b[i]) {
            assert(ascii_lower_byte(a@[i as int]) != ascii_lower_byte(b@[i as int]));
            return false;
        }
        i = i + 1;
    }
    true
}

/// Total bytes of the cached previews of `items`.
pub open spec fn cached_bytes<I>(items: Seq<ThumbnailItem<I>>) -> int
    decreases items.len(),
{
    if items.len() == 0 {
        0
    } else {
        cached_bytes(items.drop_last()) + items.last().byte_size
    }
}

proof fn lemma_cached_bytes_nonneg<I>(items: Seq<ThumbnailItem<I>>)
    ensures
        cached_bytes(items) >= 0,
        forall|i: int| 0 <= i < items.len() ==> #[trigger] items[i].byte_size <= cached_bytes(items),
    decreases items.len(),
{
    if items.len() > 0 {
        lemma_cached_bytes_nonneg(items.drop_last());
        assert forall|i: int| 0 <= i < items.len() implies #[trigger] items[i].byte_size <= cached_bytes(items) by {
            if i < items.len() - 1 {
                assert(items[i] == items.drop_last()[i]);
            }
        }
    }
}

/// Replacing item `index` changes the total by the difference of their sizes.
proof fn lemma_cached_bytes_update<I>(items: Seq<ThumbnailItem<I>>, index: int, item: ThumbnailItem<I>)
    requires
        0 <= index < items.len(),
    ensures
        cached_bytes(items.update(index, item)) == cached_bytes(items) - items[index].byte_size + item.byte_size,
    decreases items.len(),
{
    if index == items.len() - 1 {
        assert(items.update(index, item).drop_last() =~= items.drop_last());
    } else {
        lemma_cached_bytes_update(items.drop_last(), index, item);
        assert(items.update(index, item).drop_last() =~= items.drop_last().update(index, item));
    }
}

/// Removing item `index` takes its size off the total.
proof fn lemma_cached_bytes_remove<I>(items: Seq<ThumbnailItem<I>>, index: int)
    requires
        0 <= index < items.len(),
    ensures
        cached_bytes(items.remove(index)) == cached_bytes(items) - items[index].byte_size,
    decreases items.len(),
{
    if index == items.len() - 1 {
        assert(items.remove(index) =~= items.drop_last());
    } else {
        lemma_cached_bytes_remove(items.drop_last(), index);
        assert(items.remove(index).drop_last() =~= items.drop_last().remove(index));
        assert(items.remove(index).last() == items.last());
    }
}

/// Items whose every size is 0 hold nothing in the cache.
proof fn lemma_cached_bytes_zero<I>(items: Seq<ThumbnailItem<I>>)
    requires
        forall|i: int| 0 <= i < items.len() ==> #[trigger] items[i].byte_size == 0,
    ensures
        cached_bytes(items) == 0,
    decreases items.len(),
{
    if items.len() > 0 {
        lemma_cached_bytes_zero(items.drop_last());
    }
}

/// The cache stamp after `stamp`, wrapping around.
pub open spec fn next_stamp(stamp: u64) -> u64 {
    if stamp == u64::MAX {
        0
    } else {
        (stamp + 1) as u64
    }
}

/// Whether an item still needs its preview decoded (a queued one is asked for again).
pub open spec fn wants_preview<I>(item: ThumbnailItem<I>) -> bool {
    item.state == ThumbnailLoadState::Empty || item.state == ThumbnailLoadState::Queued
}

/// How many of `indices` a request pass looks at: it stops right after the `budget`-th
/// item that needs a preview.
pub open spec fn scan_length<I>(items: Seq<ThumbnailItem<I>>, indices: Seq<usize>, budget: int) -> int
    decreases indices.len(),
{
    if indices.len() == 0 || budget <= 0 {
        0
    } else if wants_preview(items[indices[0] as int]) {
        if budget == 1 {
            1
        } else {
            1 + scan_length(items, indices.drop_first(), budget - 1)
        }
    } else {
        1 + scan_length(items, indices.drop_first(), budget)
    }
}

/// The entries of `indices` whose items need a preview, in order.
pub open spec fn wanted_indices<I>(items: Seq<ThumbnailItem<I>>, indices: Seq<usize>) -> Seq<usize>
    decreases indices.len(),
{
    if indices.len() == 0 {
        Seq::empty()
    } else {
        let rest = wanted_indices(items, indices.drop_last());
        if wants_preview(items[indices.last() as int]) {
            rest.push(indices.last())
        } else {
            rest
        }
    }
}

/// The items a request pass over `indices` asks previews for.
pub open spec fn requested_indices<I>(items: Seq<ThumbnailItem<I>>, indices: Seq<usize>) -> Seq<usize> {
    wanted_indices(items, indices.take(scan_length(items, indices, THUMBNAIL_QUEUE_CAPACITY as int)))
}

/// Whether one of the first `n` entries of `indices` is `i`.
pub open spec fn looked_at(indices: Seq<usize>, n: int, i: int) -> bool {
    exists|q: int| 0 <= q < n && #[trigger] indices[q] as int == i
}

/// `item` after a request pass: a queued item waits again, and a ready item that the pass
/// looked at is stamped as just used.
pub open spec fn item_after_requests<I>(item: ThumbnailItem<I>, looked_at: bool, stamp: u64) -> ThumbnailItem<I> {
    if item.state == ThumbnailLoadState::Queued {
        ThumbnailItem { state: ThumbnailLoadState::Empty, ..item }
    } else if item.state == ThumbnailLoadState::Ready && looked_at {
        ThumbnailItem { last_used: stamp, ..item }
    } else {
        item
    }
}

proof fn lemma_scan_length_bounds<I>(items: Seq<ThumbnailItem<I>>, indices: Seq<usize>, budget: int)
    ensures
        0 <= scan_length(items, indices, budget) <= indices.len(),
    decreases indices.len(),
{
    if indices.len() > 0 && budget > 0 {
        lemma_scan_length_bounds(items, indices.drop_first(), budget - 1);
        lemma_scan_length_bounds(items, indices.drop_first(), budget);
    }
}

proof fn lemma_wanted_indices_len<I>(items: Seq<ThumbnailItem<I>>, indices: Seq<usize>)
    ensures
        wanted_indices(items, indices).len() <= indices.len(),
    decreases indices.len(),
{
    if indices.len() > 0 {
        lemma_wanted_indices_len(items, indices.drop_last());
    }
}

/// A request pass asks for at most the queue capacity of previews.
proof fn lemma_requested_bounded<I>(items: Seq<ThumbnailItem<I>>, indices: Seq<usize>, budget: int)
    requires
        budget >= 1,
    ensures
        wanted_indices(items, indices.take(scan_length(items, indices, budget))).len() <= budget,
    decreases indices.len(),
{
    if indices.len() > 0 {
        let rest = indices.drop_first();
        lemma_scan_length_bounds(items, indices, budget);
        if wants_preview(items[indices[0] as int]) {
            if budget == 1 {
                lemma_wanted_prefix_cons(items, indices, 0);
                assert(wanted_indices(items, indices.drop_first().take(0)).len() == 0) by {
                    assert(indices.drop_first().take(0) =~= Seq::<usize>::empty());
                }
            } else {
                let n = scan_length(items, rest, budget - 1);
                lemma_scan_length_bounds(items, rest, budget - 1);
                lemma_requested_bounded(items, rest, budget - 1);
                lemma_wanted_prefix_cons(items, indices, n);
            }
        } else {
            let n = scan_length(items, rest, budget);
            lemma_scan_length_bounds(items, rest, budget);
            lemma_requested_bounded(items, rest, budget);
            lemma_wanted_prefix_cons(items, indices, n);
        }
    } else {
        assert(indices.take(0) =~= Seq::<usize>::empty());
    }
}

/// Looking at one more index at the front adds it in front of the wanted ones when its
/// item needs a preview.
proof fn lemma_wanted_prefix_cons<I>(items: Seq<ThumbnailItem<I>>, indices: Seq<usize>, n: int)
    requires
        indices.len() > 0,
        0 <= n < indices.len(),
    ensures
        wanted_indices(items, indices.take(n + 1)) == (if wants_preview(items[indices[0] as int]) {
            seq![indices[0]] + wanted_indices(items, indices.drop_first().take(n))
        } else {
            wanted_indices(items, indices.drop_first().take(n))
        }),
    decreases n,
{
    if n == 0 {
        assert(indices.take(1).drop_last() =~= Seq::<usize>::empty());
        assert(indices.drop_first().take(0) =~= Seq::<usize>::empty());
        assert(indices.take(1).last() == indices[0]);
    } else {
        lemma_wanted_prefix_cons(items, indices, n - 1);
        assert(indices.take(n + 1).drop_last() =~= indices.take(n));
        assert(indices.drop_first().take(n).drop_last() =~= indices.drop_first().take(n - 1));
        assert(indices.take(n + 1).last() == indices.drop_first().take(n).last());
    }
}

proof fn lemma_wanted_bound<I>(items: Seq<ThumbnailItem<I>>, indices: Seq<usize>, bound: int)
    requires
        forall|k: int| 0 <= k < indices.len() ==> #[trigger] indices[k] < bound,
    ensures
        forall|j: int| 0 <= j < wanted_indices(items, indices).len() ==> #[trigger] wanted_indices(items, indices)[j] < bound,
    decreases indices.len(),
{
    if indices.len() > 0 {
        let rest = indices.drop_last();
        assert forall|k: int| 0 <= k < rest.len() implies #[trigger] rest[k] < bound by {
            assert(rest[k] == indices[k]);
        }
        lemma_wanted_bound(items, rest, bound);
        assert(indices.last() == indices[indices.len() - 1]);
        let w = wanted_indices(items, indices);
        let wr = wanted_indices(items, rest);
        assert forall|j: int| 0 <= j < w.len() implies #[trigger] w[j] < bound by {
            if j < wr.len() {
                assert(w[j] == wr[j]);
            }
        }
    }
}

proof fn lemma_scan_same_wants<I>(a: Seq<ThumbnailItem<I>>, b: Seq<ThumbnailItem<I>>, indices: Seq<usize>, budget: int)
    requires
        a.len() == b.len(),
        forall|i: int| 0 <= i < a.len() ==> wants_preview(#[trigger] b[i]) == wants_preview(a[i]),
        forall|k: int| 0 <= k < indices.len() ==> #[trigger] indices[k] < a.len(),
    ensures
        scan_length(a, indices, budget) == scan_length(b, indices, budget),
    decreases indices.len(),
{
    if indices.len() > 0 && budget > 0 {
        assert(wants_preview(b[indices[0] as int]) == wants_preview(a[indices[0] as int]));
        lemma_scan_same_wants(a, b, indices.drop_first(), budget - 1);
        lemma_scan_same_wants(a, b, indices.drop_first(), budget);
    }
}

proof fn lemma_wanted_same_wants<I>(a: Seq<ThumbnailItem<I>>, b: Seq<ThumbnailItem<I>>, indices: Seq<usize>)
    requires
        a.len() == b.len(),
        forall|i: int| 0 <= i < a.len() ==> wants_preview(#[trigger] b[i]) == wants_preview(a[i]),
        forall|k: int| 0 <= k < indices.len() ==> #[trigger] indices[k] < a.len(),
    ensures
        wanted_indices(a, indices) == wanted_indices(b, indices),
    decreases indices.len(),
{
    if indices.len() > 0 {
        assert(wants_preview(b[indices.last() as int]) == wants_preview(a[indices.last() as int]));
        lemma_wanted_same_wants(a, b, indices.drop_last());
    }
}

/// Whether item `i` holds a preview that eviction may drop (the selected item's is kept).
pub open spec fn evictable<I>(items: Seq<ThumbnailItem<I>>, selected: Option<usize>, i: int) -> bool {
    &&& 0 <= i < items.len()
    &&& items[i].image is Some
    &&& selected != Some(i as usize)
}

/// Whether item `i` comes before item `j` in eviction order: less recently used first,
/// ties by position.
pub open spec fn evicted_before<I>(items: Seq<ThumbnailItem<I>>, i: int, j: int) -> bool {
    items[i].last_used < items[j].last_used || (items[i].last_used == items[j].last_used && i < j)
}

/// Whether item `i` is the next to evict: evictable, and before every other evictable item.
pub open spec fn is_next_eviction<I>(items: Seq<ThumbnailItem<I>>, selected: Option<usize>, i: int) -> bool {
    &&& evictable(items, selected, i)
    &&& forall|j: int| evictable(items, selected, j) && j != i ==> evicted_before(items, i, j)
}

/// `item` with its preview dropped: a ready item waits again.
pub open spec fn without_preview<I>(item: ThumbnailItem<I>) -> ThumbnailItem<I> {
    ThumbnailItem {
        state: if item.state == ThumbnailLoadState::Ready {
            ThumbnailLoadState::Empty
        } else {
            item.state
        },
        image: None,
        byte_size: 0,
        target_size_px: 0,
        ..item
    }
}

/// Whether `after` (with `after_cache` bytes cached) is what evicting from `before`
/// leaves: some evictable items lost their previews, each of them before every evictable
/// item that kept its preview; the cache fits the budget unless nothing more may be
/// dropped; and no more was dropped than needed (had the dropped item that comes last in
/// eviction order kept its preview, the cache would still exceed the budget).
pub open spec fn is_eviction<I>(
    before: Seq<ThumbnailItem<I>>,
    selected: Option<usize>,
    after: Seq<ThumbnailItem<I>>,
    after_cache: int,
) -> bool {
    &&& after.len() == before.len()
    &&& forall|i: int| 0 <= i < before.len() ==> #[trigger] after[i] == before[i] || (evictable(before, selected, i)
        && after[i] == without_preview(before[i]))
    &&& forall|i: int, j: int|
        #![trigger after[i], evictable(after, selected, j)]
        evictable(before, selected, i) && after[i] != before[i] && evictable(after, selected, j) ==> evicted_before(
            before,
            i,
            j,
        )
    &&& after_cache <= THUMBNAIL_CACHE_BUDGET_BYTES || forall|j: int| !evictable(after, selected, j)
    &&& (exists|i: int| 0 <= i < before.len() && #[trigger] after[i] != before[i]) ==> exists|i: int|
        0 <= i < before.len() && #[trigger] after[i] != before[i] && after_cache + before[i].byte_size
            > THUMBNAIL_CACHE_BUDGET_BYTES && forall|j: int|
            0 <= j < before.len() && #[trigger] after[j] != before[j] && j != i ==> evicted_before(before, j, i)
}

/// Number of items holding a preview.
pub open spec fn preview_count<I>(items: Seq<ThumbnailItem<I>>) -> nat
    decreases items.len(),
{
    if items.len() == 0 {
        0
    } else {
        preview_count(items.drop_last()) + if items.last().image is Some {
            1nat
        } else {
            0nat
        }
    }
}

proof fn lemma_preview_count_drop<I>(items: Seq<ThumbnailItem<I>>, index: int)
    requires
        0 <= index < items.len(),
        items[index].image is Some,
    ensures
        preview_count(items.update(index, without_preview(items[index]))) + 1 == preview_count(items),
    decreases items.len(),
{
    let updated = items.update(index, without_preview(items[index]));
    if index == items.len() - 1 {
        assert(updated.drop_last() =~= items.drop_last());
    } else {
        lemma_preview_count_drop(items.drop_last(), index);
        assert(updated.drop_last() =~= items.drop_last().update(index, without_preview(items[index])));
    }
}

/// The strip's files and their previews.
pub struct ThumbnailCatalog<I> {
    pub items: Vec<ThumbnailItem<I>>,
    pub selected: Option<usize>,
    pub cache_bytes: usize,
    pub cache_stamp: u64,
}

impl<I> ThumbnailCatalog<I> {
    /// The catalog's bookkeeping holds: the selection is an item, only items with a
    /// preview count toward the cache (ready items have one), and the cache total is the
    /// sum of the cached sizes.
    pub open spec fn wf(&self) -> bool {
        &&& self.selected matches Some(s) ==> s < self.items@.len()
        &&& forall|i: int| 0 <= i < self.items@.len() ==> (#[trigger] self.items@[i]).image is None
            ==> self.items@[i].byte_size == 0
        &&& forall|i: int| 0 <= i < self.items@.len() ==> (#[trigger] self.items@[i]).state
            == ThumbnailLoadState::Ready ==> self.items@[i].image is Some
        &&& self.cache_bytes == cached_bytes(self.items@)
    }

    /// An empty strip.
    pub fn new() -> (r: Self)
        ensures
            r.wf(),
            r.items@.len() == 0,
            r.selected is None,
            r.cache_bytes == 0,
            r.cache_stamp == 0,
    {
        ThumbnailCatalog { items: Vec::new(), selected: None, cache_bytes: 0, cache_stamp: 0 }
    }

    /// Replaces the strip's files by `paths` (nothing loaded yet) and selects the one that
    /// is `current_path`, ignoring ASCII case; the first such file when several match.
    pub fn set_thumbnail_catalog(&mut self, paths: Vec<String>, current_path: &str)
        ensures
            final(self).wf(),
            final(self).items@.len() == paths@.len(),
            forall|i: int| 0 <= i < paths@.len() ==> {
                &&& (#[trigger] final(self).items@[i]).path == paths@[i]
                &&& final(self).items@[i].state == ThumbnailLoadState::Empty
                &&& final(self).items@[i].image is None
                &&& final(self).items@[i].byte_size == 0
                &&& final(self).items@[i].target_size_px == 0
                &&& final(self).items@[i].last_used == 0
            },
            final(self).selected matches Some(s) ==> same_path(paths@[s as int]@, current_path@) && forall|j: int|
                0 <= j < s ==> !same_path(#[trigger] paths@[j]@, current_path@),
            final(self).selected is None ==> forall|j: int|
                0 <= j < paths@.len() ==> !same_path(#[trigger] paths@[j]@, current_path@),
            final(self).cache_bytes == 0,
            final(self).cache_stamp == 0,
    {
        let ghost given = paths@;
        let mut paths = paths;
        let mut items: Vec<ThumbnailItem<I>> = Vec::new();
        let mut selected: Option<usize> = None;
        let mut k: usize = 0;
        let total = paths.len();
        assert(paths@ =~= given.skip(0));
        while k < total
            invariant
                total == given.len(),
                k <= total,
                paths@ =~= given.skip(k as int),
                items@.len() == k,
                forall|i: int| 0 <= i < k ==> {
                    &&& (#[trigger] items@[i]).path == given[i]
                    &&& items@[i].state == ThumbnailLoadState::Empty
                    &&& items@[i].image is None
                    &&& items@[i].byte_size == 0
                    &&& items@[i].target_size_px == 0
                    &&& items@[i].last_used == 0
                },
                selected matches Some(s) ==> s < k && same_path(given[s as int]@, current_path@)
                    && forall|j: int| 0 <= j < s ==> !same_path(#[trigger] given[j]@, current_path@),
                selected is None ==> forall|j: int| 0 <= j < k ==> !same_path(#[trigger] given[j]@, current_path@),
            decreases total - k,
        {
            let path = paths.remove(0);
            proof {
                assert(path == given[k as int]);
            }
            if selected.is_none() && paths_equal(path.as_str(), current_path) {
                selected = Some(k);
            }
            items.push(ThumbnailItem {
                path,
                state: ThumbnailLoadState::Empty,
                image: None,
                byte_size: 0,
                target_size_px: 0,
                last_used: 0,
            });
            proof {
                assert(paths@ =~= given.skip(k + 1));
            }
            k = k + 1;
        }
        proof {
            lemma_cached_bytes_zero(items@);
        }
        self.items = items;
        self.selected = selected;
        self.cache_bytes = 0;
        self.cache_stamp = 0;
    }

    /// The path of item `index`, if there is one.
    pub fn thumbnail_path(&self, index: usize) -> (r: Option<String>)
        ensures
            index < self.items@.len() ==> r == Some(self.items@[index as int].path),
            index >= self.items@.len() ==> r is None,
    {
        if index < self.items.len() {
            Some(self.items[index].path.clone())
        } else {
            None
        }
    }

    /// The item next to the selected one: before it for a negative `direction`, after it
    /// for a positive one; none when there is no selection, no such item or `direction` is 0.
    pub fn adjacent_thumbnail_index(&self, direction: i32) -> (r: Option<usize>)
        requires
            self.wf(),
        ensures
            r == (match self.selected {
                None => None,
                Some(s) => if direction < 0 {
                    if s > 0 {
                        Some((s - 1) as usize)
                    } else {
                        None
                    }
                } else if direction > 0 {
                    if s + 1 < self.items@.len() {
                        Some((s + 1) as usize)
                    } else {
                        None
                    }
                } else {
                    None
                },
            }),
    {
        let count = self.items.len();
        let selected = match self.selected {
            Some(s) => s,
            None => return None,
        };
        if direction < 0 {
            if selected > 0 {
                Some(selected - 1)
            } else {
                None
            }
        } else if direction > 0 {
            if selected + 1 < count {
                Some(selected + 1)
            } else {
                None
            }
        } else {
            None
        }
    }

    /// Selects item `index` when there is such an item.
    pub fn select_thumbnail(&mut self, index: usize)
        requires
            old(self).wf(),
        ensures
            final(self).wf(),
            final(self).items == old(self).items,
            final(self).cache_bytes == old(self).cache_bytes,
            final(self).cache_stamp == old(self).cache_stamp,
            final(self).selected == (if index < old(self).items@.len() {
                Some(index)
            } else {
                old(self).selected
            }),
    {
        if index < self.items.len() {
            self.selected = Some(index);
        }
    }

    /// Whether there is an image to move to in `direction` from the selected one.
    pub fn navigation_available(&self, direction: ImageNavigation) -> (r: bool)
        requires
            self.wf(),
        ensures
            r == (match self.selected {
                None => false,
                Some(s) => match direction {
                    ImageNavigation::Previous => s > 0,
                    ImageNavigation::Next => s + 1 < self.items@.len(),
                },
            }),
    {
        let count = self.items.len();
        let selected = match self.selected {
            Some(s) => s,
            None => return false,
        };
        match direction {
            ImageNavigation::Previous => selected > 0,
            ImageNavigation::Next => selected + 1 < count,
        }
    }

    /// The item to open when moving in `direction` from the selected one.
    pub fn navigation_index(&self, direction: ImageNavigation) -> (r: Option<usize>)
        requires
            self.wf(),
        ensures
            r == (match self.selected {
                None => None,
                Some(s) => match direction {
                    ImageNavigation::Previous => if s > 0 {
                        Some((s - 1) as usize)
                    } else {
                        None
                    },
                    ImageNavigation::Next => if s + 1 < self.items@.len() {
                        Some((s + 1) as usize)
                    } else {
                        None
                    },
                },
            }),
    {
        let count = self.items.len();
        let selected = match self.selected {
            Some(s) => s,
            None => return None,
        };
        match direction {
            ImageNavigation::Previous => if selected > 0 {
                Some(selected - 1)
            } else {
                None
            },
            ImageNavigation::Next => if selected + 1 < count {
                Some(selected + 1)
            } else {
                None
            },
        }
    }

    /// Marks item `index` as queued for decoding when it is still waiting and still is
    /// the file `path` (ignoring ASCII case).
    pub fn mark_thumbnail_queued(&mut self, index: usize, path: &str)
        requires
            old(self).wf(),
        ensures
            final(self).wf(),
            final(self).selected == old(self).selected,
            final(self).cache_bytes == old(self).cache_bytes,
            final(self).cache_stamp == old(self).cache_stamp,
            final(self).items@.len() == old(self).items@.len(),
            forall|i: int| 0 <= i < old(self).items@.len() && i != index ==> #[trigger] final(self).items@[i] == old(self).items@[i],
            index < old(self).items@.len() ==> {
                let item = old(self).items@[index as int];
                final(self).items@[index as int] == (if item.state == ThumbnailLoadState::Empty && same_path(item.path@, path@) {
                    ThumbnailItem { state: ThumbnailLoadState::Queued, ..item }
                } else {
                    item
                })
            },
    {
        if index < self.items.len() && self.items[index].state == ThumbnailLoadState::Empty && paths_equal(
            self.items[index].path.as_str(),
            path,
        ) {
            self.items[index].state = ThumbnailLoadState::Queued;
            proof {
                lemma_cached_bytes_update(old(self).items@, index as int, self.items@[index as int]);
            }
        }
    }

    /// Records that decoding item `index` (file `path`, at `target_size_px`) failed. A
    /// result for a size other than `current_target_px` only puts a still-queued item back
    /// to waiting; otherwise an item that still has a preview stays ready, and one without
    /// is marked failed.
    pub fn set_thumbnail_failed(&mut self, index: usize, path: &str, target_size_px: u32, current_target_px: u32)
        requires
            old(self).wf(),
        ensures
            final(self).wf(),
            final(self).selected == old(self).selected,
            final(self).cache_stamp == old(self).cache_stamp,
            final(self).cache_bytes == old(self).cache_bytes,
            final(self).items@.len() == old(self).items@.len(),
            forall|i: int| 0 <= i < old(self).items@.len() && i != index ==> #[trigger] final(self).items@[i] == old(self).items@[i],
            index < old(self).items@.len() ==> {
                let item = old(self).items@[index as int];
                final(self).items@[index as int] == (if !same_path(item.path@, path@) {
                    item
                } else if target_size_px != current_target_px {
                    if item.state == ThumbnailLoadState::Queued {
                        ThumbnailItem { state: ThumbnailLoadState::Empty, ..item }
                    } else {
                        item
                    }
                } else if item.image is Some {
                    ThumbnailItem { state: ThumbnailLoadState::Ready, ..item }
                } else {
                    ThumbnailItem {
                        state: ThumbnailLoadState::Failed,
                        image: None,
                        byte_size: 0,
                        target_size_px: 0,
                        ..item
                    }
                })
            },
    {
        if index >= self.items.len() {
            return;
        }
        if target_size_px != current_target_px {
            if self.items[index].state == ThumbnailLoadState::Queued && paths_equal(
                self.items[index].path.as_str(),
                path,
            ) {
                self.items[index].state = ThumbnailLoadState::Empty;
                proof {
                    lemma_cached_bytes_update(old(self).items@, index as int, self.items@[index as int]);
                    assert(self.items@ =~= old(self).items@.update(index as int, self.items@[index as int]));
                }
            }
            return;
        }
        if paths_equal(self.items[index].path.as_str(), path) {
            if self.items[index].image.is_some() {
                self.items[index].state = ThumbnailLoadState::Ready;
                proof {
                    lemma_cached_bytes_update(old(self).items@, index as int, self.items@[index as int]);
                    assert(self.items@ =~= old(self).items@.update(index as int, self.items@[index as int]));
                }
            } else {
                proof {
                    lemma_cached_bytes_nonneg(self.items@);
                }
                self.cache_bytes = self.cache_bytes - self.items[index].byte_size;
                self.items[index].state = ThumbnailLoadState::Failed;
                self.items[index].image = None;
                self.items[index].byte_size = 0;
                self.items[index].target_size_px = 0;
                proof {
                    lemma_cached_bytes_update(old(self).items@, index as int, self.items@[index as int]);
                    assert(self.items@ =~= old(self).items@.update(index as int, self.items@[index as int]));
                }
            }
        }
    }

    /// Whether a decoded preview for item `index` (file `path`, at `target_size_px`) should
    /// be kept. A preview for another file is not; one of a size other than
    /// `current_target_px` is not either, and a still-queued item goes back to waiting.
    pub fn thumbnail_image_wanted(&mut self, index: usize, path: &str, target_size_px: u32, current_target_px: u32) -> (r: bool)
        requires
            old(self).wf(),
        ensures
            final(self).wf(),
            final(self).selected == old(self).selected,
            final(self).cache_stamp == old(self).cache_stamp,
            final(self).cache_bytes == old(self).cache_bytes,
            final(self).items@.len() == old(self).items@.len(),
            forall|i: int| 0 <= i < old(self).items@.len() && i != index ==> #[trigger] final(self).items@[i] == old(self).items@[i],
            r == (index < old(self).items@.len() && same_path(old(self).items@[index as int].path@, path@)
                && target_size_px == current_target_px),
            index < old(self).items@.len() ==> {
                let item = old(self).items@[index as int];
                final(self).items@[index as int] == (if same_path(item.path@, path@) && target_size_px
                    != current_target_px && item.state == ThumbnailLoadState::Queued {
                    ThumbnailItem { state: ThumbnailLoadState::Empty, ..item }
                } else {
                    item
                })
            },
    {
        if index >= self.items.len() {
            return false;
        }
        if !paths_equal(self.items[index].path.as_str(), path) {
            return false;
        }
        if target_size_px != current_target_px {
            if self.items[index].state == ThumbnailLoadState::Queued {
                self.items[index].state = ThumbnailLoadState::Empty;
                proof {
                    lemma_cached_bytes_update(old(self).items@, index as int, self.items@[index as int]);
                    assert(self.items@ =~= old(self).items@.update(index as int, self.items@[index as int]));
                }
            }
            return false;
        }
        true
    }

    /// After a change of the preview size to `target_size_px`: queued items and items whose
    /// preview has another size go back to waiting (their previews stay until replaced).
    pub fn reset_for_target_size(&mut self, target_size_px: u32)
        requires
            old(self).wf(),
        ensures
            final(self).wf(),
            final(self).selected == old(self).selected,
            final(self).cache_stamp == old(self).cache_stamp,
            final(self).cache_bytes == old(self).cache_bytes,
            final(self).items@.len() == old(self).items@.len(),
            forall|i: int| 0 <= i < old(self).items@.len() ==> {
                let item = #[trigger] old(self).items@[i];
                final(self).items@[i] == (if item.state == ThumbnailLoadState::Queued || (item.image is Some
                    && item.target_size_px != target_size_px) {
                    ThumbnailItem { state: ThumbnailLoadState::Empty, ..item }
                } else {
                    item
                })
            },
    {
        let count = self.items.len();
        let mut i: usize = 0;
        while i < count
            invariant
                count == self.items@.len() == old(self).items@.len(),
                i <= count,
                self.wf(),
                self.selected == old(self).selected,
                self.cache_stamp == old(self).cache_stamp,
                self.cache_bytes == old(self).cache_bytes,
                forall|j: int| i <= j < count ==> #[trigger] self.items@[j] == old(self).items@[j],
                forall|j: int| 0 <= j < i ==> {
                    let item = #[trigger] old(self).items@[j];
                    self.items@[j] == (if item.state == ThumbnailLoadState::Queued || (item.image is Some
                        && item.target_size_px != target_size_px) {
                        ThumbnailItem { state: ThumbnailLoadState::Empty, ..item }
                    } else {
                        item
                    })
                },
            decreases count - i,
        {
            if self.items[i].state == ThumbnailLoadState::Queued || (self.items[i].image.is_some()
                && self.items[i].target_size_px != target_size_px) {
                let ghost before = self.items@;
                self.items[i].state = ThumbnailLoadState::Empty;
                proof {
                    lemma_cached_bytes_update(before, i as int, self.items@[i as int]);
                }
            }
            i = i + 1;
        }
    }

    /// Puts every queued item back to waiting.
    fn requeue_queued(&mut self)
        requires
            old(self).wf(),
        ensures
            final(self).wf(),
            final(self).selected == old(self).selected,
            final(self).cache_stamp == old(self).cache_stamp,
            final(self).cache_bytes == old(self).cache_bytes,
            final(self).items@.len() == old(self).items@.len(),
            forall|i: int| 0 <= i < old(self).items@.len() ==> {
                let item = #[trigger] old(self).items@[i];
                final(self).items@[i] == (if item.state == ThumbnailLoadState::Queued {
                    ThumbnailItem { state: ThumbnailLoadState::Empty, ..item }
                } else {
                    item
                })
            },
    {
        let count = self.items.len();
        let mut i: usize = 0;
        while i < count
            invariant
                count == self.items@.len() == old(self).items@.len(),
                i <= count,
                self.wf(),
                self.selected == old(self).selected,
                self.cache_stamp == old(self).cache_stamp,
                self.cache_bytes == old(self).cache_bytes,
                forall|j: int| i <= j < count ==> #[trigger] self.items@[j] == old(self).items@[j],
                forall|j: int| 0 <= j < i ==> {
                    let item = #[trigger] old(self).items@[j];
                    self.items@[j] == (if item.state == ThumbnailLoadState::Queued {
                        ThumbnailItem { state: ThumbnailLoadState::Empty, ..item }
                    } else {
                        item
                    })
                },
            decreases count - i,
        {
            if self.items[i].state == ThumbnailLoadState::Queued {
                let ghost before = self.items@;
                self.items[i].state = ThumbnailLoadState::Empty;
                proof {
                    lemma_cached_bytes_update(before, i as int, self.items@[i as int]);
                    assert(self.items@ =~= before.update(i as int, self.items@[i as int]));
                }
            }
            i = i + 1;
        }
    }

    /// The previews to decode, in the load order `indices`: queued items are asked for
    /// again, the cache stamp advances, ready items that the pass looks at are stamped as
    /// used, and the pass stops once the queue capacity of requests is reached. Each request
    /// asks for `target_size_px`.
    pub fn thumbnail_requests(&mut self, indices: &Vec<usize>, target_size_px: u32) -> (r: Vec<ThumbnailRequest>)
        requires
            old(self).wf(),
            forall|k: int| 0 <= k < indices@.len() ==> #[trigger] indices@[k] < old(self).items@.len(),
        ensures
            final(self).wf(),
            final(self).selected == old(self).selected,
            final(self).cache_bytes == old(self).cache_bytes,
            final(self).cache_stamp == next_stamp(old(self).cache_stamp),
            final(self).items@.len() == old(self).items@.len(),
            ({
                let n = scan_length(old(self).items@, indices@, THUMBNAIL_QUEUE_CAPACITY as int);
                forall|i: int| 0 <= i < old(self).items@.len() ==> #[trigger] final(self).items@[i]
                    == item_after_requests(old(self).items@[i], looked_at(indices@, n, i), final(self).cache_stamp)
            }),
            ({
                let wanted = requested_indices(old(self).items@, indices@);
                &&& r@.len() == wanted.len()
                &&& forall|j: int| 0 <= j < r@.len() ==> {
                    &&& (#[trigger] r@[j]).index == wanted[j]
                    &&& r@[j].path == old(self).items@[wanted[j] as int].path
                    &&& r@[j].target_size_px == target_size_px
                }
            }),
            r@.len() <= THUMBNAIL_QUEUE_CAPACITY,
    {
        let ghost items0 = self.items@;
        self.requeue_queued();
        let ghost reset = self.items@;
        assert forall|i: int| 0 <= i < items0.len() implies wants_preview(#[trigger] reset[i]) == wants_preview(items0[i]) by {}
        proof {
            lemma_scan_same_wants(items0, reset, indices@, THUMBNAIL_QUEUE_CAPACITY as int);
            lemma_scan_length_bounds(items0, indices@, THUMBNAIL_QUEUE_CAPACITY as int);
            let n = scan_length(items0, indices@, THUMBNAIL_QUEUE_CAPACITY as int);
            assert forall|q: int| 0 <= q < indices@.take(n).len() implies #[trigger] indices@.take(n)[q] < items0.len() by {
                assert(indices@.take(n)[q] == indices@[q]);
            }
            lemma_wanted_same_wants(items0, reset, indices@.take(n));
            lemma_requested_bounded(items0, indices@, THUMBNAIL_QUEUE_CAPACITY as int);
        }
        self.cache_stamp = if self.cache_stamp == u64::MAX {
            0
        } else {
            self.cache_stamp + 1
        };
        let stamp = self.cache_stamp;
        let mut requests: Vec<ThumbnailRequest> = Vec::new();
        let count = indices.len();
        let mut k: usize = 0;
        assert(indices@.skip(0) =~= indices@);
        assert(indices@.take(0) =~= Seq::<usize>::empty());
        while k < count
            invariant_except_break
                requests@.len() < THUMBNAIL_QUEUE_CAPACITY,
                scan_length(reset, indices@, THUMBNAIL_QUEUE_CAPACITY as int) == k + scan_length(
                    reset,
                    indices@.skip(k as int),
                    THUMBNAIL_QUEUE_CAPACITY - requests@.len(),
                ),
            invariant
                count == indices@.len(),
                k <= count,
                self.wf(),
                self.selected == old(self).selected,
                self.cache_bytes == old(self).cache_bytes,
                self.cache_stamp == stamp,
                self.items@.len() == reset.len(),
                forall|i: int| 0 <= i < reset.len() ==> (#[trigger] reset[i]).state != ThumbnailLoadState::Queued,
                forall|q: int| 0 <= q < indices@.len() ==> #[trigger] indices@[q] < reset.len(),
                forall|i: int| 0 <= i < reset.len() ==> #[trigger] self.items@[i] == (if reset[i].state
                    == ThumbnailLoadState::Ready && looked_at(indices@, k as int, i) {
                    ThumbnailItem { last_used: stamp, ..reset[i] }
                } else {
                    reset[i]
                }),
                requests@.len() == wanted_indices(reset, indices@.take(k as int)).len(),
                forall|j: int| 0 <= j < requests@.len() ==> {
                    &&& (#[trigger] requests@[j]).index == wanted_indices(reset, indices@.take(k as int))[j]
                    &&& requests@[j].path == reset[requests@[j].index as int].path
                    &&& requests@[j].target_size_px == target_size_px
                },
            ensures
                k == scan_length(reset, indices@, THUMBNAIL_QUEUE_CAPACITY as int),
            decreases count - k,
        {
            let index = indices[k];
            let ghost before = self.items@;
            let ghost old_requests = requests@;
            proof {
                assert(indices@.take(k + 1).drop_last() =~= indices@.take(k as int));
                assert(indices@.take(k + 1).last() == index);
                assert(indices@.skip(k as int).drop_first() =~= indices@.skip(k + 1));
                assert(indices@.skip(k as int)[0] == index);
            }
            if self.items[index].state == ThumbnailLoadState::Ready {
                self.items[index].last_used = stamp;
                proof {
                    lemma_cached_bytes_update(before, index as int, self.items@[index as int]);
                    assert(self.items@ =~= before.update(index as int, self.items@[index as int]));
                }
            } else if self.items[index].state == ThumbnailLoadState::Empty {
                let path = self.items[index].path.clone();
                requests.push(ThumbnailRequest { index, path, target_size_px });
            }
            proof {
                assert forall|i: int| 0 <= i < reset.len() implies #[trigger] self.items@[i] == (if reset[i].state
                    == ThumbnailLoadState::Ready && looked_at(indices@, k + 1, i) {
                    ThumbnailItem { last_used: stamp, ..reset[i] }
                } else {
                    reset[i]
                }) by {
                    if i == index {
                        assert(indices@[k as int] as int == i);
                    } else {
                        if looked_at(indices@, k + 1, i) {
                            let q = choose|q: int| 0 <= q < k + 1 && #[trigger] indices@[q] as int == i;
                            assert(q < k);
                        }
                    }
                }
            }
            k = k + 1;
            if requests.len() == THUMBNAIL_QUEUE_CAPACITY {
                break;
            }
        }
        proof {
            assert forall|i: int| 0 <= i < old(self).items@.len() implies #[trigger] self.items@[i]
                == item_after_requests(old(self).items@[i], looked_at(indices@, k as int, i), stamp) by {}
            let wanted = wanted_indices(reset, indices@.take(k as int));
            assert(wanted == requested_indices(old(self).items@, indices@));
            assert forall|q: int| 0 <= q < indices@.take(k as int).len() implies #[trigger] indices@.take(k as int)[q] < reset.len() by {
                assert(indices@.take(k as int)[q] == indices@[q]);
            }
            lemma_wanted_bound(reset, indices@.take(k as int), reset.len() as int);
            assert forall|j: int| 0 <= j < requests@.len() implies requests@[j].path == old(self).items@[wanted[j] as int].path by {
                assert(wanted[j] < reset.len());
                assert(reset[wanted[j] as int] == (#[trigger] old(self).items@[wanted[j] as int]) || reset[wanted[j] as int].path == old(self).items@[wanted[j] as int].path);
            }
        }
        requests
    }

    /// The next item to evict, if any item may be evicted.
    fn next_eviction(&self) -> (r: Option<usize>)
        ensures
            r matches Some(i) ==> is_next_eviction(self.items@, self.selected, i as int),
            r is None ==> forall|j: int| !evictable(self.items@, self.selected, j),
    {
        let count = self.items.len();
        let mut best: Option<usize> = None;
        let mut i: usize = 0;
        while i < count
            invariant
                count == self.items@.len(),
                i <= count,
                best matches Some(b) ==> b < i && evictable(self.items@, self.selected, b as int) && forall|j: int|
                    0 <= j < i && evictable(self.items@, self.selected, j) && j != b ==> evicted_before(
                        self.items@,
                        b as int,
                        j,
                    ),
                best is None ==> forall|j: int| 0 <= j < i ==> !evictable(self.items@, self.selected, j),
            decreases count - i,
        {
            let is_selected = match self.selected {
                Some(s) => s == i,
                None => false,
            };
            let ghost previous = best;
            if self.items[i].image.is_some() && !is_selected {
                assert(evictable(self.items@, self.selected, i as int));
                match best {
                    Some(b) => {
                        if self.items[i].last_used < self.items[b].last_used {
                            best = Some(i);
                            assert forall|j: int|
                                0 <= j < i + 1 && evictable(self.items@, self.selected, j) && j != i implies evicted_before(
                                self.items@,
                                i as int,
                                j,
                            ) by {
                                if j != b {
                                    assert(evicted_before(self.items@, b as int, j));
                                }
                            }
                        } else {
                            assert(evicted_before(self.items@, b as int, i as int));
                        }
                    },
                    None => {
                        best = Some(i);
                    },
                }
            } else {
                assert(!evictable(self.items@, self.selected, i as int));
            }
            i = i + 1;
        }
        best
    }

    /// Drops the least recently used previews (never the selected item's) until the cache
    /// fits the budget or nothing more may be dropped.
    fn evict_thumbnail_cache(&mut self)
        requires
            old(self).wf(),
        ensures
            final(self).wf(),
            final(self).selected == old(self).selected,
            final(self).cache_stamp == old(self).cache_stamp,
            final(self).items@.len() == old(self).items@.len(),
            is_eviction(old(self).items@, old(self).selected, final(self).items@, final(self).cache_bytes as int),
    {
        let ghost given = self.items@;
        let ghost mut last: Option<int> = None;
        while self.cache_bytes > THUMBNAIL_CACHE_BUDGET_BYTES
            invariant
                self.wf(),
                self.selected == old(self).selected,
                self.cache_stamp == old(self).cache_stamp,
                given == old(self).items@,
                self.items@.len() == given.len(),
                forall|i: int| 0 <= i < given.len() ==> #[trigger] self.items@[i] == given[i] || (evictable(
                    given,
                    self.selected,
                    i,
                ) && self.items@[i] == without_preview(given[i])),
                forall|i: int, j: int|
                    #![trigger self.items@[i], evictable(self.items@, self.selected, j)]
                    evictable(given, self.selected, i) && self.items@[i] != given[i] && evictable(
                        self.items@,
                        self.selected,
                        j,
                    ) ==> evicted_before(given, i, j),
                forall|j: int| evictable(self.items@, self.selected, j) ==> self.items@[j] == given[j],
                last matches Some(l) ==> 0 <= l < given.len() && self.items@[l] != given[l]
                    && self.cache_bytes + given[l].byte_size > THUMBNAIL_CACHE_BUDGET_BYTES
                    && forall|j: int|
                    0 <= j < given.len() && #[trigger] self.items@[j] != given[j] && j != l ==> evicted_before(
                        given,
                        j,
                        l,
                    ),
                last is None ==> forall|i: int| 0 <= i < given.len() ==> #[trigger] self.items@[i] == given[i],
            ensures
                self.cache_bytes <= THUMBNAIL_CACHE_BUDGET_BYTES || forall|j: int| !evictable(
                    self.items@,
                    self.selected,
                    j,
                ),
            decreases preview_count(self.items@),
        {
            let candidate = self.next_eviction();
            let index = match candidate {
                Some(index) => index,
                None => break,
            };
            let ghost before = self.items@;
            let ghost before_cache = self.cache_bytes;
            proof {
                assert forall|j: int| 0 <= j < given.len() && #[trigger] before[j] != given[j] implies evicted_before(
                    given,
                    j,
                    index as int,
                ) by {
                    assert(evictable(given, self.selected, j));
                    assert(evictable(before, self.selected, index as int));
                }
                lemma_cached_bytes_nonneg(self.items@);
                lemma_preview_count_drop(self.items@, index as int);
            }
            self.cache_bytes = self.cache_bytes - self.items[index].byte_size;
            if self.items[index].state == ThumbnailLoadState::Ready {
                self.items[index].state = ThumbnailLoadState::Empty;
            }
            self.items[index].image = None;
            self.items[index].byte_size = 0;
            self.items[index].target_size_px = 0;
            proof {
                assert(self.items@ =~= before.update(index as int, without_preview(before[index as int])));
                lemma_cached_bytes_update(before, index as int, without_preview(before[index as int]));
                assert(before[index as int] == given[index as int]);
                last = Some(index as int);
                assert forall|i: int, j: int|
                    #![trigger self.items@[i], evictable(self.items@, self.selected, j)]
                    evictable(given, self.selected, i) && self.items@[i] != given[i] && evictable(
                        self.items@,
                        self.selected,
                        j,
                    ) implies evicted_before(given, i, j) by {
                    assert(evictable(before, self.selected, j));
                    assert(before[j] == given[j]);
                    if i == index {
                        assert(evicted_before(before, i, j));
                    } else {
                        assert(before[i] != given[i]);
                    }
                }
            }
        }
    }

    /// Stores the decoded preview `image` (`byte_size` bytes, decoded at `target_size_px`)
    /// for item `index`: the cache stamp advances, the item becomes ready and most recently
    /// used, the cache total follows, and then the least recently used previews are
    /// evicted down to the budget.
    pub fn store_thumbnail_image(&mut self, index: usize, image: I, byte_size: usize, target_size_px: u32)
        requires
            old(self).wf(),
            index < old(self).items@.len(),
            old(self).cache_bytes - old(self).items@[index as int].byte_size + byte_size <= usize::MAX,
        ensures
            final(self).wf(),
            final(self).selected == old(self).selected,
            final(self).cache_stamp == next_stamp(old(self).cache_stamp),
            is_eviction(
                old(self).items@.update(
                    index as int,
                    ThumbnailItem {
                        state: ThumbnailLoadState::Ready,
                        image: Some(image),
                        byte_size,
                        target_size_px,
                        last_used: final(self).cache_stamp,
                        ..old(self).items@[index as int]
                    },
                ),
                old(self).selected,
                final(self).items@,
                final(self).cache_bytes as int,
            ),
    {
        self.cache_stamp = if self.cache_stamp == u64::MAX {
            0
        } else {
            self.cache_stamp + 1
        };
        proof {
            lemma_cached_bytes_nonneg(self.items@);
        }
        self.cache_bytes = self.cache_bytes - self.items[index].byte_size + byte_size;
        let ghost before = self.items@;
        self.items[index].state = ThumbnailLoadState::Ready;
        self.items[index].image = Some(image);
        self.items[index].byte_size = byte_size;
        self.items[index].target_size_px = target_size_px;
        self.items[index].last_used = self.cache_stamp;
        proof {
            assert(self.items@ =~= before.update(index as int, self.items@[index as int]));
            lemma_cached_bytes_update(before, index as int, self.items@[index as int]);
        }
        self.evict_thumbnail_cache();
    }

    /// Removes the first item that is the file `path` (ignoring ASCII case), with its
    /// preview, and selects the item that takes its place, or the new last item. Returns
    /// the path of the newly selected item; none, with nothing changed, when no item is
    /// `path`, and none when no item is left.
    pub fn remove_thumbnail_and_select_neighbor(&mut self, path: &str) -> (r: Option<String>)
        requires
            old(self).wf(),
        ensures
            final(self).wf(),
            final(self).cache_stamp == old(self).cache_stamp,
            (forall|i: int| 0 <= i < old(self).items@.len() ==> !same_path(
                (#[trigger] old(self).items@[i]).path@,
                path@,
            )) ==> {
                &&& final(self).items@ == old(self).items@
                &&& final(self).selected == old(self).selected
                &&& final(self).cache_bytes == old(self).cache_bytes
                &&& r is None
            },
            forall|i: int|
                0 <= i < old(self).items@.len() && same_path((#[trigger] old(self).items@[i]).path@, path@)
                    && (forall|j: int| 0 <= j < i ==> !same_path(old(self).items@[j].path@, path@)) ==> {
                    &&& final(self).items@ == old(self).items@.remove(i)
                    &&& final(self).cache_bytes == old(self).cache_bytes - old(self).items@[i].byte_size
                    &&& final(self).items@.len() == 0 ==> final(self).selected is None && r is None
                    &&& final(self).items@.len() > 0 ==> {
                        let s = if i < final(self).items@.len() { i } else { final(self).items@.len() - 1 };
                        &&& final(self).selected == Some(s as usize)
                        &&& r == Some(final(self).items@[s].path)
                    }
                },
    {
        let count = self.items.len();
        let mut index: usize = 0;
        let mut found = false;
        while !found && index < count
            invariant
                count == self.items@.len(),
                index <= count,
                forall|j: int| 0 <= j < index ==> !same_path(#[trigger] self.items@[j].path@, path@),
                found ==> index < count && same_path(self.items@[index as int].path@, path@),
            decreases count - index + (if found { 0int } else { 1int }),
        {
            if paths_equal(self.items[index].path.as_str(), path) {
                found = true;
            } else {
                index = index + 1;
            }
        }
        if !found {
            return None;
        }
        let ghost before = self.items@;
        proof {
            lemma_cached_bytes_nonneg(self.items@);
            lemma_cached_bytes_remove(self.items@, index as int);
            assert forall|i: int|
                0 <= i < before.len() && same_path((#[trigger] before[i]).path@, path@) && (forall|j: int|
                    0 <= j < i ==> !same_path(before[j].path@, path@)) implies i == index by {
                if i > index {
                    assert(!same_path(before[index as int].path@, path@));
                }
            }
        }
        let removed = self.items.remove(index);
        self.cache_bytes = self.cache_bytes - removed.byte_size;
        proof {
            assert forall|k: int| 0 <= k < self.items@.len() implies #[trigger] self.items@[k]
                == before[if k < index { k } else { k + 1 }] by {}
        }
        let remaining = self.items.len();
        if remaining == 0 {
            self.selected = None;
            return None;
        }
        let next = if index < remaining { index } else { remaining - 1 };
        self.selected = Some(next);
        Some(self.items[next].path.clone())
    }
}

} // verus!

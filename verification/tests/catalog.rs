use purepic::catalog::{paths_equal, ImageNavigation, ThumbnailCatalog, ThumbnailLoadState};
use purepic::thumbnail::{THUMBNAIL_CACHE_BUDGET_BYTES, THUMBNAIL_QUEUE_CAPACITY};

fn catalog_of(count: usize, current: &str) -> ThumbnailCatalog<u32> {
    let mut catalog = ThumbnailCatalog::new();
    let paths = (0..count).map(|index| format!(r"C:\Photos\{index}.jpg")).collect();
    catalog.set_thumbnail_catalog(paths, current);
    catalog
}

#[test]
fn the_opened_image_is_selected_ignoring_case() {
    let catalog = catalog_of(5, r"c:\photos\3.JPG");
    assert_eq!(catalog.selected, Some(3));
    assert!(catalog.items.iter().all(|item| item.state == ThumbnailLoadState::Empty));
    assert_eq!(catalog.thumbnail_path(4).as_deref(), Some(r"C:\Photos\4.jpg"));
    assert_eq!(catalog.thumbnail_path(5), None);
    assert_eq!(catalog_of(5, r"C:\Elsewhere\3.jpg").selected, None);
}

#[test]
fn neighbours_of_the_selection() {
    let mut catalog = catalog_of(3, r"C:\Photos\0.jpg");
    assert_eq!(catalog.adjacent_thumbnail_index(-1), None);
    assert_eq!(catalog.adjacent_thumbnail_index(1), Some(1));
    assert!(!catalog.navigation_available(ImageNavigation::Previous));
    catalog.select_thumbnail(2);
    assert_eq!(catalog.navigation_index(ImageNavigation::Previous), Some(1));
    assert_eq!(catalog.navigation_index(ImageNavigation::Next), None);
    catalog.select_thumbnail(9);
    assert_eq!(catalog.selected, Some(2));
}

#[test]
fn requests_follow_the_load_order_up_to_the_queue_capacity() {
    let mut catalog = catalog_of(40, r"C:\Photos\0.jpg");
    let indices: Vec<usize> = (0..40).rev().collect();
    let requests = catalog.thumbnail_requests(&indices, 88);
    assert_eq!(requests.len(), THUMBNAIL_QUEUE_CAPACITY);
    assert_eq!(requests[0].index, 39);
    assert_eq!(requests[0].path, r"C:\Photos\39.jpg");
    assert!(requests.iter().all(|request| request.target_size_px == 88));
    for request in &requests {
        catalog.mark_thumbnail_queued(request.index, &request.path);
    }
    assert_eq!(catalog.items[39].state, ThumbnailLoadState::Queued);
    assert_eq!(catalog.items[0].state, ThumbnailLoadState::Empty);
}

#[test]
fn stored_previews_are_ready_and_skipped_by_later_requests() {
    let mut catalog = catalog_of(3, r"C:\Photos\0.jpg");
    assert!(catalog.thumbnail_image_wanted(1, r"C:\Photos\1.jpg", 88, 88));
    catalog.store_thumbnail_image(1, 7, 1000, 88);
    assert_eq!(catalog.items[1].state, ThumbnailLoadState::Ready);
    assert_eq!(catalog.items[1].image, Some(7));
    assert_eq!(catalog.cache_bytes, 1000);
    let requests = catalog.thumbnail_requests(&vec![0, 1, 2], 88);
    let indices: Vec<usize> = requests.iter().map(|request| request.index).collect();
    assert_eq!(indices, [0, 2]);
}

#[test]
fn cache_evicts_the_least_recently_used_previews_but_not_the_selection() {
    let mut catalog = catalog_of(4, r"C:\Photos\0.jpg");
    let size = THUMBNAIL_CACHE_BUDGET_BYTES / 3 + 1;
    catalog.store_thumbnail_image(0, 10, size, 88);
    catalog.store_thumbnail_image(1, 11, size, 88);
    catalog.store_thumbnail_image(2, 12, size, 88);
    assert_eq!(catalog.items[0].image, Some(10));
    assert_eq!(catalog.items[1].image, None);
    assert_eq!(catalog.items[1].state, ThumbnailLoadState::Empty);
    assert_eq!(catalog.items[2].image, Some(12));
    assert_eq!(catalog.cache_bytes, 2 * size);
    assert!(catalog.cache_bytes <= THUMBNAIL_CACHE_BUDGET_BYTES);
}

#[test]
fn failures_and_stale_results() {
    let mut catalog = catalog_of(3, r"C:\Photos\0.jpg");
    catalog.mark_thumbnail_queued(1, r"C:\Photos\1.jpg");
    assert!(!catalog.thumbnail_image_wanted(1, r"C:\Photos\1.jpg", 44, 88));
    assert_eq!(catalog.items[1].state, ThumbnailLoadState::Empty);
    catalog.set_thumbnail_failed(2, r"C:\Photos\2.jpg", 88, 88);
    assert_eq!(catalog.items[2].state, ThumbnailLoadState::Failed);
    catalog.set_thumbnail_failed(0, r"C:\Photos\other.jpg", 88, 88);
    assert_eq!(catalog.items[0].state, ThumbnailLoadState::Empty);
}

#[test]
fn a_new_preview_size_requeues_previews_of_the_old_size() {
    let mut catalog = catalog_of(2, r"C:\Photos\0.jpg");
    catalog.store_thumbnail_image(0, 1, 100, 88);
    catalog.reset_for_target_size(176);
    assert_eq!(catalog.items[0].state, ThumbnailLoadState::Empty);
    assert_eq!(catalog.items[0].image, Some(1));
}

#[test]
fn paths_compare_ignoring_ascii_case_only() {
    assert!(paths_equal(r"C:\Photos\A.JPG", r"c:\photos\a.jpg"));
    assert!(!paths_equal(r"C:\Photos\Ä.jpg", r"C:\Photos\ä.jpg"));
    assert!(!paths_equal("a.jpg", "a.jpeg"));
}

#[test]
fn deleting_an_image_selects_the_one_that_takes_its_place() {
    let mut catalog = catalog_of(3, r"C:\Photos\1.jpg");
    catalog.store_thumbnail_image(1, 5, 400, 88);
    let next = catalog.remove_thumbnail_and_select_neighbor(r"c:\photos\1.JPG");
    assert_eq!(next.as_deref(), Some(r"C:\Photos\2.jpg"));
    assert_eq!(catalog.selected, Some(1));
    assert_eq!(catalog.items.len(), 2);
    assert_eq!(catalog.cache_bytes, 0);
}

#[test]
fn deleting_the_last_image_selects_the_new_last_one() {
    let mut catalog = catalog_of(3, r"C:\Photos\2.jpg");
    let next = catalog.remove_thumbnail_and_select_neighbor(r"C:\Photos\2.jpg");
    assert_eq!(next.as_deref(), Some(r"C:\Photos\1.jpg"));
    assert_eq!(catalog.selected, Some(1));
}

#[test]
fn deleting_an_unknown_or_only_image() {
    let mut catalog = catalog_of(1, r"C:\Photos\0.jpg");
    assert_eq!(catalog.remove_thumbnail_and_select_neighbor(r"C:\Photos\9.jpg"), None);
    assert_eq!(catalog.items.len(), 1);
    assert_eq!(catalog.selected, Some(0));
    assert_eq!(catalog.remove_thumbnail_and_select_neighbor(r"C:\Photos\0.jpg"), None);
    assert!(catalog.items.is_empty());
    assert_eq!(catalog.selected, None);
}

#[test]
fn eviction_drops_no_more_than_the_budget_needs() {
    let mut catalog = catalog_of(4, r"C:\Photos\0.jpg");
    catalog.store_thumbnail_image(1, 11, 30 * 1024 * 1024, 88);
    catalog.store_thumbnail_image(2, 12, 1024, 88);
    catalog.store_thumbnail_image(3, 13, 3 * 1024 * 1024, 88);
    assert_eq!(catalog.items[1].image, None);
    assert_eq!(catalog.items[2].image, Some(12));
    assert_eq!(catalog.items[3].image, Some(13));
    assert_eq!(catalog.cache_bytes, 3 * 1024 * 1024 + 1024);
}

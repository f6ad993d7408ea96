use std::cmp::Ordering;

use purepic::thumbnail::{
    file_name_key, is_supported_extension, is_supported_image, natural_path_compare,
    prefetch_range, prioritized_thumbnail_indices, ThumbnailDock,
};

#[test]
fn natural_sort_orders_numeric_file_names() {
    let mut paths = [
        String::from("10.jpg"),
        String::from("2.jpg"),
        String::from("01.jpg"),
        String::from("1.jpg"),
    ];
    paths.sort_by(|left, right| natural_path_compare(left, right));
    assert_eq!(paths, ["1.jpg", "01.jpg", "2.jpg", "10.jpg"]);
}

#[test]
fn visible_range_prefetches_one_viewport_on_each_side() {
    // 100 items, the first visible one is 10, six are visible and five are prefetched.
    assert_eq!(prefetch_range(100, 10, 6, 5), (5, 21));
}

#[test]
fn prefetch_range_stays_inside_the_strip() {
    assert_eq!(prefetch_range(12, 8, 6, 5), (3, 12));
    assert_eq!(prefetch_range(0, 0, 6, 5), (0, 0));
}

#[test]
fn prioritized_indices_load_selection_and_visible_items_before_prefetch() {
    assert_eq!(
        prioritized_thumbnail_indices(100, 10, 6, 5, Some(50)),
        [50, 49, 51, 10, 11, 12, 13, 14, 15, 9, 8, 7, 6, 5, 16, 17, 18, 19, 20]
    );
}

#[test]
fn prioritized_indices_skip_duplicates_and_the_ends_of_the_strip() {
    assert_eq!(
        prioritized_thumbnail_indices(5, 0, 3, 2, Some(0)),
        [0, 1, 2, 3, 4]
    );
    assert_eq!(prioritized_thumbnail_indices(0, 0, 3, 2, None), Vec::<usize>::new());
}

#[test]
fn supported_extensions_are_case_insensitive() {
    assert!(is_supported_image("photo.JPEG"));
    assert!(is_supported_image("image.png"));
    assert!(!is_supported_image("notes.txt"));
}

#[test]
fn extension_is_taken_after_the_last_dot() {
    assert!(is_supported_image("archive.tar.webp"));
    assert!(!is_supported_image("png"));
    assert!(!is_supported_image("picture.png.bak"));
    assert!(is_supported_extension("TiFf"));
    assert!(!is_supported_extension("svg"));
}

#[test]
fn paths_are_compared_by_file_name_only() {
    assert_eq!(natural_path_compare("z/1.jpg", "a/2.jpg"), Ordering::Less);
    assert_eq!(file_name_key("photos/summer/3.png"), "3.png");
}

#[test]
fn dock_orientation() {
    assert!(ThumbnailDock::Top.is_horizontal());
    assert!(ThumbnailDock::Bottom.is_horizontal());
    assert!(!ThumbnailDock::Left.is_horizontal());
    assert!(!ThumbnailDock::Right.is_horizontal());
    assert_eq!(ThumbnailDock::default(), ThumbnailDock::Bottom);
}

#[test]
fn bare_file_names_use_the_text_after_their_last_dot() {
    assert!(is_supported_image("holiday.2024.GIF"));
    assert!(!is_supported_image(".png"));
    assert!(!is_supported_image("png."));
    assert!(!is_supported_image(".."));
}

#[test]
fn full_paths_are_ordered_and_filtered_by_their_file_names() {
    assert_eq!(natural_path_compare("b/2.jpg", "a/10.jpg"), Ordering::Less);
    assert_eq!(natural_path_compare("/photos/IMG_10.png", "/archive/img_9.png"), Ordering::Greater);
    assert_eq!(file_name_key("/home/me/Pictures/cat.jpeg"), "cat.jpeg");
    assert!(is_supported_image("/home/me/Pictures/cat.WEBP"));
    assert!(!is_supported_image("/home/me/photos.png/notes"));
    assert!(!is_supported_image("/home/me/.png"));
}

#[test]
fn windows_paths_are_filtered_by_the_text_after_their_last_dot() {
    assert!(is_supported_image("C:\\images\\photo.png"));
    assert!(is_supported_image("D:\\Pictures\\2024\\Holiday.JPEG"));
    assert!(is_supported_image("C:photo.PNG"));
    assert!(is_supported_image("C:\\mixed/separators\\cat.webp"));
    assert!(!is_supported_image("C:\\images\\notes.txt"));
    assert!(!is_supported_image("C:\\images\\photo.png.bak"));
}

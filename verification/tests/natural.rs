use std::cmp::Ordering;

use purepic::natural::{compare_file_names, natural_compare};
use purepic::sorting::sort_by_file_name;
use purepic::thumbnail::file_name_key;

#[test]
fn digit_runs_compare_by_value() {
    assert_eq!(natural_compare("img2", "img10"), Ordering::Less);
    assert_eq!(natural_compare("img10", "img2"), Ordering::Greater);
    assert_eq!(natural_compare("a1b", "a1b"), Ordering::Equal);
}

#[test]
fn fewer_leading_zeroes_come_first_among_equal_numbers() {
    assert_eq!(natural_compare("1", "01"), Ordering::Less);
    assert_eq!(natural_compare("007", "7"), Ordering::Greater);
}

#[test]
fn a_prefix_comes_first() {
    assert_eq!(natural_compare("photo", "photo1"), Ordering::Less);
    assert_eq!(natural_compare("", "a"), Ordering::Less);
}

#[test]
fn file_names_compare_ignoring_case() {
    assert_eq!(compare_file_names("a.jpg", "B.jpg"), Ordering::Less);
    assert_eq!(compare_file_names("IMG_9.png", "img_10.png"), Ordering::Less);
    assert_eq!(compare_file_names("Photo.JPG", "photo.jpg"), Ordering::Equal);
}

#[test]
fn comparison_is_antisymmetric_and_transitive_on_examples() {
    let names = ["a10", "a9", "A09", "b", "a", "a9b", "10", "9", "_"];
    for x in names {
        for y in names {
            assert_eq!(compare_file_names(x, y), compare_file_names(y, x).reverse());
            for z in names {
                if compare_file_names(x, y) == Ordering::Less
                    && compare_file_names(y, z) == Ordering::Less
                {
                    assert_eq!(compare_file_names(x, z), Ordering::Less);
                }
            }
        }
    }
}

#[test]
fn directory_listing_sorts_by_file_name() {
    let paths = ["b/10.jpg", "a/2.jpg", "c/01.jpg", "d/1.jpg", "e/B.png", "f/a.png"];
    let entries = paths
        .iter()
        .map(|path| (file_name_key(path), path.to_string()))
        .collect();
    let sorted: Vec<String> = sort_by_file_name(entries).into_iter().map(|entry| entry.1).collect();
    assert_eq!(sorted, ["d/1.jpg", "c/01.jpg", "a/2.jpg", "b/10.jpg", "f/a.png", "e/B.png"]);
}

#[test]
fn names_that_tie_keep_their_listing_order() {
    let paths = ["x/B.png", "y/a.png", "z/b.PNG", "w/A.png"];
    let entries = paths
        .iter()
        .map(|path| (file_name_key(path), path.to_string()))
        .collect();
    let sorted: Vec<String> = sort_by_file_name(entries).into_iter().map(|entry| entry.1).collect();
    assert_eq!(sorted, ["y/a.png", "w/A.png", "x/B.png", "z/b.PNG"]);
}

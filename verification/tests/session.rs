use purepic::session::LoadGenerations;

#[test]
fn a_newer_request_makes_older_results_stale() {
    let mut generations = LoadGenerations::new();
    assert!(generations.is_current_image(1));
    let second = generations.next_image_request();
    assert_eq!(second, 2);
    assert!(!generations.is_current_image(1));
    assert!(generations.is_current_image(2));
}

#[test]
fn the_directory_is_scanned_once() {
    let mut generations = LoadGenerations::new();
    assert_eq!(generations.image_shown(), Some(1));
    assert!(generations.is_current_directory(1));
    assert_eq!(generations.image_shown(), None);
    assert_eq!(generations.directory, 1);
}

#[test]
fn deleting_the_image_drops_results_in_flight() {
    let mut generations = LoadGenerations::new();
    generations.image_shown();
    generations.image_deleted();
    assert!(!generations.is_current_image(1));
    assert!(!generations.is_current_directory(1));
    assert!(generations.directory_scan_started);
    let mut wrapped = LoadGenerations { image: u64::MAX, directory: u64::MAX, directory_scan_started: true };
    wrapped.image_deleted();
    assert_eq!((wrapped.image, wrapped.directory), (0, 0));
}

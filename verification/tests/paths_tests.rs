use archive_unrar::paths::{is_absolute, join};

#[test]
fn absoluteness_means_a_leading_separator() {
    assert!(is_absolute(&b"/etc".to_vec()));
    assert!(is_absolute(&b"/".to_vec()));
    assert!(!is_absolute(&b"etc".to_vec()));
    assert!(!is_absolute(&b"".to_vec()));
    assert!(!is_absolute(&b"a/b".to_vec()));
}

#[test]
fn join_inserts_a_separator_when_needed() {
    assert_eq!(join(&b"/srv/tv".to_vec(), &b"shows/s1".to_vec()), b"/srv/tv/shows/s1".to_vec());
}

#[test]
fn join_keeps_an_existing_trailing_separator() {
    assert_eq!(join(&b"/srv/tv/".to_vec(), &b"shows".to_vec()), b"/srv/tv/shows".to_vec());
}

#[test]
fn join_onto_an_empty_root_is_the_sub_path() {
    assert_eq!(join(&b"".to_vec(), &b"shows".to_vec()), b"shows".to_vec());
}

#[test]
fn join_with_an_absolute_sub_path_replaces_the_root() {
    assert_eq!(join(&b"/srv/tv".to_vec(), &b"/etc".to_vec()), b"/etc".to_vec());
}

#[test]
fn join_is_purely_logical_and_keeps_dot_dot_segments() {
    assert_eq!(join(&b"/srv/tv".to_vec(), &b"../x".to_vec()), b"/srv/tv/../x".to_vec());
}

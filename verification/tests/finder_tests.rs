use archive_unrar::finder::{find_rar, has_rar_extension, FsEntry};

fn file(path: &str) -> FsEntry {
    FsEntry { path: path.as_bytes().to_vec(), is_regular_file: true }
}

fn non_file(path: &str) -> FsEntry {
    FsEntry { path: path.as_bytes().to_vec(), is_regular_file: false }
}

#[test]
fn empty_listing_finds_nothing() {
    assert_eq!(find_rar(&vec![]), None);
}

#[test]
fn listing_without_archives_finds_nothing() {
    let listing = vec![file("readme.txt"), file("cover.jpg"), file("rarfile")];
    assert_eq!(find_rar(&listing), None);
}

#[test]
fn first_archive_in_listing_order_wins() {
    let listing = vec![file("notes.md"), file("b.rar"), file("a.rar")];
    assert_eq!(find_rar(&listing), Some(b"b.rar".to_vec()));
}

#[test]
fn non_regular_entries_are_never_returned() {
    let listing = vec![non_file("dir.rar"), file("real.rar")];
    assert_eq!(find_rar(&listing), Some(b"real.rar".to_vec()));
    let only_dir = vec![non_file("dir.rar")];
    assert_eq!(find_rar(&only_dir), None);
}

#[test]
fn extension_match_is_case_sensitive() {
    assert!(has_rar_extension(&b"movie.rar".to_vec()));
    assert!(!has_rar_extension(&b"movie.RAR".to_vec()));
    assert!(!has_rar_extension(&b"movie.Rar".to_vec()));
}

#[test]
fn extension_is_what_follows_the_last_dot() {
    assert!(has_rar_extension(&b"name.part1.rar".to_vec()));
    assert!(!has_rar_extension(&b"name.rar.txt".to_vec()));
    assert!(!has_rar_extension(&b"name.rarx".to_vec()));
    assert!(!has_rar_extension(&b"name.ra".to_vec()));
    assert!(!has_rar_extension(&b"name.".to_vec()));
}

#[test]
fn files_without_an_extension_never_match() {
    assert!(!has_rar_extension(&b"rar".to_vec()));
    assert!(!has_rar_extension(&b"archive".to_vec()));
    // a leading dot marks a hidden name, not an extension
    assert!(!has_rar_extension(&b".rar".to_vec()));
    assert!(!has_rar_extension(&b"/tmp/.rar".to_vec()));
}

#[test]
fn extension_is_read_from_the_file_name_alone() {
    assert!(has_rar_extension(&b"/tmp/m/heist.rar".to_vec()));
    assert!(!has_rar_extension(&b"/tmp/m.rar/heist.txt".to_vec()));
}

#[test]
fn full_paths_are_returned_as_listed() {
    let listing = vec![file("/tmp/m/notes.txt"), file("/tmp/m/heist.rar")];
    assert_eq!(find_rar(&listing), Some(b"/tmp/m/heist.rar".to_vec()));
}

use archive_unrar::dispatch::{
    env_var_name, on_compose, on_env_value, on_listing, on_unpacked, start_run, DispatchState,
};
use archive_unrar::finder::FsEntry;
use archive_unrar::Mode;

fn tokens(items: &[&str]) -> Vec<Vec<u8>> {
    items.iter().map(|s| s.as_bytes().to_vec()).collect()
}

fn file(path: &str) -> FsEntry {
    FsEntry { path: path.as_bytes().to_vec(), is_regular_file: true }
}

#[test]
fn s1_movie_happy_path() {
    let state = start_run(&tokens(&["-m"]));
    match &state {
        DispatchState::Resolving { mode, sub_path, episode_cap } => {
            assert_eq!(*mode, Mode::Movie);
            assert!(sub_path.is_none());
            assert!(episode_cap.is_none());
            assert_eq!(env_var_name(*mode), b"MOVIES".to_vec());
        }
        _ => panic!("expected Resolving"),
    }
    let state = on_env_value(state, Some(b"/srv/movies".to_vec()));
    let state = on_compose(state);
    match &state {
        DispatchState::Scanning { destination, .. } => {
            assert_eq!(destination, &b"/srv/movies".to_vec());
        }
        _ => panic!("expected Scanning"),
    }
    let listing = vec![file("/tmp/m/heist.rar")];
    let state = on_listing(state, Some(listing));
    match &state {
        DispatchState::Unpacking { source, destination, .. } => {
            assert_eq!(source, &b"/tmp/m/heist.rar".to_vec());
            assert_eq!(destination, &b"/srv/movies".to_vec());
        }
        _ => panic!("expected Unpacking"),
    }
    let state = on_unpacked(state, true, 0);
    match state {
        DispatchState::Done { code } => assert_eq!(code, 0),
        _ => panic!("expected Done"),
    }
}

#[test]
fn s2_tv_with_sub_path() {
    let state = start_run(&tokens(&["-d", "shows/s1"]));
    match &state {
        DispatchState::Resolving { mode, sub_path, .. } => {
            assert_eq!(*mode, Mode::Tv);
            assert_eq!(sub_path.as_ref().unwrap(), &b"shows/s1".to_vec());
            assert_eq!(env_var_name(*mode), b"TV".to_vec());
        }
        _ => panic!("expected Resolving"),
    }
    let state = on_env_value(state, Some(b"/srv/tv".to_vec()));
    let state = on_compose(state);
    match &state {
        DispatchState::Scanning { destination, .. } => {
            assert_eq!(destination, &b"/srv/tv/shows/s1".to_vec());
        }
        _ => panic!("expected Scanning"),
    }
    let state = on_listing(state, Some(vec![file("/home/u/show.rar")]));
    let state = on_unpacked(state, true, 0);
    match state {
        DispatchState::Done { code } => assert_eq!(code, 0),
        _ => panic!("expected Done"),
    }
}

#[test]
fn s3_absolute_sub_path_exits_three_before_any_scan() {
    let state = start_run(&tokens(&["-d", "/etc"]));
    let state = on_env_value(state, Some(b"/srv/tv".to_vec()));
    let state = on_compose(state);
    match state {
        DispatchState::Done { code } => assert_eq!(code, 3),
        _ => panic!("expected Done before any directory scan"),
    }
}

#[test]
fn s4_missing_env_exits_one() {
    let state = start_run(&tokens(&["-m"]));
    match &state {
        DispatchState::Resolving { mode, .. } => {
            // the diagnostic names the unbound variable
            assert_eq!(env_var_name(*mode), b"MOVIES".to_vec());
        }
        _ => panic!("expected Resolving"),
    }
    let state = on_env_value(state, None);
    match state {
        DispatchState::Done { code } => assert_eq!(code, 1),
        _ => panic!("expected Done"),
    }
}

#[test]
fn s5_no_archive_exits_five() {
    let state = start_run(&tokens(&["-m"]));
    let state = on_env_value(state, Some(b"/srv/movies".to_vec()));
    let state = on_compose(state);
    let listing = vec![file("readme.txt"), file("cover.jpg")];
    let state = on_listing(state, Some(listing));
    match state {
        DispatchState::Done { code } => assert_eq!(code, 5),
        _ => panic!("expected Done"),
    }
}

#[test]
fn s6_bad_count_exits_two() {
    let state = start_run(&tokens(&["-c", "twelve"]));
    match state {
        DispatchState::Done { code } => assert_eq!(code, 2),
        _ => panic!("expected Done"),
    }
}

#[test]
fn s6_bad_count_exits_two_regardless_of_mode() {
    let state = start_run(&tokens(&["-m", "-c", "twelve"]));
    match state {
        DispatchState::Done { code } => assert_eq!(code, 2),
        _ => panic!("expected Done"),
    }
    let state = start_run(&tokens(&["-c", "twelve", "-d", "x"]));
    match state {
        DispatchState::Done { code } => assert_eq!(code, 2),
        _ => panic!("expected Done"),
    }
}

#[test]
fn unreadable_directory_exits_four() {
    let state = start_run(&tokens(&["-m"]));
    let state = on_env_value(state, Some(b"/srv/movies".to_vec()));
    let state = on_compose(state);
    let state = on_listing(state, None);
    match state {
        DispatchState::Done { code } => assert_eq!(code, 4),
        _ => panic!("expected Done"),
    }
}

#[test]
fn unpack_failure_surfaces_external_code() {
    let state = start_run(&tokens(&["-m"]));
    let state = on_env_value(state, Some(b"/srv/movies".to_vec()));
    let state = on_compose(state);
    let state = on_listing(state, Some(vec![file("a.rar")]));
    let state = on_unpacked(state, false, 7);
    match state {
        DispatchState::Done { code } => assert_eq!(code, 7),
        _ => panic!("expected Done"),
    }
}

#[test]
fn usage_error_exits_nonzero() {
    let state = start_run(&tokens(&["--frobnicate"]));
    match state {
        DispatchState::Done { code } => {
            assert_ne!(code, 0);
            assert_eq!(code, archive_unrar::dispatch::USAGE_EXIT_CODE);
        }
        _ => panic!("expected Done"),
    }
}

#[test]
fn episode_cap_is_carried_through_tv_mode() {
    let state = start_run(&tokens(&["-c", "3", "-d", "s2"]));
    match &state {
        DispatchState::Resolving { mode, episode_cap, .. } => {
            assert_eq!(*mode, Mode::Tv);
            assert_eq!(*episode_cap, Some(3));
        }
        _ => panic!("expected Resolving"),
    }
    let state = on_env_value(state, Some(b"/srv/tv".to_vec()));
    let state = on_compose(state);
    let state = on_listing(state, Some(vec![file("e.rar")]));
    match state {
        DispatchState::Unpacking { episode_cap, .. } => assert_eq!(episode_cap, Some(3)),
        _ => panic!("expected Unpacking"),
    }
}

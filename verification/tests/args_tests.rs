use archive_unrar::args::{parse_episode_count, parse_invocation, CliError, Invocation};
use archive_unrar::Mode;

fn tokens(items: &[&str]) -> Vec<Vec<u8>> {
    items.iter().map(|s| s.as_bytes().to_vec()).collect()
}

#[test]
fn empty_invocation_is_tv_mode_with_nothing_set() {
    let r = parse_invocation(&tokens(&[])).unwrap();
    assert_eq!(r.mode, Mode::Tv);
    assert!(r.sub_path.is_none());
    assert!(r.episode_cap.is_none());
}

#[test]
fn movie_flag_short_and_long_select_movie_mode() {
    let r = parse_invocation(&tokens(&["-m"])).unwrap();
    assert_eq!(r.mode, Mode::Movie);
    let r = parse_invocation(&tokens(&["--movie"])).unwrap();
    assert_eq!(r.mode, Mode::Movie);
}

#[test]
fn absence_of_movie_flag_selects_tv_mode() {
    let r = parse_invocation(&tokens(&["-d", "x", "-c", "2"])).unwrap();
    assert_eq!(r.mode, Mode::Tv);
}

#[test]
fn movie_flag_takes_no_payload() {
    // the token after the flag is parsed on its own, not consumed
    let e = parse_invocation(&tokens(&["-m", "payload"]));
    assert_eq!(e, Err(CliError::UnknownOption));
}

#[test]
fn dir_option_long_form_carries_payload() {
    let r = parse_invocation(&tokens(&["--dir", "shows/s1"])).unwrap();
    assert_eq!(r.sub_path, Some(b"shows/s1".to_vec()));
}

#[test]
fn count_option_both_forms_carry_parsed_payload() {
    let r = parse_invocation(&tokens(&["-c", "12"])).unwrap();
    assert_eq!(r.episode_cap, Some(12));
    let r = parse_invocation(&tokens(&["--count", "12"])).unwrap();
    assert_eq!(r.episode_cap, Some(12));
}

#[test]
fn unknown_option_is_a_usage_error() {
    let e = parse_invocation(&tokens(&["-x"]));
    assert_eq!(e, Err(CliError::UnknownOption));
}

#[test]
fn trailing_option_without_payload_is_a_usage_error() {
    let e = parse_invocation(&tokens(&["-d"]));
    assert_eq!(e, Err(CliError::MissingPayload));
    let e = parse_invocation(&tokens(&["-m", "-c"]));
    assert_eq!(e, Err(CliError::MissingPayload));
}

#[test]
fn dash_led_payload_is_a_usage_error() {
    let e = parse_invocation(&tokens(&["-d", "-m"]));
    assert_eq!(e, Err(CliError::MissingPayload));
}

#[test]
fn repeated_option_is_a_usage_error() {
    let e = parse_invocation(&tokens(&["-m", "--movie"]));
    assert_eq!(e, Err(CliError::DuplicateOption));
    let e = parse_invocation(&tokens(&["-d", "a", "--dir", "b"]));
    assert_eq!(e, Err(CliError::DuplicateOption));
}

#[test]
fn unparseable_count_is_the_argument_validation_error() {
    let e = parse_invocation(&tokens(&["-c", "twelve"]));
    assert_eq!(e, Err(CliError::InvalidCount));
    let e = parse_invocation(&tokens(&["-c", ""]));
    assert_eq!(e, Err(CliError::InvalidCount));
}

#[test]
fn count_accepts_plain_and_plus_signed_decimals() {
    assert_eq!(parse_episode_count(&b"0".to_vec()), Some(0));
    assert_eq!(parse_episode_count(&b"12".to_vec()), Some(12));
    assert_eq!(parse_episode_count(&b"+7".to_vec()), Some(7));
    assert_eq!(parse_episode_count(&b"007".to_vec()), Some(7));
}

#[test]
fn count_rejects_malformed_and_oversized_values() {
    assert_eq!(parse_episode_count(&b"".to_vec()), None);
    assert_eq!(parse_episode_count(&b"+".to_vec()), None);
    assert_eq!(parse_episode_count(&b"++3".to_vec()), None);
    assert_eq!(parse_episode_count(&b"1 2".to_vec()), None);
    assert_eq!(parse_episode_count(&b"-1".to_vec()), None);
    assert_eq!(parse_episode_count(&b"12a".to_vec()), None);
}

#[test]
fn count_boundary_at_thirty_two_bits() {
    assert_eq!(parse_episode_count(&b"4294967295".to_vec()), Some(u32::MAX));
    assert_eq!(parse_episode_count(&b"4294967296".to_vec()), None);
}

#[test]
fn all_three_options_together() {
    let r: Invocation =
        parse_invocation(&tokens(&["-m", "--dir", "films/noir", "-c", "4"])).unwrap();
    assert_eq!(r.mode, Mode::Movie);
    assert_eq!(r.sub_path, Some(b"films/noir".to_vec()));
    assert_eq!(r.episode_cap, Some(4));
}

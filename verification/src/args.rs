//! The argument model: the invocation grammar and its parser.
//!
//! The grammar recognizes three options, each in a long and a short form:
//! the movie flag (`-m` / `--movie`, no payload), the sub-directory
//! (`-d` / `--dir`, one payload token), and the episode cap
//! (`-c` / `--count`, one payload token holding a non-negative decimal).
//! Tokens are byte strings, processed left to right. A payload token may
//! not begin with a dash; any other token that is not a recognized option
//! is a usage error, as is a repeated option.

use crate::Mode;
use vstd::prelude::*;

verus! {

/// The dash byte, `-`.
pub const DASH: u8 = 45;

/// The plus byte, `+`, accepted as an optional sign of the episode cap.
pub const PLUS: u8 = 43;

/// How parsing an invocation can fail. The first three are usage errors;
/// an unparseable episode cap is the argument-validation failure.
#[derive(Clone, Copy, PartialEq, Eq, Structural, Debug)]
pub enum CliError {
    UnknownOption,
    MissingPayload,
    DuplicateOption,
    InvalidCount,
}

/// What a single token stands for in the grammar.
#[derive(Clone, Copy, PartialEq, Eq, Structural, Debug)]
pub enum TokenKind {
    MovieFlag,
    DirOption,
    CountOption,
    Other,
}

/// `-m`
pub open spec fn movie_short() -> Seq<u8> {
    seq![45u8, 109u8]
}

/// `--movie`
pub open spec fn movie_long() -> Seq<u8> {
    seq![45u8, 45u8, 109u8, 111u8, 118u8, 105u8, 101u8]
}

/// `-d`
pub open spec fn dir_short() -> Seq<u8> {
    seq![45u8, 100u8]
}

/// `--dir`
pub open spec fn dir_long() -> Seq<u8> {
    seq![45u8, 45u8, 100u8, 105u8, 114u8]
}

/// `-c`
pub open spec fn count_short() -> Seq<u8> {
    seq![45u8, 99u8]
}

/// `--count`
pub open spec fn count_long() -> Seq<u8> {
    seq![45u8, 45u8, 99u8, 111u8, 117u8, 110u8, 116u8]
}

/// Classifies one token of the invocation.
pub open spec fn spec_token_kind(t: Seq<u8>) -> TokenKind {
    if t == movie_short() || t == movie_long() {
        TokenKind::MovieFlag
    } else if t == dir_short() || t == dir_long() {
        TokenKind::DirOption
    } else if t == count_short() || t == count_long() {
        TokenKind::CountOption
    } else {
        TokenKind::Other
    }
}

/// A token beginning with a dash can never serve as an option's payload.
pub open spec fn starts_with_dash(t: Seq<u8>) -> bool {
    t.len() > 0 && t[0] == DASH
}

/// The options gathered while scanning the tokens, before the episode cap
/// payload is itself parsed.
pub struct RawArgs {
    pub movie: bool,
    pub dir: Option<Seq<u8>>,
    pub count: Option<Seq<u8>>,
}

/// The scan's starting point: no option seen yet.
pub open spec fn init_raw() -> RawArgs {
    RawArgs { movie: false, dir: None, count: None }
}

/// Scans the tokens left to right, gathering the three options.
/// A repeated option, a missing or dash-led payload, and an unrecognized
/// token each abort the scan with the corresponding usage error.
pub open spec fn spec_scan(tokens: Seq<Seq<u8>>, acc: RawArgs) -> Result<RawArgs, CliError>
    decreases tokens.len(),
{
    if tokens.len() == 0 {
        Ok(acc)
    } else {
        match spec_token_kind(tokens[0]) {
            TokenKind::MovieFlag => if acc.movie {
                Err(CliError::DuplicateOption)
            } else {
                spec_scan(
                    tokens.skip(1),
                    RawArgs { movie: true, dir: acc.dir, count: acc.count },
                )
            },
            TokenKind::DirOption => if acc.dir is Some {
                Err(CliError::DuplicateOption)
            } else if tokens.len() < 2 || starts_with_dash(tokens[1]) {
                Err(CliError::MissingPayload)
            } else {
                spec_scan(
                    tokens.skip(2),
                    RawArgs { movie: acc.movie, dir: Some(tokens[1]), count: acc.count },
                )
            },
            TokenKind::CountOption => if acc.count is Some {
                Err(CliError::DuplicateOption)
            } else if tokens.len() < 2 || starts_with_dash(tokens[1]) {
                Err(CliError::MissingPayload)
            } else {
                spec_scan(
                    tokens.skip(2),
                    RawArgs { movie: acc.movie, dir: acc.dir, count: Some(tokens[1]) },
                )
            },
            TokenKind::Other => Err(CliError::UnknownOption),
        }
    }
}

/// Whether a byte is a decimal digit.
pub open spec fn is_digit(b: u8) -> bool {
    48 <= b && b <= 57
}

/// The number denoted by a sequence of decimal digits, most significant
/// first.
pub open spec fn digits_value(s: Seq<u8>) -> int
    decreases s.len(),
{
    if s.len() == 0 {
        0
    } else {
        digits_value(s.drop_last()) * 10 + (s.last() - 48)
    }
}

/// The digits of an episode cap token: the token itself, or what follows
/// a single optional leading plus sign.
pub open spec fn cap_digits(s: Seq<u8>) -> Seq<u8> {
    if s.len() > 0 && s[0] == PLUS {
        s.skip(1)
    } else {
        s
    }
}

/// A valid episode cap: at least one digit, digits only, and a value that
/// fits in 32 bits.
pub open spec fn is_valid_count(s: Seq<u8>) -> bool {
    let d = cap_digits(s);
    &&& d.len() > 0
    &&& (forall|j: int| 0 <= j < d.len() ==> is_digit(#[trigger] d[j]))
    &&& digits_value(d) <= u32::MAX
}

/// The value of a valid episode cap token.
pub open spec fn count_value(s: Seq<u8>) -> int {
    digits_value(cap_digits(s))
}

/// The mode an invocation selects: Movie exactly when the movie flag is
/// present, TV otherwise.
pub open spec fn spec_mode_of(movie: bool) -> Mode {
    if movie {
        Mode::Movie
    } else {
        Mode::Tv
    }
}

/// The abstract value of a parsed invocation.
pub struct SpecInvocation {
    pub mode: Mode,
    pub sub_path: Option<Seq<u8>>,
    pub episode_cap: Option<u32>,
}

/// What parsing an invocation yields: the scan's outcome, with the episode
/// cap payload parsed as a 32-bit decimal where present.
pub open spec fn spec_parse(tokens: Seq<Seq<u8>>) -> Result<SpecInvocation, CliError> {
    match spec_scan(tokens, init_raw()) {
        Err(e) => Err(e),
        Ok(raw) => match raw.count {
            None => Ok(
                SpecInvocation { mode: spec_mode_of(raw.movie), sub_path: raw.dir, episode_cap: None },
            ),
            Some(c) => if is_valid_count(c) {
                Ok(
                    SpecInvocation {
                        mode: spec_mode_of(raw.movie),
                        sub_path: raw.dir,
                        episode_cap: Some(count_value(c) as u32),
                    },
                )
            } else {
                Err(CliError::InvalidCount)
            },
        },
    }
}

/// A parsed invocation: the run's mode, the optional sub-path under the
/// library root, and the optional episode cap.
#[derive(PartialEq, Eq, Debug)]
pub struct Invocation {
    pub mode: Mode,
    pub sub_path: Option<Vec<u8>>,
    pub episode_cap: Option<u32>,
}

impl View for Invocation {
    type V = SpecInvocation;

    open spec fn view(&self) -> SpecInvocation {
        SpecInvocation {
            mode: self.mode,
            sub_path: crate::opt_bytes(self.sub_path),
            episode_cap: self.episode_cap,
        }
    }
}

impl Invocation {
    /// The run's mode.
    pub fn mode(&self) -> (m: Mode)
        ensures
            m == self@.mode,
    {
        self.mode
    }

    /// The sub-path to unpack under the library root, if one was given.
    pub fn sub_path(&self) -> (p: &Option<Vec<u8>>)
        ensures
            crate::opt_bytes(*p) == self@.sub_path,
    {
        &self.sub_path
    }

    /// The episode cap, if one was given; an unparseable cap never reaches
    /// a constructed invocation.
    pub fn episode_cap(&self) -> (c: Option<u32>)
        ensures
            c == self@.episode_cap,
    {
        self.episode_cap
    }
}

/// Classifies one token of the invocation.
pub fn token_kind(t: &Vec<u8>) -> (r: TokenKind)
    ensures
        r == spec_token_kind(t@),
{
    let n = t.len();
    if n == 2 && t[0] == DASH {
        if t[1] == 109 {
            proof { assert(t@ =~= movie_short()); }
            return TokenKind::MovieFlag;
        }
        if t[1] == 100 {
            proof { assert(t@ =~= dir_short()); }
            return TokenKind::DirOption;
        }
        if t[1] == 99 {
            proof { assert(t@ =~= count_short()); }
            return TokenKind::CountOption;
        }
        return TokenKind::Other;
    }
    if n == 5 && t[0] == DASH && t[1] == DASH && t[2] == 100 && t[3] == 105 && t[4] == 114 {
        proof { assert(t@ =~= dir_long()); }
        return TokenKind::DirOption;
    }
    if n == 7 && t[0] == DASH && t[1] == DASH {
        if t[2] == 109 && t[3] == 111 && t[4] == 118 && t[5] == 105 && t[6] == 101 {
            proof { assert(t@ =~= movie_long()); }
            return TokenKind::MovieFlag;
        }
        if t[2] == 99 && t[3] == 111 && t[4] == 117 && t[5] == 110 && t[6] == 116 {
            proof { assert(t@ =~= count_long()); }
            return TokenKind::CountOption;
        }
        return TokenKind::Other;
    }
    TokenKind::Other
}

/// Every movie-flag token begins with a dash, so the grammar never takes
/// one as an option's payload.
proof fn lemma_movie_flag_starts_with_dash(t: Seq<u8>)
    requires
        spec_token_kind(t) == TokenKind::MovieFlag,
    ensures
        starts_with_dash(t),
{
    assert(movie_short()[0] == DASH);
    assert(movie_long()[0] == DASH);
}

/// A successful scan records the movie flag exactly when it was already
/// recorded or some token is the movie flag.
proof fn lemma_scan_movie(tokens: Seq<Seq<u8>>, acc: RawArgs)
    ensures
        spec_scan(tokens, acc) matches Ok(raw) ==> (raw.movie <==> (acc.movie || exists|k: int|
            0 <= k < tokens.len() && spec_token_kind(#[trigger] tokens[k])
                == TokenKind::MovieFlag)),
    decreases tokens.len(),
{
    if tokens.len() == 0 {
    } else {
        let rest1 = tokens.skip(1);
        let rest2 = tokens.skip(2);
        match spec_token_kind(tokens[0]) {
            TokenKind::MovieFlag => {
                if !acc.movie {
                    lemma_scan_movie(
                        rest1,
                        RawArgs { movie: true, dir: acc.dir, count: acc.count },
                    );
                }
            },
            TokenKind::DirOption => {
                if acc.dir is None && tokens.len() >= 2 && !starts_with_dash(tokens[1]) {
                    lemma_scan_movie(
                        rest2,
                        RawArgs { movie: acc.movie, dir: Some(tokens[1]), count: acc.count },
                    );
                    lemma_scan_skip_two_movie_tokens(tokens);
                }
            },
            TokenKind::CountOption => {
                if acc.count is None && tokens.len() >= 2 && !starts_with_dash(tokens[1]) {
                    lemma_scan_movie(
                        rest2,
                        RawArgs { movie: acc.movie, dir: acc.dir, count: Some(tokens[1]) },
                    );
                    lemma_scan_skip_two_movie_tokens(tokens);
                }
            },
            TokenKind::Other => {},
        }
    }
}

/// When the first token is another option and the second is its payload
/// (so not dash-led), a movie flag stands among the tokens exactly when
/// one stands among the tokens after those two.
proof fn lemma_scan_skip_two_movie_tokens(tokens: Seq<Seq<u8>>)
    requires
        tokens.len() >= 2,
        spec_token_kind(tokens[0]) != TokenKind::MovieFlag,
        !starts_with_dash(tokens[1]),
    ensures
        (exists|k: int|
            0 <= k < tokens.len() && spec_token_kind(#[trigger] tokens[k])
                == TokenKind::MovieFlag) <==> (exists|k: int|
            0 <= k < tokens.skip(2).len() && spec_token_kind(#[trigger] tokens.skip(2)[k])
                == TokenKind::MovieFlag),
{
    let rest = tokens.skip(2);
    if exists|k: int|
        0 <= k < tokens.len() && spec_token_kind(#[trigger] tokens[k]) == TokenKind::MovieFlag {
        let k = choose|k: int|
            0 <= k < tokens.len() && spec_token_kind(#[trigger] tokens[k]) == TokenKind::MovieFlag;
        if k == 1 {
            lemma_movie_flag_starts_with_dash(tokens[1]);
        }
        assert(k >= 2);
        assert(rest[k - 2] == tokens[k]);
    }
    if exists|k: int|
        0 <= k < rest.len() && spec_token_kind(#[trigger] rest[k]) == TokenKind::MovieFlag {
        let k = choose|k: int|
            0 <= k < rest.len() && spec_token_kind(#[trigger] rest[k]) == TokenKind::MovieFlag;
        assert(rest[k] == tokens[k + 2]);
    }
}

/// Mode selection: a well-formed invocation selects Movie mode exactly
/// when a movie-flag token is present, and TV mode otherwise; the flag
/// itself never consumes a payload.
pub proof fn lemma_mode_selection(tokens: Seq<Seq<u8>>)
    ensures
        spec_parse(tokens) matches Ok(inv) ==> (inv.mode == Mode::Movie <==> exists|k: int|
            0 <= k < tokens.len() && spec_token_kind(#[trigger] tokens[k])
                == TokenKind::MovieFlag),
{
    lemma_scan_movie(tokens, init_raw());
}

/// The value of a digit string is never negative.
proof fn lemma_digits_value_nonneg(s: Seq<u8>)
    requires
        forall|j: int| 0 <= j < s.len() ==> is_digit(#[trigger] s[j]),
    ensures
        digits_value(s) >= 0,
    decreases s.len(),
{
    if s.len() > 0 {
        lemma_digits_value_nonneg(s.drop_last());
    }
}

/// The value of a digit string bounds the value of each of its prefixes.
proof fn lemma_digits_value_monotonic(s: Seq<u8>, j: int)
    requires
        forall|k: int| 0 <= k < s.len() ==> is_digit(#[trigger] s[k]),
        0 <= j <= s.len(),
    ensures
        digits_value(s.take(j)) <= digits_value(s),
    decreases s.len(),
{
    if j == s.len() {
        assert(s.take(j) =~= s);
    } else {
        lemma_digits_value_monotonic(s.drop_last(), j);
        assert(s.drop_last().take(j) =~= s.take(j));
        lemma_digits_value_nonneg(s.drop_last());
    }
}

/// Parses an episode cap token as a non-negative 32-bit decimal, with an
/// optional leading plus sign. Returns `None` exactly on the tokens that
/// are not a valid cap.
pub fn parse_episode_count(s: &Vec<u8>) -> (r: Option<u32>)
    ensures
        r is Some <==> is_valid_count(s@),
        r matches Some(v) ==> v == count_value(s@),
{
    let ghost d = cap_digits(s@);
    let start: usize = if s.len() > 0 && s[0] == PLUS {
        1
    } else {
        0
    };
    proof {
        if start == 0 {
            assert(d =~= s@);
        }
    }
    if s.len() == start {
        return None;
    }
    let mut acc: u64 = 0;
    let mut i: usize = start;
    while i < s.len()
        invariant
            start <= i <= s.len(),
            d == cap_digits(s@),
            d == s@.skip(start as int),
            d.len() == s.len() - start,
            forall|j: int| 0 <= j < i - start ==> is_digit(#[trigger] d[j]),
            acc == digits_value(d.take(i - start)),
            acc <= u32::MAX,
        decreases s.len() - i,
    {
        let b = s[i];
        proof {
            assert(d[i - start] == s@[i as int]);
        }
        if !(48 <= b && b <= 57) {
            proof {
                assert(!is_digit(d[i - start]));
            }
            return None;
        }
        let dig = (b - 48) as u64;
        let next = acc * 10 + dig;
        proof {
            assert(d.take(i - start + 1).drop_last() =~= d.take(i - start));
            assert(d.take(i - start + 1).last() == d[i - start]);
        }
        if next > 0xFFFF_FFFF {
            proof {
                if forall|j: int| 0 <= j < d.len() ==> is_digit(#[trigger] d[j]) {
                    lemma_digits_value_monotonic(d, i - start + 1);
                }
            }
            return None;
        }
        acc = next;
        i = i + 1;
    }
    proof {
        assert(d.take(i - start) =~= d);
    }
    Some(acc as u32)
}

/// Parses an invocation's tokens into the argument model. The result is
/// exactly what the grammar assigns to the tokens: the parsed invocation,
/// or the first error the scan meets, with an unparseable episode cap
/// reported after the scan itself succeeds.
pub fn parse_invocation(tokens: &Vec<Vec<u8>>) -> (r: Result<Invocation, CliError>)
    ensures
        ({
            let sp = spec_parse(tokens.deep_view());
            match r {
                Ok(inv) => sp == Ok::<SpecInvocation, CliError>(inv@),
                Err(e) => sp == Err::<SpecInvocation, CliError>(e),
            }
        }),
{
    let ghost all: Seq<Seq<u8>> = tokens.deep_view();
    proof {
        assert(all.skip(0) =~= all);
    }
    let mut movie = false;
    let mut dir: Option<Vec<u8>> = None;
    let mut count_raw: Option<Vec<u8>> = None;
    let mut i: usize = 0;
    while i < tokens.len()
        invariant
            i <= tokens.len(),
            all == tokens.deep_view(),
            all.len() == tokens.len(),
            spec_scan(all, init_raw()) == spec_scan(
                all.skip(i as int),
                RawArgs { movie, dir: crate::opt_bytes(dir), count: crate::opt_bytes(count_raw) },
            ),
        decreases tokens.len() - i,
    {
        let ghost rest = all.skip(i as int);
        proof {
            assert(all[i as int] =~= tokens@[i as int]@);
            assert(rest[0] == all[i as int]);
            assert(rest.len() == all.len() - i);
        }
        let t = &tokens[i];
        let kind = token_kind(t);
        match kind {
            TokenKind::MovieFlag => {
                if movie {
                    return Err(CliError::DuplicateOption);
                }
                movie = true;
                proof {
                    assert(rest.skip(1) =~= all.skip(i as int + 1));
                }
                i = i + 1;
            },
            TokenKind::DirOption => {
                if dir.is_some() {
                    return Err(CliError::DuplicateOption);
                }
                if i + 1 >= tokens.len() {
                    return Err(CliError::MissingPayload);
                }
                proof {
                    assert(rest[1] == all[i as int + 1]);
                    assert(all[i as int + 1] =~= tokens@[i as int + 1]@);
                }
                let payload = &tokens[i + 1];
                if payload.len() > 0 && payload[0] == DASH {
                    return Err(CliError::MissingPayload);
                }
                dir = Some(crate::copy_bytes(payload));
                proof {
                    assert(rest.skip(2) =~= all.skip(i as int + 2));
                }
                i = i + 2;
            },
            TokenKind::CountOption => {
                if count_raw.is_some() {
                    return Err(CliError::DuplicateOption);
                }
                if i + 1 >= tokens.len() {
                    return Err(CliError::MissingPayload);
                }
                proof {
                    assert(rest[1] == all[i as int + 1]);
                    assert(all[i as int + 1] =~= tokens@[i as int + 1]@);
                }
                let payload = &tokens[i + 1];
                if payload.len() > 0 && payload[0] == DASH {
                    return Err(CliError::MissingPayload);
                }
                count_raw = Some(crate::copy_bytes(payload));
                proof {
                    assert(rest.skip(2) =~= all.skip(i as int + 2));
                }
                i = i + 2;
            },
            TokenKind::Other => {
                return Err(CliError::UnknownOption);
            },
        }
    }
    proof {
        assert(all.skip(i as int).len() == 0);
    }
    let mode = if movie {
        Mode::Movie
    } else {
        Mode::Tv
    };
    match count_raw {
        None => Ok(Invocation { mode, sub_path: dir, episode_cap: None }),
        Some(raw) => match parse_episode_count(&raw) {
            Some(v) => Ok(Invocation { mode, sub_path: dir, episode_cap: Some(v) }),
            None => Err(CliError::InvalidCount),
        },
    }
}

} // verus!

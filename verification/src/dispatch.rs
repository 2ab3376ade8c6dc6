//! The dispatcher: the run's state machine.
//!
//! A run walks `Resolving -> Composing -> Scanning -> Unpacking -> Done`.
//! The library decides every transition; the caller performs the outside
//! work each state asks for and feeds the outcome back in: the value of
//! the mode-selected environment variable while Resolving, the working
//! directory's listing while Scanning, and the external unpacker's outcome
//! while Unpacking. Composing needs no outside input. A transition fed out
//! of turn leaves the state unchanged.
//!
//! Exit codes: 0 success; 1 environment variable unbound; 2 unparseable
//! episode cap; 3 absolute sub-path; 4 unreadable working directory; 5 no
//! RAR archive found; the usage exit code for a malformed invocation; the
//! external unpacker's own code, outside the above, for a failed unpack.

use crate::args::{spec_parse, CliError, Invocation};
use crate::finder::{entry_views, spec_find_rar, FsEntry, SpecFsEntry};
use crate::paths::{spec_is_absolute, spec_join};
use crate::Mode;
use vstd::prelude::*;

verus! {

/// Exit code of a usage error: a malformed invocation. Implementation
/// defined, outside the taxonomy of codes 0 through 5.
pub const USAGE_EXIT_CODE: u8 = 64;

/// The abstract state of a run.
pub enum AState {
    Resolving { mode: Mode, sub: Option<Seq<u8>>, cap: Option<u32> },
    Composing { mode: Mode, sub: Option<Seq<u8>>, cap: Option<u32>, root: Seq<u8> },
    Scanning { mode: Mode, cap: Option<u32>, destination: Seq<u8> },
    Unpacking { mode: Mode, cap: Option<u32>, source: Seq<u8>, destination: Seq<u8> },
    Done { code: u8 },
}

/// The abstract value of an outside event fed into the machine.
pub enum AEvent {
    Env { value: Option<Seq<u8>> },
    Compose,
    Listing { entries: Option<Seq<SpecFsEntry>> },
    Unpacked { ok: bool, code: u8 },
}

/// The exit code of a parse failure: 2 for an unparseable episode cap,
/// the usage exit code for the usage errors.
pub open spec fn spec_cli_exit_code(e: CliError) -> u8 {
    match e {
        CliError::InvalidCount => 2,
        _ => USAGE_EXIT_CODE,
    }
}

/// The state a run starts in: Resolving on a well-formed invocation, else
/// Done with the parse failure's exit code.
pub open spec fn spec_start(tokens: Seq<Seq<u8>>) -> AState {
    match spec_parse(tokens) {
        Ok(inv) => AState::Resolving { mode: inv.mode, sub: inv.sub_path, cap: inv.episode_cap },
        Err(e) => AState::Done { code: spec_cli_exit_code(e) },
    }
}

/// The machine's transition relation. Resolving exits 1 on a missing
/// binding; Composing exits 3 on an absolute sub-path and otherwise joins
/// the sub-path onto the root; Scanning exits 4 on an unreadable directory
/// and 5 on an empty find; Unpacking exits 0 on success and surfaces the
/// external code on failure. Any state fed a mismatched event stays as it
/// is, and Done absorbs everything.
pub open spec fn spec_step(s: AState, e: AEvent) -> AState {
    match (s, e) {
        (AState::Resolving { mode, sub, cap }, AEvent::Env { value }) => match value {
            None => AState::Done { code: 1 },
            Some(root) => AState::Composing { mode, sub, cap, root },
        },
        (AState::Composing { mode, sub, cap, root }, AEvent::Compose) => match sub {
            Some(p) => if spec_is_absolute(p) {
                AState::Done { code: 3 }
            } else {
                AState::Scanning { mode, cap, destination: spec_join(root, p) }
            },
            None => AState::Scanning { mode, cap, destination: root },
        },
        (AState::Scanning { mode, cap, destination }, AEvent::Listing { entries }) => match entries {
            None => AState::Done { code: 4 },
            Some(es) => match spec_find_rar(es) {
                None => AState::Done { code: 5 },
                Some(p) => AState::Unpacking { mode, cap, source: p, destination },
            },
        },
        (AState::Unpacking { .. }, AEvent::Unpacked { ok, code }) => AState::Done {
            code: if ok {
                0
            } else {
                code
            },
        },
        (s0, _) => s0,
    }
}

/// The run's state, carrying what later stages need.
pub enum DispatchState {
    Resolving { mode: Mode, sub_path: Option<Vec<u8>>, episode_cap: Option<u32> },
    Composing { mode: Mode, sub_path: Option<Vec<u8>>, episode_cap: Option<u32>, root: Vec<u8> },
    Scanning { mode: Mode, episode_cap: Option<u32>, destination: Vec<u8> },
    Unpacking { mode: Mode, episode_cap: Option<u32>, source: Vec<u8>, destination: Vec<u8> },
    Done { code: u8 },
}

impl View for DispatchState {
    type V = AState;

    open spec fn view(&self) -> AState {
        match self {
            DispatchState::Resolving { mode, sub_path, episode_cap } => AState::Resolving {
                mode: *mode,
                sub: crate::opt_bytes(*sub_path),
                cap: *episode_cap,
            },
            DispatchState::Composing { mode, sub_path, episode_cap, root } => AState::Composing {
                mode: *mode,
                sub: crate::opt_bytes(*sub_path),
                cap: *episode_cap,
                root: root@,
            },
            DispatchState::Scanning { mode, episode_cap, destination } => AState::Scanning {
                mode: *mode,
                cap: *episode_cap,
                destination: destination@,
            },
            DispatchState::Unpacking { mode, episode_cap, source, destination } => AState::Unpacking {
                mode: *mode,
                cap: *episode_cap,
                source: source@,
                destination: destination@,
            },
            DispatchState::Done { code } => AState::Done { code: *code },
        }
    }
}

/// The abstract value of an optional directory listing.
pub open spec fn opt_entries(o: Option<Vec<FsEntry>>) -> Option<Seq<SpecFsEntry>> {
    match o {
        Some(es) => Some(entry_views(es@)),
        None => None,
    }
}

/// The name of the environment variable a mode selects its library root
/// from: `MOVIES` in Movie mode, `TV` in TV mode.
pub open spec fn spec_env_var_name(mode: Mode) -> Seq<u8> {
    match mode {
        Mode::Movie => seq![77u8, 79u8, 86u8, 73u8, 69u8, 83u8],
        Mode::Tv => seq![84u8, 86u8],
    }
}

/// Returns the name of the environment variable the mode selects.
pub fn env_var_name(mode: Mode) -> (r: Vec<u8>)
    ensures
        r@ == spec_env_var_name(mode),
{
    let mut v: Vec<u8> = Vec::new();
    match mode {
        Mode::Movie => {
            v.push(77);
            v.push(79);
            v.push(86);
            v.push(73);
            v.push(69);
            v.push(83);
        },
        Mode::Tv => {
            v.push(84);
            v.push(86);
        },
    }
    proof {
        assert(v@ =~= spec_env_var_name(mode));
    }
    v
}

/// Returns the exit code of a parse failure.
pub fn cli_exit_code(e: CliError) -> (c: u8)
    ensures
        c == spec_cli_exit_code(e),
{
    match e {
        CliError::InvalidCount => 2,
        _ => USAGE_EXIT_CODE,
    }
}

/// Starts a run from the invocation's tokens, the program name excluded.
pub fn start_run(tokens: &Vec<Vec<u8>>) -> (s: DispatchState)
    ensures
        s@ == spec_start(tokens.deep_view()),
{
    match crate::args::parse_invocation(tokens) {
        Ok(inv) => {
            let Invocation { mode, sub_path, episode_cap } = inv;
            DispatchState::Resolving { mode, sub_path, episode_cap }
        },
        Err(e) => DispatchState::Done { code: cli_exit_code(e) },
    }
}

/// Feeds in the value of the mode-selected environment variable, `None`
/// when it is unbound: a missing binding ends the run with exit code 1,
/// a bound one becomes the library root.
pub fn on_env_value(state: DispatchState, value: Option<Vec<u8>>) -> (t: DispatchState)
    ensures
        t@ == spec_step(state@, AEvent::Env { value: crate::opt_bytes(value) }),
{
    match state {
        DispatchState::Resolving { mode, sub_path, episode_cap } => match value {
            None => DispatchState::Done { code: 1 },
            Some(root) => DispatchState::Composing { mode, sub_path, episode_cap, root },
        },
        s0 => s0,
    }
}

/// Composes the destination: the library root alone without a sub-path,
/// the root logically joined with the sub-path otherwise. An absolute
/// sub-path ends the run with exit code 3, before any directory is read.
pub fn on_compose(state: DispatchState) -> (t: DispatchState)
    ensures
        t@ == spec_step(state@, AEvent::Compose),
{
    match state {
        DispatchState::Composing { mode, sub_path, episode_cap, root } => match sub_path {
            None => DispatchState::Scanning { mode, episode_cap, destination: root },
            Some(p) => if crate::paths::is_absolute(&p) {
                DispatchState::Done { code: 3 }
            } else {
                let destination = crate::paths::join(&root, &p);
                DispatchState::Scanning { mode, episode_cap, destination }
            },
        },
        s0 => s0,
    }
}

/// Feeds in the working directory's listing, `None` when the directory
/// cannot be enumerated: that ends the run with exit code 4; a listing
/// without an archive candidate ends it with exit code 5; otherwise the
/// first candidate becomes the source archive.
pub fn on_listing(state: DispatchState, entries: Option<Vec<FsEntry>>) -> (t: DispatchState)
    ensures
        t@ == spec_step(state@, AEvent::Listing { entries: opt_entries(entries) }),
{
    match state {
        DispatchState::Scanning { mode, episode_cap, destination } => match entries {
            None => DispatchState::Done { code: 4 },
            Some(es) => match crate::finder::find_rar(&es) {
                None => DispatchState::Done { code: 5 },
                Some(source) => DispatchState::Unpacking { mode, episode_cap, source, destination },
            },
        },
        s0 => s0,
    }
}

/// Feeds in the external unpacker's outcome: success ends the run with
/// exit code 0, failure surfaces the unpacker's own code, which lies
/// outside the codes the dispatcher itself assigns.
pub fn on_unpacked(state: DispatchState, ok: bool, code: u8) -> (t: DispatchState)
    requires
        !ok ==> code > 5,
    ensures
        t@ == spec_step(state@, AEvent::Unpacked { ok, code }),
{
    match state {
        DispatchState::Unpacking { .. } => DispatchState::Done {
            code: if ok {
                0
            } else {
                code
            },
        },
        s0 => s0,
    }
}

/// The state a run is in after the given outside events, fed in order,
/// with the composing transition driven by its own (input-free) event.
pub open spec fn spec_run(tokens: Seq<Seq<u8>>, events: Seq<AEvent>) -> AState
    decreases events.len(),
{
    if events.len() == 0 {
        spec_start(tokens)
    } else {
        spec_step(spec_run(tokens, events.drop_last()), events.last())
    }
}

/// What every fed unpack outcome must look like: the external unpacker's
/// failure code lies outside the codes the dispatcher itself assigns.
pub open spec fn event_code_ok(e: AEvent) -> bool {
    e matches AEvent::Unpacked { ok, code } ==> (ok || code > 5)
}

/// A listing event that delivered a readable directory holding no archive
/// candidate at all.
pub open spec fn empty_listing_event(e: AEvent) -> bool {
    &&& e matches AEvent::Listing { entries: Some(es) }
    &&& spec_find_rar(es) is None
}

/// The destination is the library root alone when no sub-path was given,
/// and the root logically joined with the sub-path otherwise; an absolute
/// sub-path is instead rejected with exit code 3.
pub proof fn lemma_destination_composition(
    mode: Mode,
    sub: Option<Seq<u8>>,
    cap: Option<u32>,
    root: Seq<u8>,
)
    ensures
        ({
            let t = spec_step(AState::Composing { mode, sub, cap, root }, AEvent::Compose);
            match sub {
                None => t == (AState::Scanning { mode, cap, destination: root }),
                Some(p) => t == if spec_is_absolute(p) {
                    (AState::Done { code: 3u8 })
                } else {
                    (AState::Scanning { mode, cap, destination: spec_join(root, p) })
                },
            }
        }),
{
}

/// Scanning is entered only out of Composing, and only when any sub-path
/// present is relative: an absolute sub-path never reaches a directory
/// enumeration.
pub proof fn lemma_scanning_provenance(s: AState, e: AEvent)
    ensures
        spec_step(s, e) is Scanning ==> (s is Scanning || (s matches AState::Composing { sub, .. }
            && !(sub matches Some(p) && spec_is_absolute(p)))),
{
}

/// A run whose invocation carries an absolute sub-path never scans a
/// directory and never unpacks: it can only sit before composition or end,
/// and it ends only with exit code 1 or the absolute-sub-path code 3.
pub proof fn lemma_absolute_sub_path_never_scans(tokens: Seq<Seq<u8>>, events: Seq<AEvent>)
    requires
        spec_parse(tokens) matches Ok(inv) && inv.sub_path matches Some(p) && spec_is_absolute(p),
    ensures
        ({
            let s = spec_run(tokens, events);
            &&& (s matches AState::Resolving { sub, .. } ==> sub == (
                spec_parse(tokens)->Ok_0).sub_path)
            &&& (s matches AState::Composing { sub, .. } ==> sub == (
                spec_parse(tokens)->Ok_0).sub_path)
            &&& s !is Scanning
            &&& s !is Unpacking
            &&& (s matches AState::Done { code } ==> code == 1 || code == 3)
        }),
    decreases events.len(),
{
    if events.len() > 0 {
        lemma_absolute_sub_path_never_scans(tokens, events.drop_last());
    }
}

/// The destination a root and an optional sub-path compose to: the root
/// alone, or the root logically joined with the sub-path.
pub open spec fn spec_compose_dest(root: Seq<u8>, sub: Option<Seq<u8>>) -> Seq<u8> {
    match sub {
        None => root,
        Some(p) => spec_join(root, p),
    }
}

/// An environment event that delivered a bound root composing, with the
/// given sub-path, to the given destination.
pub open spec fn env_event_composes(e: AEvent, sub: Option<Seq<u8>>, destination: Seq<u8>) -> bool {
    &&& e matches AEvent::Env { value: Some(root) }
    &&& destination == spec_compose_dest(root, sub)
}

/// In every run, the destination carried while scanning and unpacking is
/// exactly the library root delivered while resolving, joined with the
/// invocation's sub-path when one was given and taken alone otherwise.
pub proof fn lemma_run_destination(tokens: Seq<Seq<u8>>, events: Seq<AEvent>)
    ensures
        ({
            let s = spec_run(tokens, events);
            let inv = spec_parse(tokens)->Ok_0;
            &&& ((s is Resolving || s is Composing || s is Scanning || s is Unpacking)
                ==> spec_parse(tokens) is Ok)
            &&& (s matches AState::Resolving { sub, .. } ==> sub == inv.sub_path)
            &&& (s matches AState::Composing { sub, root, .. } ==> sub == inv.sub_path && exists|
                k: int,
            |
                0 <= k < events.len() && spec_run(tokens, events.take(k)) is Resolving && (
                #[trigger] events[k]) == (AEvent::Env { value: Some(root) }))
            &&& (s matches AState::Scanning { destination, .. } ==> exists|k: int|
                0 <= k < events.len() && spec_run(tokens, events.take(k)) is Resolving
                    && env_event_composes(#[trigger] events[k], inv.sub_path, destination))
            &&& (s matches AState::Unpacking { destination, .. } ==> exists|k: int|
                0 <= k < events.len() && spec_run(tokens, events.take(k)) is Resolving
                    && env_event_composes(#[trigger] events[k], inv.sub_path, destination))
        }),
    decreases events.len(),
{
    let inv = spec_parse(tokens)->Ok_0;
    if events.len() > 0 {
        let n = events.len() as int;
        let prefix = events.drop_last();
        let e = events.last();
        lemma_run_destination(tokens, prefix);
        assert(events.take(n - 1) =~= prefix);
        assert(forall|k: int| 0 <= k < n - 1 ==> #[trigger] prefix.take(k) =~= events.take(k));
        let prev = spec_run(tokens, prefix);
        let s = spec_run(tokens, events);
        match prev {
            AState::Resolving { .. } => {
                if e matches AEvent::Env { value: Some(root) } {
                    assert(spec_run(tokens, events.take(n - 1)) is Resolving);
                    assert(events[n - 1] == e);
                }
            },
            AState::Composing { root, .. } => {
                let k = choose|k: int|
                    0 <= k < prefix.len() && spec_run(tokens, prefix.take(k)) is Resolving && (
                    #[trigger] prefix[k]) == (AEvent::Env { value: Some(root) });
                assert(events[k] == prefix[k]);
                assert(spec_run(tokens, events.take(k)) is Resolving);
                match s {
                    AState::Scanning { destination, .. } => {
                        assert(env_event_composes(events[k], inv.sub_path, destination));
                    },
                    _ => {},
                }
            },
            AState::Scanning { destination, .. } => {
                let k = choose|k: int|
                    0 <= k < prefix.len() && spec_run(tokens, prefix.take(k)) is Resolving
                        && env_event_composes(#[trigger] prefix[k], inv.sub_path, destination);
                assert(events[k] == prefix[k]);
                assert(spec_run(tokens, events.take(k)) is Resolving);
            },
            AState::Unpacking { destination, .. } => {
                let k = choose|k: int|
                    0 <= k < prefix.len() && spec_run(tokens, prefix.take(k)) is Resolving
                        && env_event_composes(#[trigger] prefix[k], inv.sub_path, destination);
                assert(events[k] == prefix[k]);
                assert(spec_run(tokens, events.take(k)) is Resolving);
            },
            AState::Done { .. } => {},
        }
    }
}

/// A single transition ends the run with exit code 1 exactly when the
/// machine was resolving and the environment variable was unbound, and
/// with exit code 5 exactly when it was scanning and the listing held no
/// archive candidate; both codes also persist once reached.
pub proof fn lemma_step_exit_codes(s: AState, e: AEvent)
    requires
        event_code_ok(e),
    ensures
        spec_step(s, e) == (AState::Done { code: 1u8 }) <==> (s == (AState::Done { code: 1u8 })
            || (s is Resolving && e == (AEvent::Env { value: None }))),
        spec_step(s, e) == (AState::Done { code: 5u8 }) <==> (s == (AState::Done { code: 5u8 })
            || (s is Scanning && empty_listing_event(e))),
{
}

/// A run ends with exit code 1 exactly when, at some point while it was
/// resolving, the mode-selected environment variable came back unbound.
pub proof fn lemma_exit_one_iff_env_unbound(tokens: Seq<Seq<u8>>, events: Seq<AEvent>)
    requires
        forall|k: int| 0 <= k < events.len() ==> event_code_ok(#[trigger] events[k]),
    ensures
        spec_run(tokens, events) == (AState::Done { code: 1u8 }) <==> exists|k: int|
            0 <= k < events.len() && spec_run(tokens, events.take(k)) is Resolving && (
            #[trigger] events[k]) == (AEvent::Env { value: None }),
    decreases events.len(),
{
    if events.len() == 0 {
        assert(spec_run(tokens, events) != (AState::Done { code: 1u8 }));
    } else {
        let n = events.len() as int;
        let prefix = events.drop_last();
        let e = events.last();
        lemma_exit_one_iff_env_unbound(tokens, prefix);
        assert(events.take(n - 1) =~= prefix);
        assert(forall|k: int| 0 <= k < n - 1 ==> #[trigger] prefix.take(k) =~= events.take(k));
        let prev = spec_run(tokens, prefix);
        lemma_step_exit_codes(prev, e);
        if spec_run(tokens, events) == (AState::Done { code: 1u8 }) {
            if prev is Resolving && e == (AEvent::Env { value: None }) {
                assert(spec_run(tokens, events.take(n - 1)) is Resolving && events[n - 1] == (
                AEvent::Env { value: None }));
            } else {
                let k = choose|k: int|
                    0 <= k < prefix.len() && spec_run(tokens, prefix.take(k)) is Resolving && (
                    #[trigger] prefix[k]) == (AEvent::Env { value: None });
                assert(spec_run(tokens, events.take(k)) is Resolving && events[k] == (
                AEvent::Env { value: None }));
            }
        }
        if exists|k: int|
            0 <= k < events.len() && spec_run(tokens, events.take(k)) is Resolving && (
            #[trigger] events[k]) == (AEvent::Env { value: None }) {
            let k = choose|k: int|
                0 <= k < events.len() && spec_run(tokens, events.take(k)) is Resolving && (
                #[trigger] events[k]) == (AEvent::Env { value: None });
            if k == n - 1 {
                assert(prev is Resolving);
                assert(spec_run(tokens, events) == (AState::Done { code: 1u8 }));
            } else {
                assert(spec_run(tokens, prefix.take(k)) is Resolving && prefix[k] == (
                AEvent::Env { value: None }));
                assert(prev == (AState::Done { code: 1u8 }));
            }
        }
    }
}

/// A run ends with exit code 5 exactly when, at some point while it was
/// scanning, the working directory's listing held no regular file with
/// extension `rar`.
pub proof fn lemma_exit_five_iff_no_archive(tokens: Seq<Seq<u8>>, events: Seq<AEvent>)
    requires
        forall|k: int| 0 <= k < events.len() ==> event_code_ok(#[trigger] events[k]),
    ensures
        spec_run(tokens, events) == (AState::Done { code: 5u8 }) <==> exists|k: int|
            0 <= k < events.len() && spec_run(tokens, events.take(k)) is Scanning
                && empty_listing_event(#[trigger] events[k]),
    decreases events.len(),
{
    if events.len() == 0 {
        assert(spec_run(tokens, events) != (AState::Done { code: 5u8 }));
    } else {
        let n = events.len() as int;
        let prefix = events.drop_last();
        let e = events.last();
        lemma_exit_five_iff_no_archive(tokens, prefix);
        assert(events.take(n - 1) =~= prefix);
        assert(forall|k: int| 0 <= k < n - 1 ==> #[trigger] prefix.take(k) =~= events.take(k));
        let prev = spec_run(tokens, prefix);
        lemma_step_exit_codes(prev, e);
        if spec_run(tokens, events) == (AState::Done { code: 5u8 }) {
            if prev is Scanning && empty_listing_event(e) {
                assert(spec_run(tokens, events.take(n - 1)) is Scanning);
                assert(events[n - 1] == e);
            } else {
                let k = choose|k: int|
                    0 <= k < prefix.len() && spec_run(tokens, prefix.take(k)) is Scanning
                        && empty_listing_event(#[trigger] prefix[k]);
                assert(spec_run(tokens, events.take(k)) is Scanning);
                assert(events[k] == prefix[k]);
            }
        }
        if exists|k: int|
            0 <= k < events.len() && spec_run(tokens, events.take(k)) is Scanning
                && empty_listing_event(#[trigger] events[k]) {
            let k = choose|k: int|
                0 <= k < events.len() && spec_run(tokens, events.take(k)) is Scanning
                    && empty_listing_event(#[trigger] events[k]);
            if k == n - 1 {
                assert(prev is Scanning);
                assert(spec_run(tokens, events) == (AState::Done { code: 5u8 }));
            } else {
                assert(spec_run(tokens, prefix.take(k)) is Scanning);
                assert(prefix[k] == events[k]);
                assert(prev == (AState::Done { code: 5u8 }));
            }
        }
    }
}

/// A run every one of whose directory listings held at least one regular
/// file with extension `rar` never ends with exit code 5.
pub proof fn lemma_archive_present_never_exit_five(tokens: Seq<Seq<u8>>, events: Seq<AEvent>)
    requires
        forall|k: int| 0 <= k < events.len() ==> event_code_ok(#[trigger] events[k]),
        forall|k: int|
            0 <= k < events.len() ==> ((#[trigger] events[k]) matches AEvent::Listing {
                entries: Some(es) } ==> exists|i: int|
                0 <= i < es.len() && crate::finder::is_archive_candidate(#[trigger] es[i])),
    ensures
        spec_run(tokens, events) != (AState::Done { code: 5u8 }),
{
    lemma_exit_five_iff_no_archive(tokens, events);
    if spec_run(tokens, events) == (AState::Done { code: 5u8 }) {
        let k = choose|k: int|
            0 <= k < events.len() && spec_run(tokens, events.take(k)) is Scanning
                && empty_listing_event(#[trigger] events[k]);
        let es = events[k]->Listing_entries->Some_0;
        crate::finder::lemma_find_rar_none_iff_no_candidate(es);
    }
}

} // verus!

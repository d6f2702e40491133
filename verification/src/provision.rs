//! The binary provisioner, as a state machine. The caller performs the
//! outside work — the metadata probe, the two staged downloads, the
//! signature check, the atomic renames — and feeds each outcome back as an
//! event; this module decides every transition. Durable files are only
//! ever requested to change after the signature check has succeeded, and
//! an unchanged freshness token ends the run before any download is asked
//! for.

use vstd::prelude::*;
use crate::report::ErrorKind;

verus! {

/// Where a provisioning run stands.
#[derive(Clone, Copy, Debug, PartialEq, Eq, Structural)]
pub enum ProvisionPhase {
    /// Nothing done yet; the remote freshness token is needed.
    Start,
    /// The remote token is known; the locally stored token is needed.
    LocalCheck,
    /// Tokens differ or no local token exists: the binary and its detached
    /// signature are being staged.
    Staging,
    /// Both staged files are present; the signature is being verified.
    Verifying,
    /// Verification succeeded; the staged binary may replace the installed
    /// one atomically.
    Installing,
    /// The binary is installed; the new token may replace the stored one
    /// atomically.
    Persisting,
    /// The run ended successfully.
    Done,
    /// The run ended in a fatal error of this kind.
    Failed(ErrorKind),
}

/// What the caller reports back after performing the requested action.
#[derive(Debug)]
pub enum ProvisionEvent {
    /// Outcome of the metadata-only probe for the remote freshness token.
    RemoteToken(Result<String, String>),
    /// Outcome of reading the locally stored freshness token.
    LocalToken(LocalTokenRead),
    /// Outcome of staging the binary and its signature (both downloads).
    Staged(Result<(), String>),
    /// Outcome of the external signature verification.
    Verified(Result<(), String>),
    /// Outcome of atomically renaming the staged binary into place.
    Installed(Result<(), String>),
    /// Outcome of atomically persisting the new token.
    TokenPersisted(Result<(), String>),
}

/// What reading the stored token yielded. A missing file is no error; any
/// other read failure is degraded to "no prior token" as well.
#[derive(Debug)]
pub enum LocalTokenRead {
    Found(String),
    Missing,
    Unreadable,
}

/// The outside work the caller is asked to perform next.
#[derive(Clone, Copy, Debug, PartialEq, Eq, Structural)]
pub enum ProvisionAction {
    FetchRemoteToken,
    ReadLocalToken,
    StageDownloads,
    VerifySignature,
    InstallBinary,
    PersistToken,
}

/// A provisioning run: its phase, and the remote token once known.
#[derive(Debug)]
pub struct ProvisionState {
    pub phase: ProvisionPhase,
    pub remote: Option<String>,
}

/// The state a run starts in.
pub open spec fn spec_initial_state() -> ProvisionState {
    ProvisionState { phase: ProvisionPhase::Start, remote: None }
}

/// Whether `e` is the kind of event the phase of `s` is waiting for.
pub open spec fn expected_event(s: ProvisionState, e: ProvisionEvent) -> bool {
    match (s.phase, e) {
        (ProvisionPhase::Start, ProvisionEvent::RemoteToken(_)) => true,
        (ProvisionPhase::LocalCheck, ProvisionEvent::LocalToken(_)) => s.remote is Some,
        (ProvisionPhase::Staging, ProvisionEvent::Staged(_)) => true,
        (ProvisionPhase::Verifying, ProvisionEvent::Verified(_)) => true,
        (ProvisionPhase::Installing, ProvisionEvent::Installed(_)) => true,
        (ProvisionPhase::Persisting, ProvisionEvent::TokenPersisted(_)) => true,
        _ => false,
    }
}

/// The machine's transition function. An event a phase is not waiting for
/// leaves the state unchanged.
pub open spec fn spec_step(s: ProvisionState, e: ProvisionEvent) -> ProvisionState {
    match (s.phase, e) {
        (ProvisionPhase::Start, ProvisionEvent::RemoteToken(r)) => match r {
            Ok(t) => ProvisionState { phase: ProvisionPhase::LocalCheck, remote: Some(t) },
            Err(_) => ProvisionState {
                phase: ProvisionPhase::Failed(ErrorKind::Source),
                remote: s.remote,
            },
        },
        (ProvisionPhase::LocalCheck, ProvisionEvent::LocalToken(read)) => {
            if s.remote is Some {
                match read {
                    LocalTokenRead::Found(l) => {
                        if l@ == s.remote->0@ {
                            ProvisionState { phase: ProvisionPhase::Done, remote: s.remote }
                        } else {
                            ProvisionState { phase: ProvisionPhase::Staging, remote: s.remote }
                        }
                    },
                    LocalTokenRead::Missing => ProvisionState {
                        phase: ProvisionPhase::Staging,
                        remote: s.remote,
                    },
                    LocalTokenRead::Unreadable => ProvisionState {
                        phase: ProvisionPhase::Staging,
                        remote: s.remote,
                    },
                }
            } else {
                s
            }
        },
        (ProvisionPhase::Staging, ProvisionEvent::Staged(r)) => match r {
            Ok(_) => ProvisionState { phase: ProvisionPhase::Verifying, remote: s.remote },
            Err(_) => ProvisionState {
                phase: ProvisionPhase::Failed(ErrorKind::Source),
                remote: s.remote,
            },
        },
        (ProvisionPhase::Verifying, ProvisionEvent::Verified(r)) => match r {
            Ok(_) => ProvisionState { phase: ProvisionPhase::Installing, remote: s.remote },
            Err(_) => ProvisionState {
                phase: ProvisionPhase::Failed(ErrorKind::Verification),
                remote: s.remote,
            },
        },
        (ProvisionPhase::Installing, ProvisionEvent::Installed(r)) => match r {
            Ok(_) => ProvisionState { phase: ProvisionPhase::Persisting, remote: s.remote },
            Err(_) => ProvisionState {
                phase: ProvisionPhase::Failed(ErrorKind::Io),
                remote: s.remote,
            },
        },
        (ProvisionPhase::Persisting, ProvisionEvent::TokenPersisted(r)) => match r {
            Ok(_) => ProvisionState { phase: ProvisionPhase::Done, remote: s.remote },
            Err(_) => ProvisionState {
                phase: ProvisionPhase::Failed(ErrorKind::Io),
                remote: s.remote,
            },
        },
        _ => s,
    }
}

/// The outside work each phase waits for; terminal phases wait for none.
pub open spec fn spec_next_action(s: ProvisionState) -> Option<ProvisionAction> {
    match s.phase {
        ProvisionPhase::Start => Some(ProvisionAction::FetchRemoteToken),
        ProvisionPhase::LocalCheck => Some(ProvisionAction::ReadLocalToken),
        ProvisionPhase::Staging => Some(ProvisionAction::StageDownloads),
        ProvisionPhase::Verifying => Some(ProvisionAction::VerifySignature),
        ProvisionPhase::Installing => Some(ProvisionAction::InstallBinary),
        ProvisionPhase::Persisting => Some(ProvisionAction::PersistToken),
        ProvisionPhase::Done => None,
        ProvisionPhase::Failed(_) => None,
    }
}

impl ProvisionState {
    /// A fresh provisioning run.
    pub fn initial() -> (r: ProvisionState)
        ensures
            r == spec_initial_state(),
    {
        ProvisionState { phase: ProvisionPhase::Start, remote: None }
    }

    /// The outside work to perform next, or nothing if the run ended.
    pub fn next_action(&self) -> (r: Option<ProvisionAction>)
        ensures
            r == spec_next_action(*self),
    {
        match self.phase {
            ProvisionPhase::Start => Some(ProvisionAction::FetchRemoteToken),
            ProvisionPhase::LocalCheck => Some(ProvisionAction::ReadLocalToken),
            ProvisionPhase::Staging => Some(ProvisionAction::StageDownloads),
            ProvisionPhase::Verifying => Some(ProvisionAction::VerifySignature),
            ProvisionPhase::Installing => Some(ProvisionAction::InstallBinary),
            ProvisionPhase::Persisting => Some(ProvisionAction::PersistToken),
            ProvisionPhase::Done => None,
            ProvisionPhase::Failed(_) => None,
        }
    }

    /// Consume one event and move to the next phase.
    pub fn step(self, e: ProvisionEvent) -> (r: ProvisionState)
        requires
            expected_event(self, e),
        ensures
            r == spec_step(self, e),
    {
        match (self.phase, e) {
            (ProvisionPhase::Start, ProvisionEvent::RemoteToken(res)) => match res {
                Ok(t) => ProvisionState { phase: ProvisionPhase::LocalCheck, remote: Some(t) },
                Err(_) => ProvisionState {
                    phase: ProvisionPhase::Failed(ErrorKind::Source),
                    remote: self.remote,
                },
            },
            (ProvisionPhase::LocalCheck, ProvisionEvent::LocalToken(read)) => {
                let remote = self.remote;
                match read {
                    LocalTokenRead::Found(l) => {
                        let same = match &remote {
                            Some(t) => l == *t,
                            None => false,
                        };
                        if same {
                            ProvisionState { phase: ProvisionPhase::Done, remote }
                        } else {
                            ProvisionState { phase: ProvisionPhase::Staging, remote }
                        }
                    },
                    LocalTokenRead::Missing => ProvisionState {
                        phase: ProvisionPhase::Staging,
                        remote,
                    },
                    LocalTokenRead::Unreadable => ProvisionState {
                        phase: ProvisionPhase::Staging,
                        remote,
                    },
                }
            },
            (ProvisionPhase::Staging, ProvisionEvent::Staged(res)) => match res {
                Ok(_) => ProvisionState { phase: ProvisionPhase::Verifying, remote: self.remote },
                Err(_) => ProvisionState {
                    phase: ProvisionPhase::Failed(ErrorKind::Source),
                    remote: self.remote,
                },
            },
            (ProvisionPhase::Verifying, ProvisionEvent::Verified(res)) => match res {
                Ok(_) => ProvisionState { phase: ProvisionPhase::Installing, remote: self.remote },
                Err(_) => ProvisionState {
                    phase: ProvisionPhase::Failed(ErrorKind::Verification),
                    remote: self.remote,
                },
            },
            (ProvisionPhase::Installing, ProvisionEvent::Installed(res)) => match res {
                Ok(_) => ProvisionState { phase: ProvisionPhase::Persisting, remote: self.remote },
                Err(_) => ProvisionState {
                    phase: ProvisionPhase::Failed(ErrorKind::Io),
                    remote: self.remote,
                },
            },
            (ProvisionPhase::Persisting, ProvisionEvent::TokenPersisted(res)) => match res {
                Ok(_) => ProvisionState { phase: ProvisionPhase::Done, remote: self.remote },
                Err(_) => ProvisionState {
                    phase: ProvisionPhase::Failed(ErrorKind::Io),
                    remote: self.remote,
                },
            },
            (_, _) => self,
        }
    }
}

/// The state after feeding `es`, in order, to a fresh run.
pub open spec fn spec_run(es: Seq<ProvisionEvent>) -> ProvisionState
    decreases es.len(),
{
    if es.len() == 0 {
        spec_initial_state()
    } else {
        spec_step(spec_run(es.drop_last()), es.last())
    }
}

pub open spec fn is_verified_ok(e: ProvisionEvent) -> bool {
    e matches ProvisionEvent::Verified(r) && r is Ok
}

pub open spec fn some_verified_ok(es: Seq<ProvisionEvent>) -> bool {
    exists|i: int| 0 <= i < es.len() && is_verified_ok(#[trigger] es[i])
}

/// Law (atomic install): whatever events a run is fed, it never asks for
/// the installed binary or the stored token to be replaced unless the
/// signature verification has already succeeded in that run. A failure
/// injected anywhere before the final rename therefore leaves the
/// previously installed binary and token untouched: the caller was never
/// asked to change them.
pub proof fn lemma_no_durable_change_before_verification(es: Seq<ProvisionEvent>)
    ensures
        run_reached_install(es) ==> some_verified_ok(es),
        spec_next_action(spec_run(es)) == Some(ProvisionAction::InstallBinary)
            ==> some_verified_ok(es),
        spec_next_action(spec_run(es)) == Some(ProvisionAction::PersistToken)
            ==> some_verified_ok(es),
    decreases es.len(),
{
    if es.len() > 0 {
        let pre = es.drop_last();
        lemma_no_durable_change_before_verification(pre);
        assert(forall|i: int| 0 <= i < pre.len() ==> pre[i] == #[trigger] es[i]);
        if some_verified_ok(pre) {
            let i = choose|i: int| 0 <= i < pre.len() && is_verified_ok(#[trigger] pre[i]);
            assert(is_verified_ok(es[i]));
        }
        if run_reached_install(es) && !run_reached_install(pre) {
            assert(spec_run(pre).phase == ProvisionPhase::Verifying);
            assert(is_verified_ok(es.last()));
            assert(es[es.len() - 1] == es.last());
        }
    }
}

/// Whether the run stands in a phase from which a durable write may be
/// requested.
pub open spec fn run_reached_install(es: Seq<ProvisionEvent>) -> bool {
    spec_run(es).phase == ProvisionPhase::Installing || spec_run(es).phase
        == ProvisionPhase::Persisting
}

/// Law (idempotence): a run whose remote token equals the stored one ends
/// successfully after the metadata probe and the local read alone — no
/// download, verification, or durable write is ever requested. Since a
/// successful provisioning run persists the remote token, a second run
/// with no remote change is exactly this no-op.
pub proof fn lemma_unchanged_token_skips_download(t: String, l: String)
    requires
        l@ == t@,
    ensures
        ({
            let s0 = spec_initial_state();
            let s1 = spec_step(s0, ProvisionEvent::RemoteToken(Ok(t)));
            let s2 = spec_step(s1, ProvisionEvent::LocalToken(LocalTokenRead::Found(l)));
            &&& s2.phase == ProvisionPhase::Done
            &&& spec_next_action(s0) == Some(ProvisionAction::FetchRemoteToken)
            &&& spec_next_action(s1) == Some(ProvisionAction::ReadLocalToken)
            &&& spec_next_action(s2) is None
        }),
{
}

/// Law (downloads only on a token change): the only way a run comes to
/// stage a download is that the remote token was obtained and the local
/// read did not yield an equal token.
pub proof fn lemma_download_needs_differing_tokens(s: ProvisionState, e: ProvisionEvent)
    requires
        spec_step(s, e).phase == ProvisionPhase::Staging,
        s.phase != ProvisionPhase::Staging,
    ensures
        s.phase == ProvisionPhase::LocalCheck,
        s.remote is Some,
        e matches ProvisionEvent::LocalToken(read) && match read {
            LocalTokenRead::Found(l) => l@ != s.remote->0@,
            LocalTokenRead::Missing => true,
            LocalTokenRead::Unreadable => true,
        },
{
}

/// Whitespace as token trimming understands it.
pub open spec fn is_ws_char(c: char) -> bool {
    c == ' ' || c == '\t' || c == '\n' || c == '\r'
}

/// First index at or after `i` holding no whitespace.
pub open spec fn spec_ws_prefix_end(s: Seq<char>, i: int) -> int
    decreases s.len() - i when 0 <= i <= s.len()
{
    if i < s.len() && is_ws_char(s[i]) {
        spec_ws_prefix_end(s, i + 1)
    } else {
        i
    }
}

/// First index at or before `i` such that everything from it up to `i` is
/// whitespace.
pub open spec fn spec_ws_suffix_start(s: Seq<char>, i: int) -> int
    decreases i when 0 <= i <= s.len()
{
    if i > 0 && is_ws_char(s[i - 1]) {
        spec_ws_suffix_start(s, i - 1)
    } else {
        i
    }
}

/// The text with leading and trailing whitespace removed — the
/// normalization applied to every freshness token, whether read from the
/// metadata probe's header or from the stored token file.
pub open spec fn spec_trim_token(s: Seq<char>) -> Seq<char> {
    let a = spec_ws_prefix_end(s, 0);
    let b = spec_ws_suffix_start(s, s.len() as int);
    if a <= b {
        s.subrange(a, b)
    } else {
        Seq::empty()
    }
}

proof fn lemma_ws_prefix_end(s: Seq<char>, i: int)
    requires
        0 <= i <= s.len(),
    ensures
        i <= spec_ws_prefix_end(s, i) <= s.len(),
    decreases s.len() - i,
{
    if i < s.len() && is_ws_char(s[i]) {
        lemma_ws_prefix_end(s, i + 1);
    }
}

proof fn lemma_ws_suffix_start(s: Seq<char>, i: int)
    requires
        0 <= i <= s.len(),
    ensures
        0 <= spec_ws_suffix_start(s, i) <= i,
    decreases i,
{
    if i > 0 && is_ws_char(s[i - 1]) {
        lemma_ws_suffix_start(s, i - 1);
    }
}

/// Index where the leading whitespace run starting at `i` ends.
fn ws_prefix_end(s: &str, i: usize) -> (r: usize)
    requires
        i <= s@.len(),
    ensures
        r == spec_ws_prefix_end(s@, i as int),
        i <= r <= s@.len(),
    decreases s@.len() - i,
{
    proof {
        lemma_ws_prefix_end(s@, i as int);
    }
    if i < s.unicode_len() {
        let c = s.get_char(i);
        if c == ' ' || c == '\t' || c == '\n' || c == '\r' {
            return ws_prefix_end(s, i + 1);
        }
    }
    i
}

/// Index where the trailing whitespace run ending at `i` starts.
fn ws_suffix_start(s: &str, i: usize) -> (r: usize)
    requires
        i <= s@.len(),
    ensures
        r == spec_ws_suffix_start(s@, i as int),
        r <= i,
    decreases i,
{
    proof {
        lemma_ws_suffix_start(s@, i as int);
    }
    if i > 0 {
        let c = s.get_char(i - 1);
        if c == ' ' || c == '\t' || c == '\n' || c == '\r' {
            return ws_suffix_start(s, i - 1);
        }
    }
    i
}

/// Normalize a freshness token: strip surrounding whitespace.
pub fn trim_token(s: &str) -> (r: String)
    ensures
        r@ == spec_trim_token(s@),
{
    let n = s.unicode_len();
    let a = ws_prefix_end(s, 0);
    let b = ws_suffix_start(s, n);
    if a <= b {
        s.substring_char(a, b).to_owned()
    } else {
        String::new()
    }
}

/// A fully successful provisioning run, stated end to end: probe, read,
/// stage, verify, install, persist, done.
pub proof fn lemma_full_run_succeeds(t: String, read: LocalTokenRead)
    requires
        match read {
            LocalTokenRead::Found(l) => l@ != t@,
            LocalTokenRead::Missing => true,
            LocalTokenRead::Unreadable => true,
        },
    ensures
        ({
            let s1 = spec_step(spec_initial_state(), ProvisionEvent::RemoteToken(Ok(t)));
            let s2 = spec_step(s1, ProvisionEvent::LocalToken(read));
            let s3 = spec_step(s2, ProvisionEvent::Staged(Ok(())));
            let s4 = spec_step(s3, ProvisionEvent::Verified(Ok(())));
            let s5 = spec_step(s4, ProvisionEvent::Installed(Ok(())));
            let s6 = spec_step(s5, ProvisionEvent::TokenPersisted(Ok(())));
            &&& s2.phase == ProvisionPhase::Staging
            &&& s3.phase == ProvisionPhase::Verifying
            &&& s4.phase == ProvisionPhase::Installing
            &&& s5.phase == ProvisionPhase::Persisting
            &&& s6.phase == ProvisionPhase::Done
            &&& s6.remote == Some(t)
        }),
{
}

} // verus!

//! Hot reload: the decisions of the watcher loop. The loop itself (the
//! watcher, the channels and the clock) runs outside; each turn it hands
//! over what it received and the time, and does what it is told.
use vstd::prelude::*;
use crate::text::str_eq;

verus! {

/// What the hot-reload worker reports.
#[derive(Debug, Clone, PartialEq, Eq)]
pub enum HotReloadEvent {
    /// Reload completed and cache has been refreshed.
    Reloaded { path: String },
    /// Reload attempt failed.
    ReloadFailed { path: String, reason: String },
    /// Watcher setup/runtime error.
    WatchError { reason: String },
}

/// How long after a reload further changes are taken for the reload's own
/// writes and ignored, in milliseconds.
pub const SELF_WRITE_SUPPRESSION_MS: u64 = 150;

/// What one turn of the loop received.
#[derive(Debug, Clone, Copy, PartialEq, Eq, Structural)]
pub enum WatchInput {
    /// A stop was requested, or the stop channel is gone.
    Stop,
    /// A file system event; `touches_file` tells whether it concerns the
    /// watched file.
    Changed { touches_file: bool },
    /// The watcher reported an error.
    WatchFailed,
    /// Nothing arrived in time.
    Idle,
    /// The watcher's channel is gone.
    Disconnected,
}

/// What the loop does after a turn.
#[derive(Debug, Clone, Copy, PartialEq, Eq, Structural)]
pub struct TurnOutcome {
    /// Leave the loop.
    pub stop: bool,
    /// Report the watcher's error.
    pub report_error: bool,
    /// Reload the settings (invalidate the cache, read again, report).
    pub reload: bool,
}

/// The state the loop keeps between turns.
#[derive(Debug, Clone, Copy, PartialEq, Eq, Structural)]
pub struct ReloadState {
    /// A change of the watched file waits for its reload.
    pub pending: bool,
    /// When the watched file last changed.
    pub last_change_ms: u64,
    /// Until when changes are taken for the last reload's own writes.
    pub suppress_until_ms: u64,
}

/// The state and outcome of one turn, at time `now` with the debounce
/// window `debounce`.
pub open spec fn turn(s: ReloadState, input: WatchInput, now: u64, debounce: u64) -> (ReloadState, TurnOutcome) {
    if input is Stop || input is Disconnected {
        (s, TurnOutcome { stop: true, report_error: false, reload: false })
    } else {
        let changed = input matches WatchInput::Changed { touches_file } && touches_file;
        let s1 = if changed {
            ReloadState { pending: true, last_change_ms: now, ..s }
        } else {
            s
        };
        let since = if now >= s1.last_change_ms { now - s1.last_change_ms } else { 0 };
        let due = s1.pending && now >= s1.suppress_until_ms && since >= debounce;
        let s2 = if due {
            ReloadState {
                pending: false,
                suppress_until_ms: if now + SELF_WRITE_SUPPRESSION_MS <= u64::MAX {
                    (now + SELF_WRITE_SUPPRESSION_MS) as u64
                } else {
                    u64::MAX
                },
                ..s1
            }
        } else {
            s1
        };
        (s2, TurnOutcome { stop: false, report_error: input is WatchFailed, reload: due })
    }
}

impl ReloadState {
    /// The state when watching starts: nothing pending, nothing suppressed.
    pub fn start(now_ms: u64) -> (r: Self)
        ensures
            !r.pending,
            r.last_change_ms == now_ms,
            r.suppress_until_ms == now_ms,
    {
        ReloadState { pending: false, last_change_ms: now_ms, suppress_until_ms: now_ms }
    }

    /// One turn of the loop: a stop or a lost watcher ends it; a change of
    /// the watched file makes a reload pending; a pending reload runs once
    /// the debounce window has passed since the last change and the
    /// suppression after the previous reload is over.
    pub fn step(&mut self, input: WatchInput, now_ms: u64, debounce_ms: u64) -> (r: TurnOutcome)
        ensures
            (*final(self), r) == turn(*old(self), input, now_ms, debounce_ms),
    {
        match input {
            WatchInput::Stop | WatchInput::Disconnected => {
                return TurnOutcome { stop: true, report_error: false, reload: false };
            },
            _ => {},
        }
        let changed = match input {
            WatchInput::Changed { touches_file } => touches_file,
            _ => false,
        };
        if changed {
            self.pending = true;
            self.last_change_ms = now_ms;
        }
        let due = self.pending && now_ms >= self.suppress_until_ms && now_ms.saturating_sub(self.last_change_ms) >= debounce_ms;
        if due {
            self.pending = false;
            self.suppress_until_ms = now_ms.saturating_add(SELF_WRITE_SUPPRESSION_MS);
        }
        let report_error = match input {
            WatchInput::WatchFailed => true,
            _ => false,
        };
        TurnOutcome { stop: false, report_error, reload: due }
    }
}

/// The last component of a path, as std's `Path::file_name` gives it (`None`
/// for a path that ends in `..` or is a root).
pub uninterp spec fn path_file_name(p: Seq<char>) -> Option<Seq<char>>;

/// Whether two paths are equal as std's `Path` compares them (component by
/// component).
pub uninterp spec fn same_path(a: Seq<char>, b: Seq<char>) -> bool;

/// `Path::file_name`, read back as text; named by `path_file_name`.
#[verifier::external_body]
fn file_name(p: &str) -> (r: Option<String>)
    ensures
        crate::credentials::opt_view(r) == path_file_name(p@),
{
    match std::path::Path::new(p).file_name() {
        Some(n) => Some(n.to_string_lossy().into_owned()),
        None => None,
    }
}

/// `Path`'s `==`; named by `same_path`.
#[verifier::external_body]
fn paths_equal(a: &str, b: &str) -> (r: bool)
    ensures
        r == same_path(a@, b@),
{
    std::path::Path::new(a) == std::path::Path::new(b)
}

/// Whether one path of a watcher event designates the watched file: the
/// same path, or one with the same last component.
pub open spec fn designates(path: Seq<char>, watched: Seq<char>) -> bool {
    same_path(path, watched) || (path_file_name(path) is Some && path_file_name(path) == path_file_name(watched))
}

/// Whether a watcher event concerns the watched file: one of its paths
/// designates it.
pub fn event_touches_file(paths: &Vec<String>, watched_file: &str) -> (r: bool)
    ensures
        r == exists|i: int| 0 <= i < paths@.len() && #[trigger] designates(paths@[i]@, watched_file@),
{
    let watched_name = file_name(watched_file);
    let n = paths.len();
    let mut i: usize = 0;
    while i < n
        invariant
            n == paths@.len(),
            i <= n,
            crate::credentials::opt_view(watched_name) == path_file_name(watched_file@),
            forall|j: int| 0 <= j < i ==> !#[trigger] designates(paths@[j]@, watched_file@),
        decreases n - i,
    {
        let p = paths[i].as_str();
        if paths_equal(p, watched_file) {
            assert(designates(paths@[i as int]@, watched_file@));
            return true;
        }
        let name = file_name(p);
        let same = match (&name, &watched_name) {
            (Some(a), Some(b)) => str_eq(a.as_str(), b.as_str()),
            _ => false,
        };
        if same {
            assert(designates(paths@[i as int]@, watched_file@));
            return true;
        }
        i += 1;
    }
    false
}

/// A reload only ever follows a change of the watched file: the turn that
/// reloads either sees such a change or finds one pending. Afterwards
/// nothing is pending, and no further reload comes before the suppression
/// window has passed.
pub proof fn law_reload_follows_change(s: ReloadState, input: WatchInput, now: u64, debounce: u64)
    ensures
        turn(s, input, now, debounce).1.reload ==> s.pending || input == (WatchInput::Changed { touches_file: true }),
        turn(s, input, now, debounce).1.reload ==> !turn(s, input, now, debounce).0.pending,
        turn(s, input, now, debounce).1.reload && now + SELF_WRITE_SUPPRESSION_MS <= u64::MAX
            ==> turn(s, input, now, debounce).0.suppress_until_ms == now + SELF_WRITE_SUPPRESSION_MS,
{
}

/// Once a reload ran at time `t`, the next turn reloads again only at or
/// after `t + 150` ms, whatever it receives.
pub proof fn law_no_reload_during_suppression(
    s: ReloadState,
    a: WatchInput,
    b: WatchInput,
    t: u64,
    later: u64,
    debounce: u64,
)
    requires
        turn(s, a, t, debounce).1.reload,
        turn(turn(s, a, t, debounce).0, b, later, debounce).1.reload,
        t + SELF_WRITE_SUPPRESSION_MS <= u64::MAX,
    ensures
        later >= t + SELF_WRITE_SUPPRESSION_MS,
{
}

/// A stop ends the loop at once, with nothing reloaded or changed.
pub proof fn law_stop_ends_loop(s: ReloadState, now: u64, debounce: u64)
    ensures
        turn(s, WatchInput::Stop, now, debounce) == (s, TurnOutcome { stop: true, report_error: false, reload: false }),
{
}

} // verus!

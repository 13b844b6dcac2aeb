use vstd::prelude::*;
use crate::text::chars_of;

verus! {

/// Where the one engine session stands.
#[derive(Debug, Clone, Copy, PartialEq, Eq, Structural)]
pub enum Phase {
    /// Nothing was launched yet.
    Idle,
    /// The engine was started and has not exited.
    Running,
    /// The engine has exited; its log is complete.
    Finished,
}

/// Why a launch was refused.
#[derive(Debug, Clone, Copy, PartialEq, Eq, Structural)]
pub enum LaunchError {
    /// The path does not name the engine.
    InvalidExecutable,
    /// The process could not be created.
    SpawnError,
}

/// What `str::to_lowercase` makes of `s`.
pub uninterp spec fn lower_of(s: Seq<char>) -> Seq<char>;

/// Relies on `str::to_lowercase`: the result depends on the characters alone.
#[verifier::external_body]
fn lowercase(s: &str) -> (r: String)
    ensures
        r@ == lower_of(s@),
{
    s.to_lowercase()
}

/// `gzdoom`, which an engine path holds once lower-cased.
pub open spec fn engine_marker() -> Seq<char> {
    seq!['g', 'z', 'd', 'o', 'o', 'm']
}

/// `n` occurs in `h` as a run of consecutive characters.
pub open spec fn contains(h: Seq<char>, n: Seq<char>) -> bool {
    exists|i: int| 0 <= i && i + n.len() <= h.len() && #[trigger] h.subrange(i, i + n.len()) == n
}

/// Whether the lower-cased path `lowered` names the engine.
pub fn names_engine(lowered: &str) -> (r: bool)
    ensures
        r == contains(lowered@, engine_marker()),
{
    let s = chars_of(lowered);
    let w = ['g', 'z', 'd', 'o', 'o', 'm'];
    assert(w@ == engine_marker());
    if s.len() < 6 {
        assert forall|i: int|
            0 <= i && i + 6 <= s@.len() implies #[trigger] s@.subrange(i, i + 6)
            != engine_marker() by {}
        return false;
    }
    let n = s.len();
    let mut i: usize = 0;
    while i <= n - 6
        invariant
            n == s@.len(),
            s@ == lowered@,
            w@ == engine_marker(),
            s@.len() >= 6,
            i <= s@.len() - 5,
            forall|j: int| 0 <= j < i ==> #[trigger] s@.subrange(j, j + 6) != engine_marker(),
        decreases s@.len() - i,
    {
        let mut k: usize = 0;
        while k < 6 && s[i + k] == w[k]
            invariant
                n == s@.len(),
                i + 6 <= n,
                k <= 6,
                forall|q: int| 0 <= q < k ==> s@[i + q] == w@[q],
            decreases 6 - k,
        {
            k = k + 1;
        }
        if k == 6 {
            assert(s@.subrange(i as int, i + 6) =~= engine_marker());
            return true;
        }
        assert(s@.subrange(i as int, i + 6)[k as int] != engine_marker()[k as int]);
        i = i + 1;
    }
    false
}

/// Accepts `path` as the engine's executable where, lower-cased, it holds `gzdoom`.
pub fn check_executable(path: &str) -> (r: Result<(), LaunchError>)
    ensures
        r is Ok <==> contains(lower_of(path@), engine_marker()),
        r is Err ==> r == Err::<(), LaunchError>(LaunchError::InvalidExecutable),
{
    let lowered = lowercase(path);
    if names_engine(lowered.as_str()) {
        Ok(())
    } else {
        Err(LaunchError::InvalidExecutable)
    }
}

/// The timestamps of `log` never decrease.
pub open spec fn stamps_ordered(log: Seq<(u64, Seq<char>)>) -> bool {
    forall|i: int, j: int| 0 <= i <= j < log.len() ==> #[trigger] log[i].0 <= #[trigger] log[j].0
}

/// The session as a phase and the log captured so far: (elapsed milliseconds, line).
pub type SessionView = (Phase, Seq<(u64, Seq<char>)>);

/// The session before any launch.
pub open spec fn idle() -> SessionView {
    (Phase::Idle, Seq::empty())
}

/// A launch that started its process: a fresh, running session with an empty log.
pub open spec fn began(v: SessionView) -> SessionView {
    (Phase::Running, Seq::empty())
}

/// The timestamp that a line read `t` milliseconds after the start is logged with: never
/// earlier than the last one logged.
pub open spec fn stamp(log: Seq<(u64, Seq<char>)>, t: u64) -> u64 {
    if log.len() > 0 && log.last().0 > t {
        log.last().0
    } else {
        t
    }
}

/// A line of output read `t` milliseconds after the start; none is taken before a launch.
pub open spec fn recorded(v: SessionView, t: u64, line: Seq<char>) -> SessionView {
    if v.0 == Phase::Idle {
        v
    } else {
        (v.0, v.1.push((stamp(v.1, t), line)))
    }
}

/// The process exited: a running session is finished; any other stays as it is.
pub open spec fn finished(v: SessionView) -> SessionView {
    if v.0 == Phase::Running {
        (Phase::Finished, v.1)
    } else {
        v
    }
}

/// What a poll returns: the whole log once the session is finished, nothing before.
pub open spec fn polled(v: SessionView) -> Option<Seq<(u64, Seq<char>)>> {
    if v.0 == Phase::Finished {
        Some(v.1)
    } else {
        None
    }
}

/// The one engine session: its phase and the output lines captured from the process.
pub struct Session {
    phase: Phase,
    log: Vec<(u64, String)>,
}

impl View for Session {
    type V = SessionView;

    closed spec fn view(&self) -> SessionView {
        (self.phase, self.log@.map_values(|e: (u64, String)| (e.0, e.1@)))
    }
}

impl Session {
    /// The log is ordered by time, and empty before any launch.
    pub closed spec fn wf(&self) -> bool {
        &&& stamps_ordered(self@.1)
        &&& self.phase == Phase::Idle ==> self.log@.len() == 0
    }

    pub fn new() -> (r: Session)
        ensures
            r.wf(),
            r@ == idle(),
    {
        let r = Session { phase: Phase::Idle, log: Vec::new() };
        assert(r@.1 =~= Seq::<(u64, Seq<char>)>::empty());
        r
    }

    pub fn phase(&self) -> (r: Phase)
        ensures
            r == self@.0,
    {
        self.phase
    }

    /// Records the outcome of spawning the engine: on success the session starts afresh,
    /// replacing the previous one; on failure it is left as it was.
    ///
    /// A launch is accepted while another process still runs. Its session is then replaced,
    /// and lines that the earlier process still prints are appended to the new log.
    pub fn on_spawn(&mut self, spawned: bool) -> (r: Result<(), LaunchError>)
        requires
            old(self).wf(),
        ensures
            final(self).wf(),
            spawned ==> r is Ok && final(self)@ == began(old(self)@),
            !spawned ==> r == Err::<(), LaunchError>(LaunchError::SpawnError) && final(self)@ == old(
                self,
            )@,
    {
        if spawned {
            self.phase = Phase::Running;
            self.log = Vec::new();
            assert(self@.1 =~= Seq::<(u64, Seq<char>)>::empty());
            Ok(())
        } else {
            Err(LaunchError::SpawnError)
        }
    }

    /// Appends a line of the process's output, read `elapsed_ms` after the start.
    pub fn record(&mut self, elapsed_ms: u64, line: String)
        requires
            old(self).wf(),
        ensures
            final(self).wf(),
            final(self)@ == recorded(old(self)@, elapsed_ms, line@),
    {
        if self.phase == Phase::Idle {
            return;
        }
        let ghost before = self@.1;
        let n = self.log.len();
        let t = if n > 0 && self.log[n - 1].0 > elapsed_ms {
            self.log[n - 1].0
        } else {
            elapsed_ms
        };
        assert(n > 0 ==> before.last().0 == self.log@[n - 1].0);
        let ghost l = line@;
        self.log.push((t, line));
        assert(self@.1 =~= before.push((t, l)));
        assert(t == stamp(before, elapsed_ms));
    }

    /// Marks the process as exited.
    pub fn finish(&mut self)
        requires
            old(self).wf(),
        ensures
            final(self).wf(),
            final(self)@ == finished(old(self)@),
    {
        if self.phase == Phase::Running {
            self.phase = Phase::Finished;
        }
    }

    /// The whole log once the process has exited; `None` before a launch and while it runs.
    pub fn poll_log(&self) -> (r: Option<Vec<(u64, String)>>)
        requires
            self.wf(),
        ensures
            r is Some <==> polled(self@) is Some,
            r matches Some(l) ==> polled(self@) == Some(
                l@.map_values(|e: (u64, String)| (e.0, e.1@)),
            ),
            r matches Some(l) ==> stamps_ordered(l@.map_values(|e: (u64, String)| (e.0, e.1@))),
    {
        if self.phase != Phase::Finished {
            return None;
        }
        let mut out: Vec<(u64, String)> = Vec::new();
        let mut i: usize = 0;
        while i < self.log.len()
            invariant
                i <= self.log@.len(),
                out@.len() == i,
                forall|j: int|
                    0 <= j < i ==> (#[trigger] out@[j]).0 == self.log@[j].0 && out@[j].1@
                        == self.log@[j].1@,
            decreases self.log@.len() - i,
        {
            let e = &self.log[i];
            out.push((e.0, e.1.clone()));
            i = i + 1;
        }
        assert(out@.map_values(|e: (u64, String)| (e.0, e.1@)) =~= self@.1);
        Some(out)
    }
}

/// Nothing can be polled before a launch, nor while the launched process runs, whatever it
/// prints; once it has exited, the poll returns the whole log, its timestamps in order.
pub proof fn lemma_poll_lifecycle(v: SessionView, t: u64, line: Seq<char>)
    requires
        stamps_ordered(v.1),
    ensures
        polled(idle()) is None,
        polled(began(v)) is None,
        v.0 != Phase::Finished ==> polled(recorded(v, t, line)) is None,
        v.0 == Phase::Running ==> polled(finished(v)) == Some(v.1),
        polled(v) matches Some(log) ==> stamps_ordered(log),
{
}

} // verus!

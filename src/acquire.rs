//! The decisions of tool acquisition: check the cached copy, download up to a
//! fixed number of times, and promote a download only once its digest matches.
//! The caller performs each action and reports what came of it.

use vstd::prelude::*;
use vstd::string::*;

use crate::platform::Arch;
use crate::text::same_text;

verus! {

/// How many downloads are tried before acquisition fails.
pub const MAX_ATTEMPTS: u32 = 3;

/// An external tool to acquire.
pub struct ToolSpec {
    pub arch: Arch,
    pub url: String,
    pub filename: String,
    /// The expected SHA-256 digest, in lower-case hexadecimal.
    pub sha256: String,
}

#[derive(Clone, Copy, Debug, PartialEq, Eq, Structural)]
pub enum Phase {
    /// Waiting for the digest of the cached file.
    CheckingCache,
    /// Waiting for the digest of the latest download.
    Fetching,
    /// A verified copy is in the cache.
    Acquired,
    /// Every attempt failed.
    Failed,
}

/// What the caller reports.
pub enum Event {
    /// The digest of the cached file, or `None` when there is no readable file.
    CacheChecked(Option<String>),
    /// The digest of the downloaded temporary file, or `None` when the download
    /// or the hashing failed.
    Fetched(Option<String>),
}

/// What the caller does next.
#[derive(Clone, Copy, Debug, PartialEq, Eq, Structural)]
pub enum Action {
    /// Download the tool to a fresh temporary path.
    Download,
    /// Rename the verified temporary file to the cache path.
    Promote,
    /// Use the cached file as it is.
    UseCached,
    /// Stop: the tool could not be acquired.
    GiveUp,
    /// Nothing: the event does not belong to this phase.
    Ignore,
}

#[derive(Debug)]
pub enum AcquireError {
    /// Every attempt failed; it holds the tool's file name.
    ToolAcquisition(String),
}

pub struct ToolAcquisition {
    pub expected: String,
    pub attempts: u32,
    pub phase: Phase,
}

/// An event over plain values.
pub enum EventView {
    CacheChecked(Option<Seq<char>>),
    Fetched(Option<Seq<char>>),
}

pub open spec fn event_view(e: Event) -> EventView {
    match e {
        Event::CacheChecked(d) => EventView::CacheChecked(
            match d {
                Some(s) => Some(s@),
                None => None,
            },
        ),
        Event::Fetched(d) => EventView::Fetched(
            match d {
                Some(s) => Some(s@),
                None => None,
            },
        ),
    }
}

/// The state of an acquisition over plain values: the expected digest, the
/// downloads begun, and the phase.
pub struct AcqView {
    pub expected: Seq<char>,
    pub attempts: nat,
    pub phase: Phase,
}

impl ToolAcquisition {
    pub open spec fn view(&self) -> AcqView {
        AcqView { expected: self.expected@, attempts: self.attempts as nat, phase: self.phase }
    }

    pub open spec fn wf(&self) -> bool {
        self.attempts <= MAX_ATTEMPTS
    }
}

/// Whether a reported digest is present and equal to the expected one.
pub open spec fn digest_ok(d: Option<Seq<char>>, expected: Seq<char>) -> bool {
    d matches Some(x) && x == expected
}

/// The state that acquisition starts in.
pub open spec fn initial(expected: Seq<char>) -> AcqView {
    AcqView { expected, attempts: 0, phase: Phase::CheckingCache }
}

/// One transition: the next state and the action that goes with it.
pub open spec fn next_spec(s: AcqView, e: EventView) -> (AcqView, Action) {
    match (s.phase, e) {
        (Phase::CheckingCache, EventView::CacheChecked(d)) => if digest_ok(d, s.expected) {
            (AcqView { phase: Phase::Acquired, ..s }, Action::UseCached)
        } else {
            (AcqView { attempts: 1, phase: Phase::Fetching, ..s }, Action::Download)
        },
        (Phase::Fetching, EventView::Fetched(d)) => if digest_ok(d, s.expected) {
            (AcqView { phase: Phase::Acquired, ..s }, Action::Promote)
        } else if s.attempts < MAX_ATTEMPTS {
            (AcqView { attempts: s.attempts + 1, ..s }, Action::Download)
        } else {
            (AcqView { phase: Phase::Failed, ..s }, Action::GiveUp)
        },
        _ => (s, Action::Ignore),
    }
}

/// The actions taken over a sequence of events, from state `s`.
pub open spec fn run(s: AcqView, es: Seq<EventView>) -> Seq<Action>
    decreases es.len(),
{
    if es.len() == 0 {
        Seq::empty()
    } else {
        let (t, a) = next_spec(s, es[0]);
        seq![a] + run(t, es.drop_first())
    }
}

/// The state after a sequence of events, from state `s`.
pub open spec fn run_state(s: AcqView, es: Seq<EventView>) -> AcqView
    decreases es.len(),
{
    if es.len() == 0 {
        s
    } else {
        run_state(next_spec(s, es[0]).0, es.drop_first())
    }
}

impl ToolAcquisition {
    /// A new acquisition of the tool with the expected digest.
    pub fn new(expected: &str) -> (r: ToolAcquisition)
        ensures
            r@ == initial(expected@),
            r.wf(),
    {
        ToolAcquisition { expected: expected.to_owned(), attempts: 0, phase: Phase::CheckingCache }
    }

    /// Takes in what came of the last action and says what to do next.
    pub fn next(&mut self, event: &Event) -> (a: Action)
        requires
            old(self).wf(),
        ensures
            final(self).wf(),
            (final(self)@, a) == next_spec(old(self)@, event_view(*event)),
    {
        match (self.phase, event) {
            (Phase::CheckingCache, Event::CacheChecked(d)) => {
                let ok = match d {
                    Some(x) => same_text(x.as_str(), self.expected.as_str()),
                    None => false,
                };
                if ok {
                    self.phase = Phase::Acquired;
                    Action::UseCached
                } else {
                    self.attempts = 1;
                    self.phase = Phase::Fetching;
                    Action::Download
                }
            },
            (Phase::Fetching, Event::Fetched(d)) => {
                let ok = match d {
                    Some(x) => same_text(x.as_str(), self.expected.as_str()),
                    None => false,
                };
                if ok {
                    self.phase = Phase::Acquired;
                    Action::Promote
                } else if self.attempts < MAX_ATTEMPTS {
                    self.attempts = self.attempts + 1;
                    Action::Download
                } else {
                    self.phase = Phase::Failed;
                    Action::GiveUp
                }
            },
            _ => Action::Ignore,
        }
    }

    /// The result once acquisition has ended: `None` while it goes on.
    pub fn outcome(&self, tool: &ToolSpec) -> (r: Option<Result<(), AcquireError>>)
        ensures
            self.phase == Phase::Acquired ==> r matches Some(Ok(())),
            self.phase == Phase::Failed ==> (r matches Some(Err(AcquireError::ToolAcquisition(f)))
                && f@ == tool.filename@),
            (self.phase == Phase::CheckingCache || self.phase == Phase::Fetching) ==> r is None,
    {
        match self.phase {
            Phase::Acquired => Some(Ok(())),
            Phase::Failed => Some(Err(AcquireError::ToolAcquisition(tool.filename.clone()))),
            _ => None,
        }
    }
}

/// A cached file whose digest matches is used as it is: acquisition ends at once,
/// with no download.
pub proof fn cache_hit_downloads_nothing(expected: Seq<char>, es: Seq<EventView>)
    requires
        es.len() >= 1,
        es[0] matches EventView::CacheChecked(d) && digest_ok(d, expected),
    ensures
        run(initial(expected), es)[0] == Action::UseCached,
        forall|i: int| 0 <= i < es.len() ==> run(initial(expected), es)[i] != Action::Download,
        run_state(initial(expected), es).phase == Phase::Acquired,
{
    let s1 = next_spec(initial(expected), es[0]).0;
    assert(s1.phase == Phase::Acquired);
    lemma_ended_stays(s1, es.drop_first());
    assert(run(initial(expected), es) == seq![Action::UseCached] + run(s1, es.drop_first()));
}

/// Once acquisition has ended, every further event is ignored.
proof fn lemma_ended_stays(s: AcqView, es: Seq<EventView>)
    requires
        s.phase == Phase::Acquired || s.phase == Phase::Failed,
    ensures
        run(s, es).len() == es.len(),
        forall|i: int| 0 <= i < es.len() ==> run(s, es)[i] == Action::Ignore,
        run_state(s, es) == s,
    decreases es.len(),
{
    if es.len() > 0 {
        lemma_ended_stays(s, es.drop_first());
    }
}

/// When the cached copy and every download fail verification, exactly
/// `MAX_ATTEMPTS` downloads are made, and then acquisition fails.
pub proof fn mismatches_exhaust_attempts(expected: Seq<char>, es: Seq<EventView>)
    requires
        es.len() == 4,
        es[0] matches EventView::CacheChecked(d) && !digest_ok(d, expected),
        forall|i: int| 1 <= i < 4 ==> ((#[trigger] es[i]) matches EventView::Fetched(d) && !digest_ok(d, expected)),
    ensures
        run(initial(expected), es) == seq![Action::Download, Action::Download, Action::Download, Action::GiveUp],
        run_state(initial(expected), es).phase == Phase::Failed,
        run_state(initial(expected), es).attempts == MAX_ATTEMPTS,
{
    let s0 = initial(expected);
    let s1 = next_spec(s0, es[0]).0;
    let e1 = es.drop_first();
    let s2 = next_spec(s1, e1[0]).0;
    let e2 = e1.drop_first();
    let s3 = next_spec(s2, e2[0]).0;
    let e3 = e2.drop_first();
    let s4 = next_spec(s3, e3[0]).0;
    let e4 = e3.drop_first();
    assert(e1[0] == es[1]);
    assert(e2[0] == es[2]);
    assert(e3[0] == es[3]);
    assert(e4.len() == 0);
    assert(s1.attempts == 1 && s1.phase == Phase::Fetching);
    assert(s2.attempts == 2 && s2.phase == Phase::Fetching);
    assert(s3.attempts == 3 && s3.phase == Phase::Fetching);
    assert(s4.phase == Phase::Failed);
    assert(run(s4, e4) == Seq::<Action>::empty());
    assert(run_state(s4, e4) == s4);
    assert(run_state(s3, e3) == s4);
    assert(run_state(s2, e2) == s4);
    assert(run_state(s1, e1) == s4);
    assert(run(s3, e3) =~= seq![Action::GiveUp]);
    assert(run(s2, e2) =~= seq![Action::Download, Action::GiveUp]);
    assert(run(s1, e1) =~= seq![Action::Download, Action::Download, Action::GiveUp]);
    assert(run(s0, es) =~= seq![Action::Download, Action::Download, Action::Download, Action::GiveUp]);
}

} // verus!

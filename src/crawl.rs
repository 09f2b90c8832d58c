//! The crawl engine's decisions. The frontier and its visited set, the fetch
//! throttle, the reconnect policy, the worker and the coordinator are state
//! machines here; the caller performs each action they name (network calls,
//! waits, channel sends) and reports back what happened.
use vstd::prelude::*;

use crate::config::{copy_strings, WebCrawlerConfig};
use crate::filter::{
    all_compile, crawl_allowed, joined_url, parsed_url, patterns_of, unfragmented, UrlFilter,
    UrlFilterConfig, UrlView, WebUrl,
};
use crate::parsers::text::TextParserOptions;
use crate::parsers::{classify, extracted_links, extracted_text, Parser};
use crate::results::PageData;
use crate::strs::{chars_of, contains_seq, has_substring, string_views};

verus! {

/// How many URLs the frontier holds waiting at most.
pub const FRONTIER_CAPACITY: usize = 10000;

/// What became of a URL offered to the frontier.
#[derive(Debug, Clone, Copy, PartialEq, Eq, Structural)]
pub enum Offer {
    /// It is recorded as visited and waits in the queue.
    Queued,
    /// It was queued before (and may have been fetched); nothing changed.
    AlreadyVisited,
    /// The queue is full; nothing changed, and the caller waits and offers it again.
    Full,
}

/// Whether `s` holds `x` at some position.
pub open spec fn seq_has(s: Seq<Seq<char>>, x: Seq<char>) -> bool {
    exists|i: int| 0 <= i < s.len() && #[trigger] s[i] == x
}

/// The pending URLs and the visited set, shared by all workers under one lock.
/// A URL enters the visited set when it is queued, in one step with the check
/// that it was not there: it is queued, and handed out, at most once.
pub struct Frontier {
    visited: Vec<String>,
    pending: std::collections::VecDeque<String>,
    capacity: usize,
    taken: Ghost<Seq<Seq<char>>>,
}

fn holds(v: &Vec<String>, u: &String) -> (r: bool)
    ensures
        r == seq_has(string_views(v@), u@),
{
    let mut i: usize = 0;
    while i < v.len()
        invariant
            i <= v.len(),
            forall|k: int| 0 <= k < i ==> #[trigger] string_views(v@)[k] != u@,
        decreases v.len() - i,
    {
        if v[i] == *u {
            assert(string_views(v@)[i as int] == u@);
            return true;
        }
        i += 1;
    }
    false
}

impl Frontier {
    /// The URLs ever queued, in the order they were queued.
    pub closed spec fn visited(&self) -> Seq<Seq<char>> {
        string_views(self.visited@)
    }

    /// The URLs waiting, first to leave first.
    pub closed spec fn pending(&self) -> Seq<Seq<char>> {
        string_views(self.pending@)
    }

    /// The URLs handed out for fetching, in the order they left the queue.
    pub closed spec fn taken(&self) -> Seq<Seq<char>> {
        self.taken@
    }

    /// How many URLs may wait at once.
    pub closed spec fn capacity(&self) -> nat {
        self.capacity as nat
    }

    /// No URL is recorded twice; every recorded URL has either been handed
    /// out or still waits, in the order it was queued; and no more URLs wait
    /// than the capacity allows.
    pub open spec fn wf(&self) -> bool {
        &&& self.visited().no_duplicates()
        &&& self.visited() == self.taken() + self.pending()
        &&& self.pending().len() <= self.capacity()
    }

    /// An empty frontier that holds up to `capacity` waiting URLs.
    pub fn new(capacity: usize) -> (r: Frontier)
        ensures
            r.wf(),
            r.visited() == Seq::<Seq<char>>::empty(),
            r.pending() == Seq::<Seq<char>>::empty(),
            r.taken() == Seq::<Seq<char>>::empty(),
            r.capacity() == capacity,
    {
        let r = Frontier {
            visited: Vec::new(),
            pending: std::collections::VecDeque::new(),
            capacity,
            taken: Ghost(Seq::empty()),
        };
        assert(r.visited() =~= Seq::<Seq<char>>::empty());
        assert(r.pending() =~= Seq::<Seq<char>>::empty());
        assert(r.taken() + r.pending() =~= Seq::<Seq<char>>::empty());
        r
    }

    /// Whether `url` has been queued before.
    pub fn is_visited(&self, url: &String) -> (r: bool)
        ensures
            r == seq_has(self.visited(), url@),
    {
        holds(&self.visited, url)
    }

    /// How many URLs wait.
    pub fn pending_len(&self) -> (r: usize)
        ensures
            r == self.pending().len(),
    {
        self.pending.len()
    }

    /// Offers a URL: unless it was queued before or the queue is full, it is
    /// recorded as visited and queued, in one step with the check. Of any
    /// number of offers of one URL, only the first that finds room queues it.
    pub fn offer(&mut self, url: String) -> (r: Offer)
        requires
            old(self).wf(),
        ensures
            final(self).wf(),
            final(self).capacity() == old(self).capacity(),
            final(self).taken() == old(self).taken(),
            r == (if seq_has(old(self).visited(), url@) {
                Offer::AlreadyVisited
            } else if old(self).pending().len() >= old(self).capacity() {
                Offer::Full
            } else {
                Offer::Queued
            }),
            r == Offer::Queued ==> final(self).visited() == old(self).visited().push(url@)
                && final(self).pending() == old(self).pending().push(url@),
            r != Offer::Queued ==> final(self).visited() == old(self).visited()
                && final(self).pending() == old(self).pending(),
    {
        if holds(&self.visited, &url) {
            return Offer::AlreadyVisited;
        }
        if self.pending.len() >= self.capacity {
            return Offer::Full;
        }
        let ghost before_v = self.visited@;
        let ghost before_p = self.pending@;
        self.visited.push(url.clone());
        self.pending.push_back(url);
        proof {
            let u = self.pending@.last()@;
            assert(string_views(self.pending@) =~= string_views(before_p).push(u));
            assert(string_views(self.visited@) =~= string_views(before_v).push(u));
            assert(self.taken@ + string_views(self.pending@) =~= (self.taken@ + string_views(
                before_p,
            )).push(u));
            let s = string_views(self.visited@);
            assert forall|i: int, j: int| 0 <= i < s.len() && 0 <= j < s.len() && i != j implies s[i]
                != s[j] by {
                if i < s.len() - 1 && j < s.len() - 1 {
                    assert(s[i] == string_views(before_v)[i]);
                    assert(s[j] == string_views(before_v)[j]);
                } else if i == s.len() - 1 {
                    assert(string_views(before_v)[j] == s[j]);
                } else {
                    assert(string_views(before_v)[i] == s[i]);
                }
            }
        }
        Offer::Queued
    }

    /// Hands out the first waiting URL for fetching. It was recorded as
    /// visited when it was queued, so no other worker can be handed it.
    pub fn next_claimed(&mut self) -> (r: Option<String>)
        requires
            old(self).wf(),
        ensures
            final(self).wf(),
            final(self).visited() == old(self).visited(),
            final(self).capacity() == old(self).capacity(),
            match r {
                Some(u) => old(self).pending().len() > 0 && u@ == old(self).pending()[0]
                    && final(self).pending() == old(self).pending().drop_first()
                    && final(self).taken() == old(self).taken().push(u@),
                None => old(self).pending().len() == 0 && final(self).pending() == old(self).pending()
                    && final(self).taken() == old(self).taken(),
            },
    {
        let ghost before = self.pending@;
        let r = self.pending.pop_front();
        match &r {
            Some(u) => {
                proof {
                    let t = self.taken@;
                    assert(string_views(self.pending@) =~= string_views(before).drop_first());
                    self.taken = Ghost(t.push(u@));
                    assert(t.push(u@) + string_views(self.pending@) =~= t + string_views(before));
                }
            },
            None => {},
        }
        r
    }
}

/// The URLs handed out for fetching are pairwise distinct: no URL is
/// fetched twice in a crawl.
pub proof fn lemma_fetched_at_most_once(f: &Frontier, i: int, j: int)
    requires
        f.wf(),
        0 <= i < f.taken().len(),
        0 <= j < f.taken().len(),
        i != j,
    ensures
        f.taken()[i] != f.taken()[j],
{
    assert(f.visited()[i] == f.taken()[i]);
    assert(f.visited()[j] == f.taken()[j]);
}

/// A URL that was handed out, or that waits, is recorded: every further
/// offer of it leaves the frontier unchanged.
pub proof fn lemma_recorded_once_handed_out(f: &Frontier, u: Seq<char>)
    requires
        f.wf(),
        seq_has(f.taken(), u) || seq_has(f.pending(), u),
    ensures
        seq_has(f.visited(), u),
{
    if seq_has(f.taken(), u) {
        let i = choose|i: int| 0 <= i < f.taken().len() && #[trigger] f.taken()[i] == u;
        assert(f.visited()[i] == u);
    } else {
        let i = choose|i: int| 0 <= i < f.pending().len() && #[trigger] f.pending()[i] == u;
        assert(f.visited()[f.taken().len() + i] == u);
    }
}

/// The permit pool bounding how many fetches are in flight.
pub struct Throttle {
    max: usize,
    in_flight: usize,
}

impl Throttle {
    /// The number of permits.
    pub closed spec fn max(&self) -> nat {
        self.max as nat
    }

    /// The permits held now.
    pub closed spec fn in_flight(&self) -> nat {
        self.in_flight as nat
    }

    /// Never more fetches in flight than permits.
    pub open spec fn wf(&self) -> bool {
        self.in_flight() <= self.max()
    }

    /// A pool of `max` permits, none held.
    pub fn new(max: usize) -> (r: Throttle)
        ensures
            r.wf(),
            r.max() == max,
            r.in_flight() == 0,
    {
        Throttle { max, in_flight: 0 }
    }

    /// Takes a permit where one is free.
    pub fn try_acquire(&mut self) -> (r: bool)
        requires
            old(self).wf(),
        ensures
            final(self).wf(),
            final(self).max() == old(self).max(),
            r == (old(self).in_flight() < old(self).max()),
            r ==> final(self).in_flight() == old(self).in_flight() + 1,
            !r ==> final(self).in_flight() == old(self).in_flight(),
    {
        if self.in_flight < self.max {
            self.in_flight = self.in_flight + 1;
            true
        } else {
            false
        }
    }

    /// Returns a permit.
    pub fn release(&mut self)
        requires
            old(self).wf(),
            old(self).in_flight() > 0,
        ensures
            final(self).wf(),
            final(self).max() == old(self).max(),
            final(self).in_flight() == old(self).in_flight() - 1,
    {
        self.in_flight = self.in_flight - 1;
    }

    /// Whether a permit is held.
    pub fn is_busy(&self) -> (r: bool)
        ensures
            r == (self.in_flight() > 0),
    {
        self.in_flight > 0
    }
}

/// What to do after a fetch attempt failed.
#[derive(Debug, Clone, Copy, PartialEq, Eq, Structural)]
pub enum FailureAction {
    /// Replace the session with a fresh one and try the same URL again.
    Reconnect,
    /// Give the URL up.
    Abandon,
}

/// The decision after a failure: reconnect only for a lost session, and only once.
pub open spec fn failure_action(reconnected: bool, session_lost: bool) -> FailureAction {
    if session_lost && !reconnected {
        FailureAction::Reconnect
    } else {
        FailureAction::Abandon
    }
}

/// The reconnect policy for one URL.
pub struct RetryPolicy {
    reconnected: bool,
}

impl RetryPolicy {
    /// Whether the session was replaced for this URL already.
    pub closed spec fn reconnected(&self) -> bool {
        self.reconnected
    }

    /// The policy for a URL not yet tried.
    pub fn new() -> (r: RetryPolicy)
        ensures
            !r.reconnected(),
    {
        RetryPolicy { reconnected: false }
    }

    /// Decides after a failed attempt; `session_lost` tells whether the
    /// failure has the lost-session signature.
    pub fn on_failure(&mut self, session_lost: bool) -> (r: FailureAction)
        ensures
            r == failure_action(old(self).reconnected(), session_lost),
            final(self).reconnected() == (old(self).reconnected() || r == FailureAction::Reconnect),
    {
        if session_lost && !self.reconnected {
            self.reconnected = true;
            FailureAction::Reconnect
        } else {
            FailureAction::Abandon
        }
    }
}

/// Running the policy of a fresh URL over the failures `lost` (each true
/// where the session was lost): whether it reconnected, and how many times.
pub open spec fn run_failures(lost: Seq<bool>) -> (bool, nat)
    decreases lost.len(),
{
    if lost.len() == 0 {
        (false, 0)
    } else {
        let prev = run_failures(lost.drop_last());
        let a = failure_action(prev.0, lost.last());
        if a == FailureAction::Reconnect {
            (true, prev.1 + 1)
        } else {
            prev
        }
    }
}

/// Whatever the failures of one URL, its session is replaced at most once.
pub proof fn lemma_at_most_one_reconnect(lost: Seq<bool>)
    ensures
        run_failures(lost).1 <= 1,
        run_failures(lost).1 == 1 <==> run_failures(lost).0,
    decreases lost.len(),
{
    if lost.len() > 0 {
        lemma_at_most_one_reconnect(lost.drop_last());
    }
}

/// Where every attempt loses the session, the first failure reconnects and
/// the second abandons the URL: it is never tried a third time.
pub proof fn lemma_reconnect_then_abandon(p: RetryPolicy)
    requires
        !p.reconnected(),
    ensures
        failure_action(p.reconnected(), true) == FailureAction::Reconnect,
        failure_action(true, true) == FailureAction::Abandon,
{
}

/// Whether a failure message has the lost-session signature.
pub open spec fn is_session_loss(message: Seq<char>) -> bool {
    contains_seq(message, "Unable to find session"@)
}

/// Whether a transport failure message says the session was lost.
pub fn session_lost(message: &str) -> (r: bool)
    ensures
        r == is_session_loss(message@),
{
    let m = chars_of(message);
    has_substring(&m, "Unable to find session")
}

/// The endpoints tried after the primary one, in order.
pub open spec fn fallback_endpoints() -> Seq<Seq<char>> {
    seq![
        "http://localhost:9515"@,
        "http://localhost:4723"@,
        "http://localhost:9222"@,
        "http://127.0.0.1:4444"@,
    ]
}

/// The primary endpoint, then the fallbacks of `fs` that differ from it.
pub open spec fn endpoints_from(primary: Seq<char>, fs: Seq<Seq<char>>) -> Seq<Seq<char>>
    decreases fs.len(),
{
    if fs.len() == 0 {
        seq![primary]
    } else {
        let prev = endpoints_from(primary, fs.drop_last());
        if fs.last() == primary {
            prev
        } else {
            prev.push(fs.last())
        }
    }
}

/// The endpoints to connect to, in order: the primary, then each fallback
/// that is not the primary. The first that connects wins.
pub fn connection_candidates(primary: &str) -> (r: Vec<String>)
    ensures
        string_views(r@) == endpoints_from(primary@, fallback_endpoints()),
{
    let mut fallbacks: Vec<&str> = Vec::new();
    fallbacks.push("http://localhost:9515");
    fallbacks.push("http://localhost:4723");
    fallbacks.push("http://localhost:9222");
    fallbacks.push("http://127.0.0.1:4444");
    let ghost fs = fallback_endpoints();
    assert(fallbacks@.map_values(|s: &str| s@) =~= fs);
    let p = String::from_str(primary);
    let mut out: Vec<String> = Vec::new();
    out.push(String::from_str(primary));
    assert(string_views(out@) =~= endpoints_from(primary@, fs.subrange(0, 0)));
    let mut i: usize = 0;
    while i < fallbacks.len()
        invariant
            i <= fallbacks.len(),
            fallbacks@.map_values(|s: &str| s@) == fs,
            fs == fallback_endpoints(),
            p@ == primary@,
            string_views(out@) == endpoints_from(primary@, fs.subrange(0, i as int)),
        decreases fallbacks.len() - i,
    {
        assert(fs.subrange(0, i + 1).drop_last() =~= fs.subrange(0, i as int));
        assert(fallbacks@[i as int]@ == fs[i as int]);
        let f = String::from_str(fallbacks[i]);
        if f != p {
            let ghost before = out@;
            out.push(f);
            assert(string_views(out@) =~= string_views(before).push(fs[i as int]));
        }
        i += 1;
    }
    assert(fs.subrange(0, fallbacks.len() as int) =~= fs);
    out
}

/// Seconds a worker waits for a URL before it ends: the first worker waits
/// longest, later ones less, down to one second.
pub open spec fn dequeue_timeout(worker_id: nat) -> nat {
    if worker_id == 0 {
        5
    } else if worker_id < 4 {
        (5 - worker_id) as nat
    } else {
        1
    }
}

/// The seconds worker `worker_id` waits for a URL before it ends.
pub fn dequeue_timeout_secs(worker_id: usize) -> (r: u64)
    ensures
        r == dequeue_timeout(worker_id as nat),
{
    if worker_id == 0 {
        5
    } else {
        let capped: u64 = if worker_id < 4 {
            worker_id as u64
        } else {
            4
        };
        5 - capped
    }
}

/// Every wait is bounded, the first worker's is the longest, and waits do
/// not grow with the worker's index.
pub proof fn lemma_dequeue_timeout_shape(i: nat, j: nat)
    requires
        i <= j,
    ensures
        1 <= dequeue_timeout(j) <= dequeue_timeout(i) <= dequeue_timeout(0) == 5,
{
}

/// What a worker does next.
#[derive(Debug, Clone, Copy, PartialEq, Eq, Structural)]
pub enum WorkerStep {
    /// Wait for the next claimed URL.
    Dequeue,
    /// Open a session for the claimed URL.
    Connect,
    /// Fetch the claimed URL through the session.
    Fetch,
    /// Emit the page record, then offer its links.
    Emit,
    /// Close the session, then end.
    CloseAndStop,
    /// End; there is no session to close.
    Stop,
}

/// One worker's loop state: whether it holds a session, whether it ended,
/// and whether it ended because no one received its pages.
pub struct Worker {
    has_session: bool,
    finished: bool,
    failed: bool,
}

impl Worker {
    /// Whether the worker holds an open session.
    pub closed spec fn has_session(&self) -> bool {
        self.has_session
    }

    /// Whether the worker has ended.
    pub closed spec fn finished(&self) -> bool {
        self.finished
    }

    /// Whether the worker ended because a page could not be emitted.
    pub closed spec fn failed(&self) -> bool {
        self.failed
    }

    /// A worker that holds no session: one is opened only for a URL.
    pub fn new() -> (r: Worker)
        ensures
            !r.has_session(),
            !r.finished(),
            !r.failed(),
    {
        Worker { has_session: false, finished: false, failed: false }
    }

    /// Whether the worker ended because a page could not be emitted.
    pub fn ended_by_failure(&self) -> (r: bool)
        ensures
            r == self.failed(),
    {
        self.failed
    }

    /// Whether the worker holds an open session.
    pub fn holds_session(&self) -> (r: bool)
        ensures
            r == self.has_session(),
    {
        self.has_session
    }

    /// A URL was claimed: connect first where there is no session yet.
    pub fn on_claimed(&mut self) -> (r: WorkerStep)
        requires
            !old(self).finished(),
        ensures
            *final(self) == *old(self),
            r == (if old(self).has_session() {
                WorkerStep::Fetch
            } else {
                WorkerStep::Connect
            }),
    {
        if self.has_session {
            WorkerStep::Fetch
        } else {
            WorkerStep::Connect
        }
    }

    /// The connection attempt ended: fetch with the new session, or skip
    /// the URL and wait for the next one.
    pub fn on_connected(&mut self, ok: bool) -> (r: WorkerStep)
        requires
            !old(self).finished(),
            !old(self).has_session(),
        ensures
            !final(self).finished(),
            final(self).failed() == old(self).failed(),
            final(self).has_session() == ok,
            r == (if ok {
                WorkerStep::Fetch
            } else {
                WorkerStep::Dequeue
            }),
    {
        self.has_session = ok;
        if ok {
            WorkerStep::Fetch
        } else {
            WorkerStep::Dequeue
        }
    }

    /// The session was replaced for a retry: the worker holds one where the
    /// new connection opened.
    pub fn on_session_replaced(&mut self, ok: bool)
        requires
            !old(self).finished(),
        ensures
            !final(self).finished(),
            final(self).failed() == old(self).failed(),
            final(self).has_session() == ok,
    {
        self.has_session = ok;
    }

    /// The fetch ended: emit the page, or drop the URL and go on.
    pub fn on_fetched(&mut self, page: bool) -> (r: WorkerStep)
        requires
            !old(self).finished(),
        ensures
            *final(self) == *old(self),
            r == (if page {
                WorkerStep::Emit
            } else {
                WorkerStep::Dequeue
            }),
    {
        if page {
            WorkerStep::Emit
        } else {
            WorkerStep::Dequeue
        }
    }

    /// The emission ended: go on, or end at once where no one receives pages.
    pub fn on_emitted(&mut self, ok: bool) -> (r: WorkerStep)
        requires
            !old(self).finished(),
        ensures
            ok ==> *final(self) == *old(self) && r == WorkerStep::Dequeue,
            !ok ==> final(self).finished() && final(self).failed() && !final(self).has_session()
                && r == (if old(self).has_session() {
                WorkerStep::CloseAndStop
            } else {
                WorkerStep::Stop
            }),
    {
        if ok {
            WorkerStep::Dequeue
        } else {
            self.failed = true;
            self.finish()
        }
    }

    /// No URL came within the worker's wait, or shutdown was asked for: end.
    pub fn on_idle(&mut self) -> (r: WorkerStep)
        requires
            !old(self).finished(),
        ensures
            final(self).finished(),
            final(self).failed() == old(self).failed(),
            !final(self).has_session(),
            r == (if old(self).has_session() {
                WorkerStep::CloseAndStop
            } else {
                WorkerStep::Stop
            }),
    {
        self.finish()
    }

    fn finish(&mut self) -> (r: WorkerStep)
        ensures
            final(self).finished(),
            final(self).failed() == old(self).failed(),
            !final(self).has_session(),
            r == (if old(self).has_session() {
                WorkerStep::CloseAndStop
            } else {
                WorkerStep::Stop
            }),
    {
        let had = self.has_session;
        self.has_session = false;
        self.finished = true;
        if had {
            WorkerStep::CloseAndStop
        } else {
            WorkerStep::Stop
        }
    }
}

/// The shared bookkeeping of a crawl: finished workers, whether any page has
/// led to more work, shutdown, and whether the output stream is still open.
pub struct Coordinator {
    workers: usize,
    completed: usize,
    links_found: bool,
    shutdown: bool,
    output_open: bool,
}

impl Coordinator {
    /// The number of workers.
    pub closed spec fn workers(&self) -> nat {
        self.workers as nat
    }

    /// The number of workers that have ended.
    pub closed spec fn completed(&self) -> nat {
        self.completed as nat
    }

    /// Whether some emitted page led to a newly queued link.
    pub closed spec fn links_found(&self) -> bool {
        self.links_found
    }

    /// Whether workers are asked to end.
    pub closed spec fn shutdown(&self) -> bool {
        self.shutdown
    }

    /// Whether the output stream is open.
    pub closed spec fn output_open(&self) -> bool {
        self.output_open
    }

    /// The output stream is open exactly while some worker may still emit.
    pub open spec fn wf(&self) -> bool {
        &&& self.completed() <= self.workers()
        &&& self.output_open() <==> self.completed() < self.workers()
    }

    /// The bookkeeping of a crawl with `workers` workers.
    pub fn new(workers: usize) -> (r: Coordinator)
        ensures
            r.wf(),
            r.workers() == workers,
            r.completed() == 0,
            !r.links_found(),
            !r.shutdown(),
    {
        Coordinator {
            workers,
            completed: 0,
            links_found: false,
            shutdown: false,
            output_open: workers > 0,
        }
    }

    /// Whether the output stream is open.
    pub fn is_output_open(&self) -> (r: bool)
        ensures
            r == self.output_open(),
    {
        self.output_open
    }

    /// Whether workers are asked to end.
    pub fn should_stop(&self) -> (r: bool)
        ensures
            r == self.shutdown(),
    {
        self.shutdown
    }

    /// A page was emitted; `queued_links` tells whether offering its links
    /// queued at least one new URL.
    pub fn page_emitted(&mut self, queued_links: bool)
        requires
            old(self).wf(),
        ensures
            final(self).wf(),
            final(self).links_found() == (old(self).links_found() || queued_links),
            final(self).workers() == old(self).workers(),
            final(self).completed() == old(self).completed(),
            final(self).shutdown() == old(self).shutdown(),
            final(self).output_open() == old(self).output_open(),
    {
        self.links_found = self.links_found || queued_links;
    }

    /// The grace period after the start elapsed: where no page has led to a
    /// queued link yet (the seed yielded none, or is not done), the crawl has
    /// found nothing further and shutdown begins. Returns whether it did.
    pub fn grace_elapsed(&mut self) -> (r: bool)
        requires
            old(self).wf(),
        ensures
            final(self).wf(),
            r == !old(self).links_found(),
            final(self).shutdown() == (old(self).shutdown() || r),
            final(self).links_found() == old(self).links_found(),
            final(self).workers() == old(self).workers(),
            final(self).completed() == old(self).completed(),
            final(self).output_open() == old(self).output_open(),
    {
        if !self.links_found {
            self.shutdown = true;
            true
        } else {
            false
        }
    }

    /// The caller's idle or total timeout passed: workers are asked to end.
    pub fn cancel(&mut self)
        requires
            old(self).wf(),
        ensures
            final(self).wf(),
            final(self).shutdown(),
            final(self).links_found() == old(self).links_found(),
            final(self).workers() == old(self).workers(),
            final(self).completed() == old(self).completed(),
            final(self).output_open() == old(self).output_open(),
    {
        self.shutdown = true;
    }

    /// A worker signalled that it ended. Returns whether the output stream is
    /// to be closed now: only by the last worker's signal, so exactly once.
    pub fn worker_finished(&mut self) -> (r: bool)
        requires
            old(self).wf(),
            old(self).completed() < old(self).workers(),
        ensures
            final(self).wf(),
            final(self).completed() == old(self).completed() + 1,
            r == (final(self).completed() == final(self).workers()),
            r <==> (old(self).output_open() && !final(self).output_open()),
            final(self).workers() == old(self).workers(),
            final(self).links_found() == old(self).links_found(),
            final(self).shutdown() == old(self).shutdown(),
    {
        self.completed = self.completed + 1;
        if self.completed == self.workers {
            self.output_open = false;
            true
        } else {
            false
        }
    }
}

/// The text options pages are read with: one blank line between
/// paragraphs, lines joined, whitespace collapsed.
pub open spec fn page_text_options() -> TextParserOptions {
    TextParserOptions {
        preserve_paragraphs: true,
        preserve_line_breaks: false,
        normalize_whitespace: true,
        detect_urls: true,
    }
}

/// The record for the page at `url` whose rendered source is `source`:
/// classified by URL, with its text and, for HTML, its links.
pub fn page_record(url: &str, source: &str) -> (r: PageData)
    ensures
        r.url@ == url@,
        r.title is None,
        r.content@ == extracted_text(source@, classify(url@), page_text_options()),
        string_views(r.links@) == extracted_links(source@, classify(url@)),
{
    let options = TextParserOptions {
        preserve_paragraphs: true,
        preserve_line_breaks: false,
        normalize_whitespace: true,
        detect_urls: true,
    };
    let parsed = Parser::parse_from_url_with_text_options(source, url, &options);
    PageData::new(String::from_str(url), None, parsed.content, parsed.links)
}

/// The URL keys to offer for the links of one page: each link resolved
/// against the page's URL `base`, kept if the rules allow it, and stripped of
/// its fragment. Links that do not resolve are dropped.
pub open spec fn discovered_from(
    c: crate::filter::UrlFilterConfig,
    base: Seq<char>,
    links: Seq<Seq<char>>,
) -> Seq<Seq<char>>
    decreases links.len(),
{
    if links.len() == 0 {
        Seq::empty()
    } else {
        let prev = discovered_from(c, base, links.drop_last());
        match joined_url(base, links.last()) {
            Some(u) => if crawl_allowed(c, u) {
                prev.push(unfragmented(u.href).href)
            } else {
                prev
            },
            None => prev,
        }
    }
}

/// The URL keys to offer for a page's links; nothing where the page's own
/// URL does not parse.
pub open spec fn discovered(
    c: crate::filter::UrlFilterConfig,
    page_url: Seq<char>,
    links: Seq<Seq<char>>,
) -> Seq<Seq<char>> {
    match parsed_url(page_url) {
        Some(b) => discovered_from(c, b.href, links),
        None => Seq::empty(),
    }
}

/// Resolves, filters and normalizes the links found on the page at `page_url`.
/// Each key returned names a URL that the rules allow, in the domain of the
/// URL it came from.
pub fn discover_links(filter: &UrlFilter, page_url: &str, links: &Vec<String>) -> (r: Vec<String>)
    requires
        filter.wf(),
    ensures
        string_views(r@) == discovered(filter.config_view(), page_url@, string_views(links@)),
        forall|i: int|
            0 <= i < r@.len() ==> exists|u: UrlView|
                crawl_allowed(filter.config_view(), u) && #[trigger] r@[i]@ == unfragmented(
                    u.href,
                ).href && unfragmented(u.href).domain == u.domain,
{
    let base = match WebUrl::parse(page_url) {
        Ok(b) => b,
        Err(_) => {
            let r: Vec<String> = Vec::new();
            assert(string_views(r@) =~= Seq::<Seq<char>>::empty());
            return r;
        },
    };
    let ghost c = filter.config_view();
    let ghost lv = string_views(links@);
    let mut out: Vec<String> = Vec::new();
    let mut i: usize = 0;
    while i < links.len()
        invariant
            filter.wf(),
            c == filter.config_view(),
            lv == string_views(links@),
            parsed_url(page_url@) == Some(base@),
            i <= links.len(),
            string_views(out@) == discovered_from(c, base@.href, lv.subrange(0, i as int)),
            forall|k: int|
                0 <= k < out@.len() ==> exists|u: UrlView|
                    crawl_allowed(c, u) && #[trigger] out@[k]@ == unfragmented(u.href).href
                        && unfragmented(u.href).domain == u.domain,
        decreases links.len() - i,
    {
        assert(lv.subrange(0, i + 1).drop_last() =~= lv.subrange(0, i as int));
        assert(lv[i as int] == links@[i as int]@);
        match base.join(links[i].as_str()) {
            Ok(u) => {
                if filter.should_crawl(&u, Some(&base)) {
                    let n = filter.normalize_url(&u);
                    let key = String::from_str(n.as_str());
                    let ghost before = out@;
                    out.push(key);
                    proof {
                        assert(string_views(out@) =~= string_views(before).push(key@));
                        assert forall|k: int| 0 <= k < out@.len() implies exists|v: UrlView|
                            crawl_allowed(c, v) && #[trigger] out@[k]@ == unfragmented(v.href).href
                                && unfragmented(v.href).domain == v.domain by {
                            if k == out@.len() - 1 {
                                assert(crawl_allowed(c, u@) && out@[k]@ == unfragmented(
                                    u@.href,
                                ).href && unfragmented(u@.href).domain == u@.domain);
                            } else {
                                assert(out@[k] == before[k]);
                            }
                        }
                    }
                }
            },
            Err(_) => {},
        }
        i += 1;
    }
    assert(lv.subrange(0, links.len() as int) =~= lv);
    out
}

/// Every key offered for a page's links names a URL that the scope rules
/// allow: with external domains disallowed and domain `d` required, that
/// URL lies in `d`.
pub proof fn lemma_offered_in_domain(
    c: crate::filter::UrlFilterConfig,
    u: UrlView,
    d: String,
)
    requires
        !c.allow_external,
        c.required_domain == Some(d),
        crawl_allowed(c, u),
        unfragmented(u.href).domain == u.domain,
    ensures
        unfragmented(u.href).domain == Some(d@),
{
    crate::filter::lemma_scope_containment(c, u, d);
}

/// The pattern that keeps static assets out of a crawl.
pub open spec fn asset_pattern() -> Seq<char> {
    "\\.(jpg|jpeg|png|gif|css|js|ico|woff|woff2|ttf|eot|svg|pdf)$"@
}

/// The scope rules of a crawl that starts at `root` under configuration `c`:
/// unless external domains are allowed, the root's domain and path bound the
/// crawl; static assets are always excluded, before the configured exclusions.
pub open spec fn scope_rules_for(f: UrlFilterConfig, root: UrlView, c: WebCrawlerConfig) -> bool {
    &&& f.allow_external == c.allow_external
    &&& (if c.allow_external {
        f.required_domain is None && f.required_path_prefix is None
    } else {
        &&& (match root.domain {
            Some(d) => f.required_domain is Some && f.required_domain->Some_0@ == d,
            None => f.required_domain is None,
        })
        &&& f.required_path_prefix is Some
        &&& f.required_path_prefix->Some_0@ == root.path
    })
    &&& patterns_of(f.include_patterns) == patterns_of(c.include_patterns)
    &&& patterns_of(f.exclude_patterns) == seq![asset_pattern()] + patterns_of(c.exclude_patterns)
}

/// The scope rules of a crawl that starts at `root_url`.
pub fn scope_rules(root_url: &WebUrl, config: &WebCrawlerConfig) -> (r: UrlFilterConfig)
    ensures
        scope_rules_for(r, root_url@, *config),
{
    let mut exclude_patterns: Vec<String> = Vec::new();
    exclude_patterns.push(
        String::from_str("\\.(jpg|jpeg|png|gif|css|js|ico|woff|woff2|ttf|eot|svg|pdf)$"),
    );
    let extra = copy_strings(&config.exclude_patterns);
    let mut i: usize = 0;
    while i < extra.len()
        invariant
            i <= extra.len(),
            exclude_patterns@.len() == i + 1,
            patterns_of(exclude_patterns) == seq![asset_pattern()] + string_views(
                extra@.subrange(0, i as int),
            ),
        decreases extra.len() - i,
    {
        let p = extra[i].clone();
        let ghost before = exclude_patterns@;
        exclude_patterns.push(p);
        proof {
            let sub = extra@.subrange(0, i as int);
            assert(extra@.subrange(0, i + 1) =~= sub.push(extra@[i as int]));
            crate::strs::lemma_string_views_push(before, p);
            crate::strs::lemma_string_views_push(sub, extra@[i as int]);
            assert(patterns_of(exclude_patterns) == string_views(before.push(p)));
            assert((seq![asset_pattern()] + string_views(sub)).push(p@) =~= seq![asset_pattern()]
                + string_views(sub).push(p@));
        }
        i += 1;
    }
    assert(extra@.subrange(0, extra.len() as int) =~= extra@);
    let include_patterns = copy_strings(&config.include_patterns);
    let (required_domain, required_path_prefix) = if !config.allow_external {
        let d = match root_url.domain() {
            Some(d) => Some(String::from_str(d)),
            None => None,
        };
        (d, Some(String::from_str(root_url.path())))
    } else {
        (None, None)
    };
    UrlFilterConfig {
        allow_external: config.allow_external,
        required_domain,
        required_path_prefix,
        include_patterns,
        exclude_patterns,
    }
}

/// The URL filter of a crawl that starts at `root_url`; fails when a
/// configured pattern does not compile, which ends the crawl before it begins.
pub fn create_url_filter(root_url: &WebUrl, config: &WebCrawlerConfig) -> (r: Result<
    UrlFilter,
    regex::Error,
>)
    ensures
        r is Ok <==> (all_compile(patterns_of(config.include_patterns)) && all_compile(
            seq![asset_pattern()] + patterns_of(config.exclude_patterns),
        )),
        r matches Ok(f) ==> f.wf() && scope_rules_for(f.config_view(), root_url@, *config),
{
    let rules = scope_rules(root_url, config);
    UrlFilter::new(rules)
}

} // verus!

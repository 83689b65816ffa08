//! Single-flight fetching: of all who ask for a version that is not on disk
//! yet, one fetches and the others wait for what it brings.
//!
//! `SingleFlight` is the decision part of that protocol, a state machine
//! that never blocks. A caller asks with `begin`; told to fetch, it fetches
//! and reports with `complete`; told to wait, it comes back when the one who
//! fetches has reported. Locks, queues and timers are the caller's.

use crate::download_cache::DownloadCache;
use crate::fetcher::FetchError;
use crate::version::Version;
use vstd::prelude::*;

verus! {

/// What the protocol knows: the paths on disk, and the versions that
/// someone is fetching.
pub struct FlightState {
    pub present: Map<Version, Seq<char>>,
    pub flying: Set<Version>,
}

/// What one who asks for a version is told.
pub enum Answer {
    /// The binary is on disk at this path.
    Hit(Seq<char>),
    /// Someone is fetching it: wait for them.
    Wait,
    /// Nobody has it or fetches it: fetch it.
    Fetch,
}

/// What can happen: someone asks for a version, or the one who fetches a
/// version reports a path or, with `None`, that the fetch failed or was
/// given up.
pub enum Event {
    Request(Version),
    Finish(Version, Option<Seq<char>>),
}

impl Event {
    /// The version that the event is about.
    pub open spec fn version(self) -> Version {
        match self {
            Event::Request(v) => v,
            Event::Finish(v, _) => v,
        }
    }
}

impl FlightState {
    /// The state at start: nothing on disk, nothing being fetched.
    pub open spec fn empty() -> FlightState {
        FlightState { present: Map::empty(), flying: Set::empty() }
    }

    /// Whether the state is in order: nobody fetches what is on disk.
    pub open spec fn wf(self) -> bool {
        forall|v: Version| !(self.present.contains_key(v) && self.flying.contains(v))
    }

    /// What one who asks for `v` is told.
    pub open spec fn answer(self, v: Version) -> Answer {
        if self.present.contains_key(v) {
            Answer::Hit(self.present[v])
        } else if self.flying.contains(v) {
            Answer::Wait
        } else {
            Answer::Fetch
        }
    }

    /// The state after someone asked for `v`: the one told to fetch is now
    /// fetching.
    pub open spec fn request(self, v: Version) -> FlightState {
        if self.answer(v) is Fetch {
            FlightState { present: self.present, flying: self.flying.insert(v) }
        } else {
            self
        }
    }

    /// The state after the fetch of `v` ended: a path that was brought is
    /// on disk, unless one was there before, and nobody fetches `v`.
    pub open spec fn finish(self, v: Version, brought: Option<Seq<char>>) -> FlightState {
        match brought {
            Some(path) if !self.present.contains_key(v) => FlightState {
                present: self.present.insert(v, path),
                flying: self.flying.remove(v),
            },
            _ => FlightState { present: self.present, flying: self.flying.remove(v) },
        }
    }

    /// The state after an event.
    pub open spec fn step(self, event: Event) -> FlightState {
        match event {
            Event::Request(v) => self.request(v),
            Event::Finish(v, brought) => self.finish(v, brought),
        }
    }

    /// The state after a sequence of events.
    pub open spec fn run(self, events: Seq<Event>) -> FlightState
        decreases events.len(),
    {
        if events.len() == 0 {
            self
        } else {
            self.step(events[0]).run(events.drop_first())
        }
    }

    /// How often, in a sequence of events, one who asked for `v` was told
    /// to fetch.
    pub open spec fn fetches(self, events: Seq<Event>, v: Version) -> nat
        decreases events.len(),
    {
        if events.len() == 0 {
            0
        } else {
            let now: nat = if events[0] == Event::Request(v) && self.answer(v) is Fetch {
                1
            } else {
                0
            };
            now + self.step(events[0]).fetches(events.drop_first(), v)
        }
    }

    /// Whether each report in a sequence of events comes from one who was
    /// told to fetch: the version it is about is being fetched.
    pub open spec fn orderly(self, events: Seq<Event>) -> bool
        decreases events.len(),
    {
        if events.len() == 0 {
            true
        } else {
            &&& (events[0] is Finish ==> self.flying.contains(events[0].version()))
            &&& self.step(events[0]).orderly(events.drop_first())
        }
    }
}

/// Whether someone asks for `v` in a sequence of events.
pub open spec fn asked_for(events: Seq<Event>, v: Version) -> bool {
    exists|i: int| 0 <= i < events.len() && events[i] == Event::Request(v)
}

/// Whether no fetch of `v` fails or is given up in a sequence of events.
pub open spec fn never_fails(events: Seq<Event>, v: Version) -> bool {
    forall|i: int| 0 <= i < events.len() ==> events[i] != Event::Finish(v, None)
}

/// An event leaves a state that is in order in order.
pub proof fn lemma_step_wf(s: FlightState, event: Event)
    requires
        s.wf(),
    ensures
        s.step(event).wf(),
{
}

/// Once a version is on disk, or while it is being fetched by one whose
/// fetch does not fail, nobody else is told to fetch it.
proof fn lemma_no_second_fetch(s: FlightState, events: Seq<Event>, v: Version)
    requires
        s.wf(),
        s.present.contains_key(v) || s.flying.contains(v),
        never_fails(events, v),
    ensures
        s.fetches(events, v) == 0,
    decreases events.len(),
{
    if events.len() > 0 {
        let rest = events.drop_first();
        assert(events[0] != Event::Finish(v, None));
        assert forall|i: int| 0 <= i < rest.len() implies rest[i] != Event::Finish(v, None) by {
            assert(rest[i] == events[i + 1]);
        }
        lemma_no_second_fetch(s.step(events[0]), rest, v);
    }
}

/// Single flight, from any state: where a version is neither on disk nor
/// being fetched, and no fetch of it fails, one of all who ask for it is
/// told to fetch, however often and in whatever order they ask.
pub proof fn lemma_single_flight_from(s: FlightState, events: Seq<Event>, v: Version)
    requires
        s.wf(),
        s.answer(v) is Fetch,
        s.orderly(events),
        never_fails(events, v),
    ensures
        s.fetches(events, v) == (if asked_for(events, v) {
            1nat
        } else {
            0nat
        }),
    decreases events.len(),
{
    if events.len() == 0 {
    } else {
        let rest = events.drop_first();
        let next = s.step(events[0]);
        assert forall|i: int| 0 <= i < rest.len() implies rest[i] != Event::Finish(v, None) by {
            assert(rest[i] == events[i + 1]);
        }
        if events[0] == Event::Request(v) {
            lemma_no_second_fetch(next, rest, v);
        } else {
            assert(next.answer(v) is Fetch);
            lemma_single_flight_from(next, rest, v);
            if asked_for(rest, v) {
                let i = choose|i: int| 0 <= i < rest.len() && rest[i] == Event::Request(v);
                assert(events[i + 1] == Event::Request(v));
            }
            if asked_for(events, v) {
                let i = choose|i: int| 0 <= i < events.len() && events[i] == Event::Request(v);
                assert(rest[i - 1] == Event::Request(v));
            }
        }
    }
}

/// Single flight: starting with nothing on disk, whoever asks and however
/// often, each version that is asked for is fetched exactly once, and no
/// other is fetched, as long as no fetch fails.
pub proof fn lemma_single_flight(events: Seq<Event>, v: Version)
    requires
        FlightState::empty().orderly(events),
        never_fails(events, v),
    ensures
        FlightState::empty().fetches(events, v) == (if asked_for(events, v) {
            1nat
        } else {
            0nat
        }),
{
    lemma_single_flight_from(FlightState::empty(), events, v);
}

/// No blocking across versions: what one who asks for `w` is told depends
/// on `w` alone. An event about another version changes nothing for `w`,
/// and one is told to wait only while `w` itself is being fetched.
pub proof fn lemma_other_versions_apart(s: FlightState, event: Event, w: Version)
    requires
        event.version() != w,
    ensures
        s.step(event).answer(w) == s.answer(w),
        s.answer(w) is Wait <==> s.flying.contains(w) && !s.present.contains_key(w),
{
}

/// Whether no event of a sequence is about `w`.
pub open spec fn none_about(events: Seq<Event>, w: Version) -> bool {
    forall|i: int| 0 <= i < events.len() ==> (#[trigger] events[i]).version() != w
}

/// No blocking across versions, over time: whatever happens to other
/// versions, and however long their fetches take, one who asks for `w` is
/// told the same as before.
pub proof fn lemma_others_never_block(s: FlightState, events: Seq<Event>, w: Version)
    requires
        none_about(events, w),
    ensures
        s.run(events).answer(w) == s.answer(w),
    decreases events.len(),
{
    if events.len() > 0 {
        let rest = events.drop_first();
        assert(events[0].version() != w);
        assert forall|i: int| 0 <= i < rest.len() implies (#[trigger] rest[i]).version() != w by {
            assert(rest[i] == events[i + 1]);
        }
        lemma_other_versions_apart(s, events[0], w);
        lemma_others_never_block(s.step(events[0]), rest, w);
    }
}

/// A path on disk stays: no event removes or replaces it.
pub proof fn lemma_present_stays(s: FlightState, event: Event, v: Version)
    requires
        s.present.contains_key(v),
    ensures
        s.step(event).present.contains_key(v),
        s.step(event).present[v] == s.present[v],
{
}

/// Result stability: once a version is on disk at a path, everyone who asks
/// for it later is told that path, whatever happens in between.
pub proof fn lemma_result_stable(s: FlightState, events: Seq<Event>, v: Version)
    requires
        s.present.contains_key(v),
    ensures
        s.run(events).answer(v) == Answer::Hit(s.present[v]),
    decreases events.len(),
{
    if events.len() > 0 {
        lemma_present_stays(s, events[0], v);
        lemma_result_stable(s.step(events[0]), events.drop_first(), v);
    }
}

/// What one who asks is told, with the path as text.
#[derive(Clone, Debug, PartialEq, Eq)]
pub enum Claim {
    /// The binary is on disk at this path.
    Hit(String),
    /// Someone is fetching it: wait for them and ask again.
    Wait,
    /// Fetch it, and report with `complete` or `abandon`.
    Fetch,
}

impl View for Claim {
    type V = Answer;

    open spec fn view(&self) -> Answer {
        match self {
            Claim::Hit(path) => Answer::Hit(path@),
            Claim::Wait => Answer::Wait,
            Claim::Fetch => Answer::Fetch,
        }
    }
}

/// What a fetch brought, as the protocol sees it.
pub open spec fn brought(outcome: Result<String, FetchError>) -> Option<Seq<char>> {
    match outcome {
        Ok(path) => Some(path@),
        Err(_) => None,
    }
}

/// The cache of compilers on disk together with the fetches under way.
#[derive(Clone, Debug)]
pub struct SingleFlight {
    cache: DownloadCache,
    in_flight: Vec<Version>,
}

impl View for SingleFlight {
    type V = FlightState;

    closed spec fn view(&self) -> FlightState {
        FlightState { present: self.cache@, flying: self.in_flight@.to_set() }
    }
}

impl SingleFlight {
    /// Whether the machine is in order.
    pub closed spec fn wf(&self) -> bool {
        &&& self.cache.wf()
        &&& self.in_flight@.no_duplicates()
        &&& self@.wf()
    }

    /// A machine that knows of nothing on disk and of no fetch.
    pub fn new() -> (machine: SingleFlight)
        ensures
            machine.wf(),
            machine@ == FlightState::empty(),
    {
        SingleFlight::with_cache(DownloadCache::new())
    }

    /// A machine that starts with what `cache` records and no fetch.
    pub fn with_cache(cache: DownloadCache) -> (machine: SingleFlight)
        requires
            cache.wf(),
        ensures
            machine.wf(),
            machine@ == (FlightState { present: cache@, flying: Set::empty() }),
    {
        let machine = SingleFlight { cache, in_flight: Vec::new() };
        assert(machine.in_flight@.to_set() =~= Set::<Version>::empty());
        machine
    }

    /// The cache of what is on disk.
    pub fn cache(&self) -> (cache: &DownloadCache)
        requires
            self.wf(),
        ensures
            cache.wf(),
            cache@ == self@.present,
    {
        &self.cache
    }

    /// The place of `ver` among the fetches under way.
    fn flight_of(&self, ver: &Version) -> (place: Option<usize>)
        ensures
            match place {
                Some(i) => 0 <= i < self.in_flight@.len() && self.in_flight@[i as int] == *ver,
                None => !self.in_flight@.contains(*ver),
            },
    {
        let mut i: usize = 0;
        while i < self.in_flight.len()
            invariant
                0 <= i <= self.in_flight@.len(),
                forall|k: int| 0 <= k < i ==> self.in_flight@[k] != *ver,
            decreases self.in_flight@.len() - i,
        {
            if self.in_flight[i] == *ver {
                return Some(i);
            }
            i = i + 1;
        }
        None
    }

    /// The fast path: the path of `ver` where it is on disk.
    pub fn try_get(&self, ver: &Version) -> (path: Option<String>)
        requires
            self.wf(),
        ensures
            match path {
                Some(p) => self@.answer(*ver) == Answer::Hit(p@),
                None => !(self@.answer(*ver) is Hit),
            },
    {
        self.cache.try_get(ver)
    }

    /// Whether someone is fetching `ver`.
    pub fn is_in_flight(&self, ver: &Version) -> (r: bool)
        requires
            self.wf(),
        ensures
            r == self@.flying.contains(*ver),
    {
        self.flight_of(ver).is_some()
    }

    /// Asks for `ver`. The one who is told to fetch is from then on the one
    /// who fetches it; nothing else changes.
    pub fn begin(&mut self, ver: &Version) -> (claim: Claim)
        requires
            old(self).wf(),
        ensures
            final(self).wf(),
            claim@ == old(self)@.answer(*ver),
            final(self)@ == old(self)@.request(*ver),
    {
        match self.cache.try_get(ver) {
            Some(path) => Claim::Hit(path),
            None => match self.flight_of(ver) {
                Some(_) => Claim::Wait,
                None => {
                    self.in_flight.push(*ver);
                    proof {
                        let before = old(self).in_flight@;
                        assert(self.in_flight@ == before.push(*ver));
                        assert(self.in_flight@.to_set() =~= before.to_set().insert(*ver)) by {
                            assert forall|v: Version|
                                self.in_flight@.contains(v) <==> before.contains(v) || v
                                    == *ver by {
                                if before.contains(v) {
                                    let i = choose|i: int|
                                        0 <= i < before.len() && before[i] == v;
                                    assert(self.in_flight@[i] == v);
                                }
                                if v == *ver {
                                    assert(self.in_flight@[before.len() as int] == v);
                                }
                            }
                        }
                    }
                    Claim::Fetch
                },
            },
        }
    }

    /// Ends the fetch of `ver`, if there is one.
    fn land(&mut self, ver: &Version)
        requires
            old(self).cache.wf(),
            old(self).in_flight@.no_duplicates(),
        ensures
            final(self).cache == old(self).cache,
            final(self).in_flight@.no_duplicates(),
            final(self).in_flight@.to_set() == old(self).in_flight@.to_set().remove(*ver),
    {
        match self.flight_of(ver) {
            Some(i) => {
                self.in_flight.remove(i);
                proof {
                    let before = old(self).in_flight@;
                    let after = self.in_flight@;
                    assert(after == before.remove(i as int));
                    assert forall|v: Version| after.contains(v) <==> before.contains(v) && v
                        != *ver by {
                        if after.contains(v) {
                            let k = choose|k: int| 0 <= k < after.len() && after[k] == v;
                            if k < i {
                                assert(before[k] == v);
                            } else {
                                assert(before[k + 1] == v);
                            }
                        }
                        if before.contains(v) && v != *ver {
                            let k = choose|k: int| 0 <= k < before.len() && before[k] == v;
                            if k < i {
                                assert(after[k] == v);
                            } else {
                                assert(after[k - 1] == v);
                            }
                        }
                    }
                    assert(after.to_set() =~= before.to_set().remove(*ver));
                    assert forall|a: int, b: int|
                        0 <= a < after.len() && 0 <= b < after.len() && a != b implies after[a]
                        != after[b] by {
                        let a2 = if a < i { a } else { a + 1 };
                        let b2 = if b < i { b } else { b + 1 };
                        assert(after[a] == before[a2] && after[b] == before[b2]);
                    }
                }
            },
            None => {
                proof {
                    assert(self.in_flight@.to_set() =~= self.in_flight@.to_set().remove(*ver));
                }
            },
        }
    }

    /// Takes in what the fetch of `ver` came to, and ends it. A path that
    /// was on disk before is the answer and stays. Else a fetched path is
    /// recorded and returned; the error of a failed fetch is handed on and
    /// nothing is recorded, so that the next who asks is told to fetch.
    pub fn complete(&mut self, ver: &Version, outcome: Result<String, FetchError>) -> (r: Result<
        String,
        FetchError,
    >)
        requires
            old(self).wf(),
        ensures
            final(self).wf(),
            final(self)@ == old(self)@.finish(*ver, brought(outcome)),
            old(self)@.present.contains_key(*ver) ==> r is Ok && r->Ok_0@ == old(
                self,
            )@.present[*ver],
            !old(self)@.present.contains_key(*ver) ==> match outcome {
                Ok(p) => r is Ok && r->Ok_0@ == p@,
                Err(e) => r == Err::<String, FetchError>(e),
            },
    {
        self.land(ver);
        let answer = self.cache.record(ver, outcome);
        proof {
            assert(final(self)@.flying =~= old(self)@.finish(*ver, brought(outcome)).flying);
            assert(final(self)@.present =~= old(self)@.finish(*ver, brought(outcome)).present);
        }
        answer
    }

    /// Gives up the fetch of `ver`, as when the one who fetched was
    /// cancelled: nothing is recorded, and the next who asks is told to
    /// fetch.
    pub fn abandon(&mut self, ver: &Version)
        requires
            old(self).wf(),
        ensures
            final(self).wf(),
            final(self)@ == old(self)@.finish(*ver, None),
    {
        self.land(ver);
        proof {
            assert(final(self)@.flying =~= old(self)@.finish(*ver, None).flying);
        }
    }

    /// Records `path` for `ver` where it is neither on disk nor being
    /// fetched, and says whether it did.
    pub fn install(&mut self, ver: &Version, path: String) -> (installed: bool)
        requires
            old(self).wf(),
        ensures
            final(self).wf(),
            installed == (old(self)@.answer(*ver) is Fetch),
            final(self)@ == (if installed {
                FlightState {
                    present: old(self)@.present.insert(*ver, path@),
                    flying: old(self)@.flying,
                }
            } else {
                old(self)@
            }),
    {
        if self.is_in_flight(ver) {
            false
        } else {
            self.cache.install(ver, path)
        }
    }
}

} // verus!

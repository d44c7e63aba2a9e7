//! Sticky placement of sessions on the workers with the fewest tokens.

use crate::keyed::KeyMap;
use crate::model::lightest_by_loads;
use crate::model::load_of;
use crate::model::load_with;
use crate::model::loads_without;
use crate::model::names;
use crate::model::PlacementError;
use crate::model::PlacementModel;
use crate::model::RETAIN_IDLE_PERIODS;
use crate::model::SWEEP_INTERVAL;
use crate::prompt::estimated_tokens;
use crate::prompt::prompt_token_count;
use crate::prompt::prompt_tokens;
use crate::prompt::text_of;
use crate::state::Load;
use crate::state::Session;
use crate::state::State;
use crate::text::str_eq;
use crate::time::Clock;
use crate::time::Duration;
use crate::time::Instant;
use crate::time::MAX_DURATION_NANOS;
use vstd::prelude::*;

verus! {

/// Sticky least-tokens session placement shared by all requests of one router.
///
/// A session key seen for the first time is placed on the healthy worker whose
/// sessions hold the fewest context tokens. Later requests of that session stay
/// on the same worker. A routed request holds a [`SessionLease`] until it
/// settles; a session with a request in flight never expires. Once its last
/// request has settled, a session idle for longer than the idle period stops
/// counting toward its worker's load, and it is forgotten after four idle
/// periods.
pub struct TokenPlacement {
    clock: Clock,
    idle: Duration,
    state: State,
}

/// Keeps a session's owner while one routed request is in flight. Hand it to
/// [`TokenPlacement::settle`] once the request is over.
#[derive(Debug)]
pub struct SessionLease {
    key: String,
}

impl View for SessionLease {
    type V = Seq<char>;

    closed spec fn view(&self) -> Seq<char> {
        self.key@
    }
}

impl SessionLease {
    /// The key of the session.
    pub fn key(&self) -> (r: &str)
        ensures
            r@ == self@,
    {
        self.key.as_str()
    }
}

impl View for TokenPlacement {
    type V = PlacementModel;

    closed spec fn view(&self) -> PlacementModel {
        self.state.placement(self.idle@)
    }
}

/// What placing a request at `now` returns and leaves behind.
pub open spec fn place_outcome(
    before: PlacementModel,
    key: Seq<char>,
    text: Option<Seq<char>>,
    healthy: Seq<Seq<char>>,
    now: Instant,
    r: Result<String, PlacementError>,
    after: PlacementModel,
) -> bool {
    match r {
        Ok(worker) => {
            &&& before.place_error(key, text, healthy, now@) is None
            &&& worker@ == before.placed_on(key, healthy, now@)
            &&& after == before.placed(key, text, healthy, now@)
        },
        Err(e) => {
            &&& before.place_error(key, text, healthy, now@) == Some(e)
            &&& after == if e == PlacementError::TokensOverflow {
                before.swept(now@)
            } else {
                before
            }
        },
    }
}

/// What leasing a request at `now` returns and leaves behind.
pub open spec fn lease_outcome(
    before: PlacementModel,
    key: Seq<char>,
    now: Instant,
    r: Result<Option<SessionLease>, PlacementError>,
    after: PlacementModel,
) -> bool {
    match r {
        Ok(Some(lease)) => {
            &&& before.sessions.contains_key(key)
            &&& before.lease_error(key) is None
            &&& lease@ == key
            &&& after == before.leased(key, now@)
        },
        Ok(None) => !before.sessions.contains_key(key) && after == before,
        Err(e) => before.lease_error(key) == Some(e) && after == before,
    }
}

/// Whether `name` is one of `list`.
fn is_listed(name: &str, list: &[&str]) -> (r: bool)
    ensures
        r == names(list@).contains(name@),
{
    let mut i: usize = 0;
    while i < list.len()
        invariant
            i <= list@.len(),
            forall|j: int| 0 <= j < i ==> #[trigger] names(list@)[j] != name@,
        decreases list@.len() - i,
    {
        if str_eq(list[i], name) {
            assert(names(list@)[i as int] == name@);
            return true;
        }
        i = i + 1;
    }
    false
}

impl TokenPlacement {
    /// The loads that are kept are those of the counted sessions.
    pub closed spec fn loads_agree(&self) -> bool {
        self.state.wf()
    }

    /// The state is valid, and the loads agree with the sessions.
    pub open spec fn wf(&self) -> bool {
        &&& self@.valid()
        &&& self.loads_agree()
    }

    proof fn state_is_valid(&self)
        requires
            self.state.wf(),
        ensures
            self.wf(),
    {
        reveal(State::loads_agree);
        assert(self@.sessions.dom() =~= self.state.sessions@.dom());
        assert forall|key: Seq<char>| #[trigger]
            self@.sessions.contains_key(key)
                && self@.sessions[key].counted implies self@.workers.contains(
            self@.sessions[key].worker,
        ) by {
            assert(self.state.model().contains_key(key));
        }
    }

    /// A placement without sessions. Its clock starts now.
    pub fn new(idle: Duration) -> (r: Self)
        ensures
            r.wf(),
            r@ == PlacementModel::empty(idle@),
    {
        let r = TokenPlacement {
            clock: Clock::start(),
            idle,
            state: State::new(Instant { nanos: 0 }),
        };
        proof {
            r.state_is_valid();
        }
        r
    }

    /// Returns the worker for session `key`. A new session, or one whose worker
    /// left `healthy`, goes to the healthy worker with the fewest counted
    /// context tokens (then fewest sessions, then the earliest in `healthy`).
    /// Call [`TokenPlacement::lease`] right after and settle the lease once the
    /// routed request is over.
    pub fn place(&mut self, key: &str, request_text: Option<&str>, healthy: &[&str]) -> (r: String)
        requires
            old(self).wf(),
            forall|now: Instant| #[trigger]
                old(self)@.placeable(key@, text_of(request_text), names(healthy@), now@),
        ensures
            final(self).wf(),
            exists|now: Instant|
                r@ == old(self)@.placed_on(key@, names(healthy@), now@) && final(self)@
                    == #[trigger] old(self)@.placed(
                    key@,
                    text_of(request_text),
                    names(healthy@),
                    now@,
                ),
    {
        let now: Instant = self.clock.now();
        self.place_at(key, request_text, healthy, now)
    }

    /// [`TokenPlacement::place`], for requests of which it is not known whether
    /// they can be placed.
    pub fn try_place(&mut self, key: &str, request_text: Option<&str>, healthy: &[&str]) -> (r:
        Result<String, PlacementError>)
        requires
            old(self).wf(),
        ensures
            final(self).wf(),
            exists|now: Instant| #[trigger]
                place_outcome(
                    old(self)@,
                    key@,
                    text_of(request_text),
                    names(healthy@),
                    now,
                    r,
                    final(self)@,
                ),
    {
        let now: Instant = self.clock.now();
        self.try_place_at(key, request_text, healthy, now)
    }

    /// [`TokenPlacement::place`] at a given moment.
    pub fn place_at(
        &mut self,
        key: &str,
        request_text: Option<&str>,
        healthy: &[&str],
        now: Instant,
    ) -> (r: String)
        requires
            old(self).wf(),
            old(self)@.placeable(key@, text_of(request_text), names(healthy@), now@),
        ensures
            final(self).wf(),
            r@ == old(self)@.placed_on(key@, names(healthy@), now@),
            final(self)@ == old(self)@.placed(
                key@,
                text_of(request_text),
                names(healthy@),
                now@,
            ),
    {
        self.try_place_at(key, request_text, healthy, now).unwrap()
    }

    /// [`TokenPlacement::try_place`] at a given moment.
    pub fn try_place_at(
        &mut self,
        key: &str,
        request_text: Option<&str>,
        healthy: &[&str],
        now: Instant,
    ) -> (r: Result<String, PlacementError>)
        requires
            old(self).wf(),
        ensures
            final(self).wf(),
            place_outcome(
                old(self)@,
                key@,
                text_of(request_text),
                names(healthy@),
                now,
                r,
                final(self)@,
            ),
            old(self)@.swept(now@).context(key@, text_of(request_text)) <= u64::MAX,
    {
        let exact: Option<u64> = prompt_token_count(request_text);
        let estimate: u64 = estimated_tokens(request_text);
        proof {
            let swept = self@.swept(now@);
            assert(swept.sessions.contains_key(key@) ==> self@.sessions.contains_key(key@));
        }
        if now.saturating_duration_since(self.state.last_sweep).nanos >= SWEEP_INTERVAL
            && self.idle.nanos > MAX_DURATION_NANOS / RETAIN_IDLE_PERIODS {
            return Err(PlacementError::RetentionOverflow);
        }
        if healthy.len() == 0 {
            return Err(PlacementError::NoHealthyWorker);
        }
        self.state.sweep(self.idle, now);
        let r: Result<String, PlacementError> = self.assign(
            key,
            Ghost(text_of(request_text)),
            exact,
            estimate,
            healthy,
            now,
        );
        proof {
            self.state_is_valid();
        }
        r
    }

    /// Places a request on its worker, or leaves everything as it is where the
    /// worker's tokens would not fit.
    fn assign(
        &mut self,
        key: &str,
        Ghost(text): Ghost<Option<Seq<char>>>,
        exact: Option<u64>,
        estimate: u64,
        healthy: &[&str],
        now: Instant,
    ) -> (r: Result<String, PlacementError>)
        requires
            old(self).state.wf(),
            healthy@.len() > 0,
            match exact {
                Some(n) => prompt_tokens(text) == Some(n as nat),
                None => prompt_tokens(text) is None,
            },
            estimate == crate::prompt::estimate(text),
        ensures
            final(self).state.wf(),
            match r {
                Ok(worker) => {
                    &&& !old(self)@.overloads(key@, text, names(healthy@))
                    &&& worker@ == old(self)@.owner(key@, names(healthy@))
                    &&& final(self)@ == old(self)@.assigned(
                        key@,
                        text,
                        names(healthy@),
                        now@,
                    )
                },
                Err(e) => {
                    &&& e == PlacementError::TokensOverflow
                    &&& old(self)@.overloads(key@, text, names(healthy@))
                    &&& final(self)@ == old(self)@
                },
            },
    {
        let ghost before = self@;
        let ghost workers = names(healthy@);
        let ghost others = before.sessions.remove(key@);
        let known: bool = self.state.sessions.get(key).is_some();
        let session: Session = match self.state.sessions.get(key) {
            Some(session) => session.copy(),
            None => Session {
                worker: String::new(),
                tokens: 0,
                last_seen: now,
                counted: false,
                inflight: 0,
                released: false,
            },
        };
        let keep: bool = known && is_listed(session.worker.as_str(), healthy) && !(session.released
            && session.inflight == 0);
        assert(before.sessions.dom() =~= self.state.sessions@.dom());
        proof {
            if session.counted {
                self.state.counted_load_fits(key@);
                load_with(before.sessions, key@, session@, session@.worker);
                assert(before.sessions.insert(key@, session@) =~= before.sessions);
            }
        }

        // The session's own tokens do not weigh on the choice of its worker.
        self.state.set_counted(key, false);
        let ghost without = self.state.model();
        proof {
            if known {
                loads_without(before.sessions, key@, session@);
            } else {
                assert(others =~= without);
            }
            lightest_by_loads(without, others, workers);
        }
        let worker: String = if keep {
            session.worker.clone()
        } else {
            self.state.least_loaded(healthy)
        };
        assert(worker@ == before.owner(key@, workers));
        let tokens: u64 = match exact {
            Some(n) => n,
            None => if session.tokens >= estimate {
                session.tokens
            } else {
                estimate
            },
        };
        assert(tokens == before.context(key@, text));
        let load: Load = self.state.load(worker.as_str());
        assert(load@ == load_of(others, worker@));
        if load.tokens.checked_add(tokens).is_none() {
            self.state.set_counted(key, session.counted);
            proof {
                assert(self@.sessions =~= before.sessions);
                assert(self@.workers =~= before.workers);
            }
            return Err(PlacementError::TokensOverflow);
        }
        let placed = Session {
            worker: worker.clone(),
            tokens,
            last_seen: now,
            counted: false,
            inflight: session.inflight,
            released: keep && session.released,
        };
        let ghost fresh = placed@;
        self.state.put(key, placed);
        proof {
            load_with(without, key@, fresh, worker@);
            assert(without.remove(key@) =~= others);
        }
        self.state.set_counted(key, true);
        proof {
            let after = before.assigned(key@, text, workers, now@);
            assert(self@.sessions =~= after.sessions);
            assert(self@.workers =~= after.workers);
        }
        Ok(worker)
    }

    /// Releases every session's owner (the prefix caches were reset): each
    /// session is placed anew on its next request made with none of its
    /// requests in flight. Returns the number of sessions released.
    pub fn release_owners(&mut self) -> (r: usize)
        requires
            old(self).wf(),
        ensures
            final(self).wf(),
            final(self)@ == old(self)@.released(),
            r == old(self)@.sessions.dom().len(),
    {
        let r: usize = self.state.release();
        proof {
            self.state_is_valid();
        }
        r
    }

    /// Marks one request of `key` in flight; `None` when `key` has no session.
    pub fn lease(&mut self, key: &str) -> (r: Option<SessionLease>)
        requires
            old(self).wf(),
            old(self)@.lease_error(key@) is None,
        ensures
            final(self).wf(),
            match r {
                Some(lease) => {
                    &&& old(self)@.sessions.contains_key(key@)
                    &&& lease@ == key@
                    &&& exists|now: Instant| final(self)@ == #[trigger] old(self)@.leased(key@, now@)
                },
                None => !old(self)@.sessions.contains_key(key@) && final(self)@ == old(self)@,
            },
    {
        let now: Instant = self.clock.now();
        self.lease_at(key, now)
    }

    /// [`TokenPlacement::lease`], for sessions of which it is not known whether
    /// another request can be leased.
    pub fn try_lease(&mut self, key: &str) -> (r: Result<Option<SessionLease>, PlacementError>)
        requires
            old(self).wf(),
        ensures
            final(self).wf(),
            exists|now: Instant| #[trigger]
                lease_outcome(old(self)@, key@, now, r, final(self)@),
    {
        let now: Instant = self.clock.now();
        self.try_lease_at(key, now)
    }

    /// [`TokenPlacement::lease`] at a given moment.
    pub fn lease_at(&mut self, key: &str, now: Instant) -> (r: Option<SessionLease>)
        requires
            old(self).wf(),
            old(self)@.lease_error(key@) is None,
        ensures
            final(self).wf(),
            match r {
                Some(lease) => {
                    &&& old(self)@.sessions.contains_key(key@)
                    &&& lease@ == key@
                    &&& final(self)@ == old(self)@.leased(key@, now@)
                },
                None => !old(self)@.sessions.contains_key(key@) && final(self)@ == old(self)@,
            },
    {
        self.try_lease_at(key, now).unwrap()
    }

    /// [`TokenPlacement::try_lease`] at a given moment.
    pub fn try_lease_at(&mut self, key: &str, now: Instant) -> (r: Result<
        Option<SessionLease>,
        PlacementError,
    >)
        requires
            old(self).wf(),
        ensures
            final(self).wf(),
            lease_outcome(old(self)@, key@, now, r, final(self)@),
    {
        let ghost before = self@;
        let session: Session = match self.state.sessions.get(key) {
            Some(session) => session.copy(),
            None => return Ok(None),
        };
        assert(before.sessions.contains_key(key@) && before.sessions[key@] == session@);
        if session.inflight == u32::MAX {
            return Err(PlacementError::LeasesOverflow);
        }
        let load: Load = self.state.load(session.worker.as_str());
        if !session.counted && load.tokens.checked_add(session.tokens).is_none() {
            return Err(PlacementError::TokensOverflow);
        }
        let ghost s = session@;
        let leased = Session { inflight: session.inflight + 1, last_seen: now, ..session };
        let ghost fresh = leased@;
        self.state.put(key, leased);
        proof {
            load_with(before.sessions, key@, s, s.worker);
            load_with(before.sessions, key@, fresh, s.worker);
            assert(before.sessions.insert(key@, s) =~= before.sessions);
        }
        self.state.set_counted(key, true);
        proof {
            let after = before.leased(key@, now@);
            assert(self@.sessions =~= after.sessions);
            assert(self@.workers =~= after.workers);
            self.state_is_valid();
        }
        Ok(Some(SessionLease { key: key.to_owned() }))
    }

    /// Settles a leased request and starts the session's idle clock.
    pub fn settle(&mut self, lease: SessionLease)
        requires
            old(self).wf(),
        ensures
            final(self).wf(),
            exists|now: Instant| final(self)@ == #[trigger] old(self)@.settled(lease@, now@),
    {
        let now: Instant = self.clock.now();
        self.settle_at(lease.key(), now)
    }

    /// Settles one request of `key` at a given moment.
    pub fn settle_at(&mut self, key: &str, now: Instant)
        requires
            old(self).wf(),
        ensures
            final(self).wf(),
            final(self)@ == old(self)@.settled(key@, now@),
    {
        let ghost before = self@;
        let session: Session = match self.state.sessions.get(key) {
            Some(session) => session.copy(),
            None => return,
        };
        assert(before.sessions.contains_key(key@) && before.sessions[key@] == session@);
        let settled = Session {
            inflight: session.inflight.saturating_sub(1),
            last_seen: now,
            ..session
        };
        self.state.put(key, settled);
        proof {
            assert(self@.sessions =~= before.settled(key@, now@).sessions);
            self.state_is_valid();
        }
    }

    /// Counted context tokens per worker, for diagnostics and tests.
    pub fn worker_tokens(&self) -> (r: KeyMap<u64>)
        requires
            self.wf(),
        ensures
            r.wf(),
            r@.dom() == self@.workers,
            forall|w: Seq<char>| #[trigger]
                r@.contains_key(w) ==> r@[w] == load_of(self@.sessions, w).tokens,
    {
        let mut r: KeyMap<u64> = KeyMap::new();
        let n: usize = self.state.loads.len();
        let ghost order = self.state.loads.order();
        let mut i: usize = 0;
        while i < n
            invariant
                self.state.wf(),
                r.wf(),
                order == self.state.loads.order(),
                n == order.len(),
                i <= n,
                r@.dom() == order.take(i as int).to_set(),
                forall|w: Seq<char>| #[trigger]
                    r@.contains_key(w) ==> r@[w] == load_of(self@.sessions, w).tokens,
            decreases n - i,
        {
            let worker: &str = self.state.loads.key_at(i);
            let load: Load = self.state.load(worker);
            r.insert(worker, load.tokens);
            proof {
                assert(order.take(i + 1) =~= order.take(i as int).push(worker@));
                assert(order.take(i as int).push(worker@).to_set() =~= order.take(
                    i as int,
                ).to_set().insert(worker@)) by {
                    broadcast use vstd::seq_lib::group_seq_properties;

                }
            }
            i = i + 1;
        }
        assert(order.take(n as int) =~= order);
        r
    }
}

} // verus!

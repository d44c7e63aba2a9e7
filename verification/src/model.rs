//! What a placement is, as mathematics: its sessions, the load that they put
//! on the workers, and what each operation makes of them.

use crate::prompt::estimate;
use crate::prompt::prompt_tokens;
use crate::time::time_since;
use crate::time::MAX_DURATION_NANOS;
use crate::time::NANOS_PER_SEC;
use vstd::prelude::*;

verus! {

/// How many idle periods a session without requests in flight is remembered.
pub const RETAIN_IDLE_PERIODS: u128 = 4;

/// How much time lies between two sweeps, in nanoseconds.
pub const SWEEP_INTERVAL: u128 = NANOS_PER_SEC;

/// Why a request cannot be placed or leased.
#[derive(Debug, Clone, Copy, PartialEq, Eq, Structural)]
pub enum PlacementError {
    /// The time for which idle sessions are remembered is too long to express.
    RetentionOverflow,
    /// There is no healthy worker to place a session on.
    NoHealthyWorker,
    /// The worker's counted tokens no longer fit in 64 bits.
    TokensOverflow,
    /// The session's requests in flight no longer fit in 32 bits.
    LeasesOverflow,
}

/// A session: all requests that were made under one key.
pub struct SessionModel {
    /// The worker that owns the session.
    pub worker: Seq<char>,
    /// The length of the session's context.
    pub tokens: nat,
    /// When a request was last placed, leased or settled.
    pub last_seen: nat,
    /// Whether the session counts toward its worker's load.
    pub counted: bool,
    /// How many requests are in flight.
    pub inflight: nat,
    /// Whether the next request made while idle is to be placed anew.
    pub released: bool,
}

/// What a worker carries.
pub struct LoadModel {
    /// The context tokens of its counted sessions.
    pub tokens: nat,
    /// The number of its counted sessions.
    pub sessions: nat,
}

/// The names of a list of workers.
pub open spec fn names(workers: Seq<&str>) -> Seq<Seq<char>> {
    workers.map_values(|w: &str| w@)
}

/// The sessions of a placement, by key.
pub type Sessions = Map<Seq<char>, SessionModel>;

/// The state of a placement.
pub struct PlacementModel {
    /// After how long an idle session stops counting.
    pub idle: nat,
    /// The sessions that are remembered.
    pub sessions: Sessions,
    /// The workers on which a session was ever counted.
    pub workers: Set<Seq<char>>,
    /// When idle sessions were last looked for.
    pub last_sweep: nat,
}

impl SessionModel {
    /// Whether the session counts toward the load of `worker`.
    pub open spec fn counts_on(self, worker: Seq<char>) -> bool {
        self.counted && self.worker == worker
    }

    /// What the session adds to the tokens of `worker`.
    pub open spec fn tokens_on(self, worker: Seq<char>) -> nat {
        if self.counts_on(worker) {
            self.tokens
        } else {
            0
        }
    }

    /// What the session adds to the session count of `worker`.
    pub open spec fn sessions_on(self, worker: Seq<char>) -> nat {
        if self.counts_on(worker) {
            1
        } else {
            0
        }
    }
}

impl LoadModel {
    /// Fewer tokens, or as many tokens and fewer sessions.
    pub open spec fn lighter_than(self, other: LoadModel) -> bool {
        self.tokens < other.tokens || (self.tokens == other.tokens && self.sessions
            < other.sessions)
    }
}

/// The sum of what each session contributes.
pub open spec fn total(sessions: Sessions, share: spec_fn(SessionModel) -> nat) -> nat
    decreases sessions.dom().len(),
{
    if sessions.dom().finite() && exists|key: Seq<char>| sessions.contains_key(key) {
        let key = choose|key: Seq<char>| sessions.contains_key(key);
        share(sessions[key]) + total(sessions.remove(key), share)
    } else {
        0
    }
}

/// The load that the counted sessions put on `worker`.
pub open spec fn load_of(sessions: Sessions, worker: Seq<char>) -> LoadModel {
    LoadModel {
        tokens: total(sessions, |s: SessionModel| s.tokens_on(worker)),
        sessions: total(sessions, |s: SessionModel| s.sessions_on(worker)),
    }
}

/// Whether no worker of `healthy` carries less than the one at `i`, and every
/// one before it carries more.
pub open spec fn is_lightest(sessions: Sessions, healthy: Seq<Seq<char>>, i: int) -> bool {
    &&& 0 <= i < healthy.len()
    &&& forall|j: int|
        0 <= j < healthy.len() ==> {
            &&& !load_of(sessions, #[trigger] healthy[j]).lighter_than(load_of(sessions, healthy[i]))
            &&& j < i ==> load_of(sessions, healthy[i]).lighter_than(load_of(sessions, healthy[j]))
        }
}

/// The worker of `healthy` with the fewest counted tokens, then the fewest
/// counted sessions, then the earliest in `healthy`.
pub open spec fn lightest(sessions: Sessions, healthy: Seq<Seq<char>>) -> Seq<char> {
    healthy[choose|i: int| is_lightest(sessions, healthy, i)]
}

/// Whether `tokens` on top of `load` do not fit in 64 bits.
pub open spec fn overflows(load: nat, tokens: nat) -> bool {
    load + tokens > u64::MAX
}

impl PlacementModel {
    /// There are finitely many sessions, and the worker of each counted one is
    /// known.
    pub open spec fn valid(self) -> bool {
        &&& self.sessions.dom().finite()
        &&& forall|key: Seq<char>| #[trigger]
            self.sessions.contains_key(key) && self.sessions[key].counted
                ==> self.workers.contains(self.sessions[key].worker)
    }

    /// A placement without sessions.
    pub open spec fn empty(idle: nat) -> PlacementModel {
        PlacementModel {
            idle,
            sessions: Map::empty(),
            workers: Set::empty(),
            last_sweep: 0,
        }
    }

    /// Whether `session` has nothing in flight and has been idle for longer
    /// than `periods` idle periods.
    pub open spec fn idle_beyond(self, session: SessionModel, periods: nat, now: nat) -> bool {
        session.inflight == 0 && time_since(now, session.last_seen) > periods * self.idle
    }

    /// Whether a sweep forgets `session`.
    pub open spec fn forgets(self, session: SessionModel, now: nat) -> bool {
        self.idle_beyond(session, RETAIN_IDLE_PERIODS as nat, now)
    }

    /// What a sweep makes of a session that it does not forget: one idle for
    /// longer than the idle period stops counting.
    pub open spec fn after_sweep(self, session: SessionModel, now: nat) -> SessionModel {
        SessionModel { counted: session.counted && !self.idle_beyond(session, 1, now), ..session }
    }

    /// Whether the last sweep is long enough ago for another.
    pub open spec fn sweep_due(self, now: nat) -> bool {
        time_since(now, self.last_sweep) >= SWEEP_INTERVAL
    }

    /// The placement with the idle sessions looked for, if a sweep is due.
    pub open spec fn swept(self, now: nat) -> PlacementModel {
        if self.sweep_due(now) {
            PlacementModel {
                sessions: Map::new(
                    |key: Seq<char>|
                        self.sessions.contains_key(key) && !self.forgets(self.sessions[key], now),
                    |key: Seq<char>| self.after_sweep(self.sessions[key], now),
                ),
                last_sweep: now,
                ..self
            }
        } else {
            self
        }
    }

    /// Whether a request of `key` stays with the session's worker: there is
    /// one, it is healthy, and it was not released with nothing in flight.
    pub open spec fn keeps_owner(self, key: Seq<char>, healthy: Seq<Seq<char>>) -> bool {
        &&& self.sessions.contains_key(key)
        &&& healthy.contains(self.sessions[key].worker)
        &&& !(self.sessions[key].released && self.sessions[key].inflight == 0)
    }

    /// The worker for a request of `key`: the one that it has, or the one with
    /// the lightest load, the session's own not counted.
    pub open spec fn owner(self, key: Seq<char>, healthy: Seq<Seq<char>>) -> Seq<char> {
        if self.keeps_owner(key, healthy) {
            self.sessions[key].worker
        } else {
            lightest(self.sessions.remove(key), healthy)
        }
    }

    /// The context length of `key`'s session, none if there is no session.
    pub open spec fn tokens(self, key: Seq<char>) -> nat {
        if self.sessions.contains_key(key) {
            self.sessions[key].tokens
        } else {
            0
        }
    }

    /// The requests of `key` that are in flight.
    pub open spec fn inflight(self, key: Seq<char>) -> nat {
        if self.sessions.contains_key(key) {
            self.sessions[key].inflight
        } else {
            0
        }
    }

    /// The context length of `key`'s session after a request with this text:
    /// what the request lists, or else its estimate if that is more than the
    /// session had.
    pub open spec fn context(self, key: Seq<char>, text: Option<Seq<char>>) -> nat {
        match prompt_tokens(text) {
            Some(n) => n,
            None => if self.tokens(key) >= estimate(text) {
                self.tokens(key)
            } else {
                estimate(text)
            },
        }
    }

    /// The worker to which a request made at `now` goes.
    pub open spec fn placed_on(
        self,
        key: Seq<char>,
        healthy: Seq<Seq<char>>,
        now: nat,
    ) -> Seq<char> {
        self.swept(now).owner(key, healthy)
    }

    /// The placement after a request, no sweep being made.
    pub open spec fn assigned(
        self,
        key: Seq<char>,
        text: Option<Seq<char>>,
        healthy: Seq<Seq<char>>,
        now: nat,
    ) -> PlacementModel {
        let worker = self.owner(key, healthy);
        let session = SessionModel {
            worker,
            tokens: self.context(key, text),
            last_seen: now,
            counted: true,
            inflight: self.inflight(key),
            released: self.keeps_owner(key, healthy) && self.sessions[key].released,
        };
        PlacementModel {
            sessions: self.sessions.insert(key, session),
            workers: self.workers.insert(worker),
            ..self
        }
    }

    /// Whether the context of a request of `key` does not fit on top of what
    /// the other sessions put on its worker.
    pub open spec fn overloads(
        self,
        key: Seq<char>,
        text: Option<Seq<char>>,
        healthy: Seq<Seq<char>>,
    ) -> bool {
        overflows(
            load_of(self.sessions.remove(key), self.owner(key, healthy)).tokens,
            self.context(key, text),
        )
    }

    /// The placement after a request made at `now`.
    pub open spec fn placed(
        self,
        key: Seq<char>,
        text: Option<Seq<char>>,
        healthy: Seq<Seq<char>>,
        now: nat,
    ) -> PlacementModel {
        self.swept(now).assigned(key, text, healthy, now)
    }

    /// Why a request made at `now` cannot be placed, if it cannot.
    pub open spec fn place_error(
        self,
        key: Seq<char>,
        text: Option<Seq<char>>,
        healthy: Seq<Seq<char>>,
        now: nat,
    ) -> Option<PlacementError> {
        if self.sweep_due(now) && self.idle * RETAIN_IDLE_PERIODS > MAX_DURATION_NANOS {
            Some(PlacementError::RetentionOverflow)
        } else if healthy.len() == 0 {
            Some(PlacementError::NoHealthyWorker)
        } else if self.swept(now).overloads(key, text, healthy) {
            Some(PlacementError::TokensOverflow)
        } else {
            None
        }
    }

    /// Whether a request made at `now` can be placed, given that its context
    /// fits in 64 bits. That of every text in memory does, so that nothing is
    /// asked of the caller there.
    pub open spec fn placeable(
        self,
        key: Seq<char>,
        text: Option<Seq<char>>,
        healthy: Seq<Seq<char>>,
        now: nat,
    ) -> bool {
        self.swept(now).context(key, text) <= u64::MAX ==> self.place_error(
            key,
            text,
            healthy,
            now,
        ) is None
    }

    /// The placement with one more request of `key` in flight. The session
    /// counts again.
    pub open spec fn leased(self, key: Seq<char>, now: nat) -> PlacementModel {
        let session = self.sessions[key];
        PlacementModel {
            sessions: self.sessions.insert(
                key,
                SessionModel {
                    last_seen: now,
                    counted: true,
                    inflight: session.inflight + 1,
                    ..session
                },
            ),
            workers: self.workers.insert(session.worker),
            ..self
        }
    }

    /// Why a request of `key`, which has a session, cannot be leased, if it
    /// cannot.
    pub open spec fn lease_error(self, key: Seq<char>) -> Option<PlacementError> {
        let session = self.sessions[key];
        if !self.sessions.contains_key(key) {
            None
        } else if session.inflight >= u32::MAX {
            Some(PlacementError::LeasesOverflow)
        } else if !session.counted && overflows(
            load_of(self.sessions, session.worker).tokens,
            session.tokens,
        ) {
            Some(PlacementError::TokensOverflow)
        } else {
            None
        }
    }

    /// The placement with one request of `key` less in flight, if it has a
    /// session.
    pub open spec fn settled(self, key: Seq<char>, now: nat) -> PlacementModel {
        if self.sessions.contains_key(key) {
            let session = self.sessions[key];
            PlacementModel {
                sessions: self.sessions.insert(
                    key,
                    SessionModel {
                        last_seen: now,
                        inflight: if session.inflight > 0 {
                            (session.inflight - 1) as nat
                        } else {
                            0
                        },
                        ..session
                    },
                ),
                ..self
            }
        } else {
            self
        }
    }

    /// The placement with every session to be placed anew once idle.
    pub open spec fn released(self) -> PlacementModel {
        PlacementModel {
            sessions: self.sessions.map_values(
                |s: SessionModel| SessionModel { released: true, ..s },
            ),
            ..self
        }
    }
}

/// One session taken out of the sum.
pub(crate) proof fn total_without(
    sessions: Sessions,
    key: Seq<char>,
    share: spec_fn(SessionModel) -> nat,
)
    requires
        sessions.dom().finite(),
        sessions.contains_key(key),
    ensures
        total(sessions, share) == share(sessions[key]) + total(sessions.remove(key), share),
    decreases sessions.dom().len(),
{
    let first = choose|key: Seq<char>| sessions.contains_key(key);
    if first != key {
        total_without(sessions.remove(first), key, share);
        total_without(sessions.remove(key), first, share);
        assert(sessions.remove(first).remove(key) =~= sessions.remove(key).remove(first));
    }
}

/// Sessions that contribute nothing amount to nothing.
pub(crate) proof fn total_of_nothing(sessions: Sessions, share: spec_fn(SessionModel) -> nat)
    requires
        forall|key: Seq<char>| #[trigger]
            sessions.contains_key(key) ==> share(sessions[key]) == 0,
    ensures
        total(sessions, share) == 0,
    decreases sessions.dom().len(),
{
    if sessions.dom().finite() && exists|key: Seq<char>| sessions.contains_key(key) {
        let key = choose|key: Seq<char>| sessions.contains_key(key);
        let rest = sessions.remove(key);
        assert forall|k: Seq<char>| #[trigger] rest.contains_key(k) implies share(rest[k]) == 0 by {
            assert(sessions.contains_key(k));
        }
        total_of_nothing(rest, share);
    }
}

/// Sessions that contribute the same, key by key, amount to the same.
pub(crate) proof fn total_of_same(a: Sessions, b: Sessions, share: spec_fn(SessionModel) -> nat)
    requires
        a.dom() == b.dom(),
        forall|key: Seq<char>| #[trigger]
            a.contains_key(key) ==> share(a[key]) == share(b[key]),
    ensures
        total(a, share) == total(b, share),
    decreases a.dom().len(),
{
    if a.dom().finite() && exists|key: Seq<char>| a.contains_key(key) {
        let key = choose|key: Seq<char>| a.contains_key(key);
        let (x, y) = (a.remove(key), b.remove(key));
        assert forall|k: Seq<char>| #[trigger] x.contains_key(k) implies share(x[k]) == share(
            y[k],
        ) by {
            assert(a.contains_key(k));
        }
        total_of_same(x, y, share);
    }
}

/// Sessions that contribute at most one each amount to at most their number.
pub(crate) proof fn total_is_at_most_len(sessions: Sessions, share: spec_fn(SessionModel) -> nat)
    requires
        sessions.dom().finite(),
        forall|s: SessionModel| #[trigger] share(s) <= 1,
    ensures
        total(sessions, share) <= sessions.dom().len(),
    decreases sessions.dom().len(),
{
    if exists|key: Seq<char>| sessions.contains_key(key) {
        let key = choose|key: Seq<char>| sessions.contains_key(key);
        assert(share(sessions[key]) <= 1);
        total_is_at_most_len(sessions.remove(key), share);
    }
}

/// The load of a worker is that of the other sessions plus what the session of
/// `key` adds.
pub proof fn load_with(sessions: Sessions, key: Seq<char>, session: SessionModel, worker: Seq<char>)
    requires
        sessions.dom().finite(),
    ensures
        load_of(sessions.insert(key, session), worker).tokens == load_of(
            sessions.remove(key),
            worker,
        ).tokens + session.tokens_on(worker),
        load_of(sessions.insert(key, session), worker).sessions == load_of(
            sessions.remove(key),
            worker,
        ).sessions + session.sessions_on(worker),
{
    let with = sessions.insert(key, session);
    assert(with.remove(key) =~= sessions.remove(key));
    total_without(with, key, |s: SessionModel| s.tokens_on(worker));
    total_without(with, key, |s: SessionModel| s.sessions_on(worker));
}

/// A session that does not count weighs on no worker.
pub(crate) proof fn loads_without(sessions: Sessions, key: Seq<char>, session: SessionModel)
    requires
        sessions.dom().finite(),
    ensures
        forall|w: Seq<char>| #[trigger]
            load_of(sessions.insert(key, SessionModel { counted: false, ..session }), w)
                == load_of(sessions.remove(key), w),
{
    assert forall|w: Seq<char>| #[trigger]
        load_of(sessions.insert(key, SessionModel { counted: false, ..session }), w) == load_of(
            sessions.remove(key),
            w,
        ) by {
        load_with(sessions, key, SessionModel { counted: false, ..session }, w);
    }
}

/// A worker on which no session counts carries nothing.
pub proof fn load_of_unused(sessions: Sessions, worker: Seq<char>)
    requires
        forall|key: Seq<char>| #[trigger]
            sessions.contains_key(key) ==> !sessions[key].counts_on(worker),
    ensures
        load_of(sessions, worker) == (LoadModel { tokens: 0, sessions: 0 }),
{
    total_of_nothing(sessions, |s: SessionModel| s.tokens_on(worker));
    total_of_nothing(sessions, |s: SessionModel| s.sessions_on(worker));
}

/// A worker carries at most as many sessions as there are.
pub(crate) proof fn load_sessions_bounded(sessions: Sessions, worker: Seq<char>)
    requires
        sessions.dom().finite(),
    ensures
        load_of(sessions, worker).sessions <= sessions.dom().len(),
{
    total_is_at_most_len(sessions, |s: SessionModel| s.sessions_on(worker));
}

/// A list of workers that is not empty has a lightest one.
pub proof fn lightest_exists(sessions: Sessions, healthy: Seq<Seq<char>>) -> (i: int)
    requires
        healthy.len() > 0,
    ensures
        is_lightest(sessions, healthy, i),
        lightest(sessions, healthy) == healthy[i],
    decreases healthy.len(),
{
    let i = if healthy.len() == 1 {
        0
    } else {
        let last = healthy.len() - 1;
        let first = healthy.drop_last();
        let i = lightest_exists(sessions, first);
        assert(forall|j: int| 0 <= j < last ==> first[j] == #[trigger] healthy[j]);
        if load_of(sessions, healthy[last]).lighter_than(load_of(sessions, healthy[i])) {
            last
        } else {
            i
        }
    };
    lightest_is_unique(sessions, healthy, i);
    i
}

/// Which worker is the lightest depends on the loads alone.
pub(crate) proof fn lightest_by_loads(a: Sessions, b: Sessions, healthy: Seq<Seq<char>>)
    requires
        healthy.len() > 0,
        forall|w: Seq<char>| #[trigger] load_of(a, w) == load_of(b, w),
    ensures
        lightest(a, healthy) == lightest(b, healthy),
{
    let i = lightest_exists(a, healthy);
    assert(is_lightest(b, healthy, i));
    lightest_is_unique(b, healthy, i);
}

/// At most one place of `healthy` is the lightest.
pub proof fn lightest_is_unique(sessions: Sessions, healthy: Seq<Seq<char>>, i: int)
    requires
        is_lightest(sessions, healthy, i),
    ensures
        lightest(sessions, healthy) == healthy[i],
{
    let k = choose|k: int| is_lightest(sessions, healthy, k);
    assert(healthy[k] == healthy[i]);
}

} // verus!

//! What holds of a placement as a whole.

use crate::model::is_lightest;
use crate::model::lightest_exists;
use crate::model::load_of;
use crate::model::load_with;
use crate::model::total_of_same;
use crate::model::PlacementModel;
use crate::model::SessionModel;
use crate::model::RETAIN_IDLE_PERIODS;
use crate::model::SWEEP_INTERVAL;
use crate::prompt::estimate;
use crate::prompt::prompt_tokens;
use crate::time::time_since;
use vstd::prelude::*;

verus! {

/// A session that is not remembered goes to the healthy worker whose sessions
/// hold the fewest counted tokens, then the fewest sessions, then the earliest.
pub proof fn new_session_goes_to_the_lightest(
    m: PlacementModel,
    key: Seq<char>,
    healthy: Seq<Seq<char>>,
    now: nat,
)
    requires
        healthy.len() > 0,
        !m.swept(now).sessions.contains_key(key),
    ensures
        exists|i: int| #[trigger]
            is_lightest(m.swept(now).sessions, healthy, i) && m.placed_on(key, healthy, now)
                == healthy[i],
{
    let sessions = m.swept(now).sessions;
    assert(sessions.remove(key) =~= sessions);
    let i = lightest_exists(sessions, healthy);
    assert(is_lightest(sessions, healthy, i));
}

/// A session whose worker left `healthy` goes to the healthy worker that the
/// other sessions load the least.
pub proof fn session_of_an_unhealthy_worker_moves_to_the_lightest(
    m: PlacementModel,
    key: Seq<char>,
    healthy: Seq<Seq<char>>,
    now: nat,
)
    requires
        healthy.len() > 0,
        m.swept(now).sessions.contains_key(key),
        !healthy.contains(m.swept(now).sessions[key].worker),
    ensures
        exists|i: int| #[trigger]
            is_lightest(m.swept(now).sessions.remove(key), healthy, i) && m.placed_on(
                key,
                healthy,
                now,
            ) == healthy[i],
{
    let others = m.swept(now).sessions.remove(key);
    let i = lightest_exists(others, healthy);
    assert(is_lightest(others, healthy, i));
}

/// A request always goes to a healthy worker.
pub proof fn placed_on_a_healthy_worker(
    m: PlacementModel,
    key: Seq<char>,
    healthy: Seq<Seq<char>>,
    now: nat,
)
    requires
        healthy.len() > 0,
    ensures
        healthy.contains(m.placed_on(key, healthy, now)),
{
    let swept = m.swept(now);
    if !swept.keeps_owner(key, healthy) {
        let i = lightest_exists(swept.sessions.remove(key), healthy);
        assert(healthy[i] == m.placed_on(key, healthy, now));
    }
}

/// A later request of a session goes to the worker of the earlier one, as long
/// as that worker is healthy, and either a request is in flight or no more than
/// the retention has passed.
pub proof fn sessions_are_sticky(
    m: PlacementModel,
    key: Seq<char>,
    text: Option<Seq<char>>,
    healthy: Seq<Seq<char>>,
    now: nat,
    healthy_later: Seq<Seq<char>>,
    later: nat,
)
    requires
        healthy_later.contains(m.placed_on(key, healthy, now)),
        m.swept(now).inflight(key) > 0 || time_since(later, now) <= RETAIN_IDLE_PERIODS * m.idle,
    ensures
        m.placed(key, text, healthy, now).placed_on(key, healthy_later, later) == m.placed_on(
            key,
            healthy,
            now,
        ),
{
    let p = m.placed(key, text, healthy, now);
    assert(p.sessions.contains_key(key));
    let s = p.sessions[key];
    assert(p.idle == m.idle);
    assert(!p.forgets(s, later));
    assert(p.swept(later).sessions.contains_key(key));
    assert(p.swept(later).keeps_owner(key, healthy_later));
}

/// Between two requests of a session, requests of other sessions neither move
/// it nor change its context; they can make it stop counting, or forget it,
/// only by being made while it is idle.
pub proof fn other_sessions_stay(
    m: PlacementModel,
    key: Seq<char>,
    text: Option<Seq<char>>,
    healthy: Seq<Seq<char>>,
    now: nat,
    other: Seq<char>,
)
    requires
        other != key,
    ensures
        m.placed(key, text, healthy, now).sessions.contains_key(other) <==> m.swept(
            now,
        ).sessions.contains_key(other),
        m.swept(now).sessions.contains_key(other) ==> {
            let s = m.placed(key, text, healthy, now).sessions[other];
            &&& m.sessions.contains_key(other)
            &&& s == (SessionModel { counted: s.counted, ..m.sessions[other] })
            &&& s.counted ==> m.sessions[other].counted
        },
{
}

/// A request that lists its token ids sets the session's context length to
/// their number.
pub proof fn listed_tokens_are_the_context(
    m: PlacementModel,
    key: Seq<char>,
    text: Option<Seq<char>>,
    healthy: Seq<Seq<char>>,
    now: nat,
)
    requires
        prompt_tokens(text) is Some,
    ensures
        m.placed(key, text, healthy, now).sessions.contains_key(key),
        prompt_tokens(text) == Some(m.placed(key, text, healthy, now).sessions[key].tokens),
{
}

/// A request that lists no token ids neither moves nor shrinks a session that
/// has a healthy owner; one no longer than the context, at four bytes a token,
/// leaves the context as it is.
pub proof fn an_abort_neither_moves_nor_shrinks(
    m: PlacementModel,
    key: Seq<char>,
    text: Option<Seq<char>>,
    healthy: Seq<Seq<char>>,
    now: nat,
)
    requires
        prompt_tokens(text) is None,
        m.swept(now).keeps_owner(key, healthy),
    ensures
        m.placed_on(key, healthy, now) == m.sessions[key].worker,
        m.placed(key, text, healthy, now).sessions[key].worker == m.sessions[key].worker,
        m.placed(key, text, healthy, now).sessions[key].tokens >= m.sessions[key].tokens,
        estimate(text) <= m.sessions[key].tokens ==> m.placed(
            key,
            text,
            healthy,
            now,
        ).sessions[key].tokens == m.sessions[key].tokens,
{
}

/// However long a request is in flight, no sweep changes its session.
pub proof fn a_session_in_flight_never_expires(m: PlacementModel, key: Seq<char>, now: nat)
    requires
        m.sessions.contains_key(key),
        m.sessions[key].inflight > 0,
    ensures
        m.swept(now).sessions.contains_key(key),
        m.swept(now).sessions[key] == m.sessions[key],
{
}

/// Whatever the text and however late, a request of a session that has another
/// in flight goes to the session's worker while that is healthy.
pub proof fn a_request_reaches_the_worker_in_flight(
    m: PlacementModel,
    key: Seq<char>,
    healthy: Seq<Seq<char>>,
    now: nat,
)
    requires
        m.sessions.contains_key(key),
        m.sessions[key].inflight > 0,
        healthy.contains(m.sessions[key].worker),
    ensures
        m.placed_on(key, healthy, now) == m.sessions[key].worker,
{
    a_session_in_flight_never_expires(m, key, now);
}

/// A counted session is part of its worker's load, and the load without it is
/// that of the others.
pub proof fn a_counted_session_is_in_the_load(m: PlacementModel, key: Seq<char>)
    requires
        m.valid(),
        m.sessions.contains_key(key),
        m.sessions[key].counted,
    ensures
        load_of(m.sessions, m.sessions[key].worker).tokens == load_of(
            m.sessions.remove(key),
            m.sessions[key].worker,
        ).tokens + m.sessions[key].tokens,
        load_of(m.sessions, m.sessions[key].worker).sessions == load_of(
            m.sessions.remove(key),
            m.sessions[key].worker,
        ).sessions + 1,
{
    load_with(m.sessions, key, m.sessions[key], m.sessions[key].worker);
    assert(m.sessions.insert(key, m.sessions[key]) =~= m.sessions);
}

/// What a sweep that is due makes of each session: it forgets those idle for
/// more than four idle periods, those idle for more than one stop counting,
/// and the others stay as they are.
pub proof fn a_sweep_judges_by_idle_time(m: PlacementModel, key: Seq<char>, now: nat)
    requires
        m.sweep_due(now),
        m.sessions.contains_key(key),
    ensures
        ({
            let s = m.sessions[key];
            let age = time_since(now, s.last_seen);
            let after = m.swept(now).sessions;
            if s.inflight > 0 || age <= m.idle {
                after.contains_key(key) && after[key] == s
            } else if age <= RETAIN_IDLE_PERIODS * m.idle {
                after.contains_key(key) && after[key] == (SessionModel { counted: false, ..s })
            } else {
                !after.contains_key(key)
            }
        }),
{
    assert(RETAIN_IDLE_PERIODS * m.idle >= m.idle);
}

/// A sweep makes no session up.
pub proof fn a_sweep_only_forgets(m: PlacementModel, key: Seq<char>, now: nat)
    requires
        m.swept(now).sessions.contains_key(key),
    ensures
        m.sessions.contains_key(key),
{
}

/// After a sweep, no other is due until the interval has passed.
pub proof fn sweeps_are_spaced(m: PlacementModel, now: nat, later: nat)
    requires
        m.sweep_due(now),
        later < now + SWEEP_INTERVAL,
    ensures
        !m.swept(now).sweep_due(later),
        m.swept(now).swept(later) == m.swept(now),
{
}

/// A session that settles its last request and makes no other stops counting
/// with the first sweep after the idle period, counted from the settling.
pub proof fn idle_time_starts_with_the_last_settle(
    m: PlacementModel,
    key: Seq<char>,
    settled_at: nat,
    now: nat,
)
    requires
        m.sessions.contains_key(key),
        m.sessions[key].inflight <= 1,
        m.settled(key, settled_at).sweep_due(now),
    ensures
        ({
            let s = m.settled(key, settled_at);
            let after = s.swept(now).sessions;
            &&& time_since(now, settled_at) <= m.idle ==> after.contains_key(key) && after[key]
                == s.sessions[key]
            &&& time_since(now, settled_at) > m.idle ==> !after.contains_key(key)
                || !after[key].counted
            &&& !after.contains_key(key) <==> time_since(now, settled_at) > RETAIN_IDLE_PERIODS
                * m.idle
        }),
{
    a_sweep_judges_by_idle_time(m.settled(key, settled_at), key, now);
}

/// Settling a lease leaves the session's requests in flight as they were
/// before it; its worker and its context stay.
pub proof fn settling_undoes_a_lease(m: PlacementModel, key: Seq<char>, leased: nat, settled: nat)
    requires
        m.sessions.contains_key(key),
    ensures
        m.leased(key, leased).settled(key, settled).sessions.contains_key(key),
        m.leased(key, leased).settled(key, settled).sessions[key] == (SessionModel {
            last_seen: settled,
            counted: true,
            ..m.sessions[key]
        }),
        m.leased(key, leased).settled(key, settled).sessions.remove(key) == m.sessions.remove(key),
{
    assert(m.leased(key, leased).settled(key, settled).sessions.remove(key) =~= m.sessions.remove(
        key,
    ));
}

/// A placed request can be leased: its session is there, counted, on the worker
/// that it was placed on, with as many requests in flight as before.
pub proof fn a_placed_session_can_be_leased(
    m: PlacementModel,
    key: Seq<char>,
    text: Option<Seq<char>>,
    healthy: Seq<Seq<char>>,
    now: nat,
)
    requires
        m.inflight(key) < u32::MAX,
    ensures
        ({
            let p = m.placed(key, text, healthy, now);
            &&& p.sessions.contains_key(key)
            &&& p.sessions[key].counted
            &&& p.sessions[key].worker == m.placed_on(key, healthy, now)
            &&& p.inflight(key) == m.inflight(key)
            &&& p.lease_error(key) is None
        }),
{
    if m.sessions.contains_key(key) && m.forgets(m.sessions[key], now) {
        assert(m.inflight(key) == 0);
    }
}

/// After a release, a session without requests in flight is placed anew, on the
/// worker that the other sessions load the least.
pub proof fn a_released_session_is_placed_anew_once_idle(
    m: PlacementModel,
    key: Seq<char>,
    healthy: Seq<Seq<char>>,
    now: nat,
)
    requires
        healthy.len() > 0,
        m.inflight(key) == 0,
    ensures
        exists|i: int| #[trigger]
            is_lightest(m.released().swept(now).sessions.remove(key), healthy, i)
                && m.released().placed_on(key, healthy, now) == healthy[i],
{
    let others = m.released().swept(now).sessions.remove(key);
    let i = lightest_exists(others, healthy);
    assert(is_lightest(others, healthy, i));
}

/// After a release, a session with a request in flight keeps its owner while
/// that is healthy, and is still released.
pub proof fn a_released_session_in_flight_keeps_its_owner(
    m: PlacementModel,
    key: Seq<char>,
    text: Option<Seq<char>>,
    healthy: Seq<Seq<char>>,
    now: nat,
)
    requires
        m.sessions.contains_key(key),
        m.sessions[key].inflight > 0,
        healthy.contains(m.sessions[key].worker),
    ensures
        m.released().placed_on(key, healthy, now) == m.sessions[key].worker,
        m.released().placed(key, text, healthy, now).sessions[key].released,
        m.released().placed(key, text, healthy, now).sessions[key].inflight
            == m.sessions[key].inflight,
{
}

/// A session that was released with one request in flight, and made another in
/// the meantime, is placed anew on the first request after that one settled.
pub proof fn a_release_takes_effect_after_the_last_settle(
    m: PlacementModel,
    key: Seq<char>,
    text: Option<Seq<char>>,
    healthy: Seq<Seq<char>>,
    now: nat,
    settled: nat,
    later: nat,
)
    requires
        m.sessions.contains_key(key),
        m.sessions[key].inflight == 1,
        healthy.contains(m.sessions[key].worker),
    ensures
        ({
            let s = m.released().placed(key, text, healthy, now).settled(key, settled);
            &&& s.sessions[key].worker == m.sessions[key].worker
            &&& exists|i: int| #[trigger]
                is_lightest(s.swept(later).sessions.remove(key), healthy, i) && s.placed_on(
                    key,
                    healthy,
                    later,
                ) == healthy[i]
        }),
{
    a_released_session_in_flight_keeps_its_owner(m, key, text, healthy, now);
    let s = m.released().placed(key, text, healthy, now).settled(key, settled);
    let others = s.swept(later).sessions.remove(key);
    let i = lightest_exists(others, healthy);
    assert(is_lightest(others, healthy, i));
}

/// Releasing changes no load.
pub proof fn a_release_moves_no_load(m: PlacementModel, worker: Seq<char>)
    ensures
        load_of(m.released().sessions, worker) == load_of(m.sessions, worker),
        m.released().sessions.dom() == m.sessions.dom(),
{
    let after = m.released().sessions;
    assert(after.dom() =~= m.sessions.dom());
    total_of_same(m.sessions, after, |s: SessionModel| s.tokens_on(worker));
    total_of_same(m.sessions, after, |s: SessionModel| s.sessions_on(worker));
}

/// Settling changes no load.
pub proof fn a_settle_moves_no_load(
    m: PlacementModel,
    key: Seq<char>,
    now: nat,
    worker: Seq<char>,
)
    ensures
        load_of(m.settled(key, now).sessions, worker) == load_of(m.sessions, worker),
{
    let after = m.settled(key, now).sessions;
    assert(after.dom() =~= m.sessions.dom());
    total_of_same(m.sessions, after, |s: SessionModel| s.tokens_on(worker));
    total_of_same(m.sessions, after, |s: SessionModel| s.sessions_on(worker));
}

/// After a request, its worker carries the other sessions and the session's
/// context; every other worker carries its other sessions alone.
pub proof fn a_request_loads_its_worker_alone(
    m: PlacementModel,
    key: Seq<char>,
    text: Option<Seq<char>>,
    healthy: Seq<Seq<char>>,
    now: nat,
    worker: Seq<char>,
)
    requires
        m.valid(),
    ensures
        ({
            let others = load_of(m.swept(now).sessions.remove(key), worker);
            let after = load_of(m.placed(key, text, healthy, now).sessions, worker);
            if worker == m.placed_on(key, healthy, now) {
                &&& after.tokens == others.tokens + m.swept(now).context(key, text)
                &&& after.sessions == others.sessions + 1
            } else {
                after == others
            }
        }),
{
    validity_is_kept(m, key, text, healthy, now);
    let swept = m.swept(now);
    load_with(swept.sessions, key, swept.assigned(key, text, healthy, now).sessions[key], worker);
}

/// Every operation keeps a placement valid.
pub proof fn validity_is_kept(
    m: PlacementModel,
    key: Seq<char>,
    text: Option<Seq<char>>,
    healthy: Seq<Seq<char>>,
    now: nat,
)
    requires
        m.valid(),
    ensures
        m.swept(now).valid(),
        m.placed(key, text, healthy, now).valid(),
        m.sessions.contains_key(key) ==> m.leased(key, now).valid(),
        m.settled(key, now).valid(),
        m.released().valid(),
{
    let swept = m.swept(now);
    assert(swept.sessions.dom().subset_of(m.sessions.dom()));
    vstd::set_lib::lemma_set_subset_finite(m.sessions.dom(), swept.sessions.dom());
    assert forall|k: Seq<char>| #[trigger]
        swept.sessions.contains_key(k) && swept.sessions[k].counted implies swept.workers.contains(
        swept.sessions[k].worker,
    ) by {
        assert(m.sessions.contains_key(k));
    }
    let placed = m.placed(key, text, healthy, now);
    assert forall|k: Seq<char>| #[trigger]
        placed.sessions.contains_key(k)
            && placed.sessions[k].counted implies placed.workers.contains(
        placed.sessions[k].worker,
    ) by {
        if k != key {
            assert(swept.sessions.contains_key(k));
        }
    }
    let released = m.released();
    assert(released.sessions.dom() =~= m.sessions.dom());
    assert forall|k: Seq<char>| #[trigger]
        released.sessions.contains_key(k)
            && released.sessions[k].counted implies released.workers.contains(
        released.sessions[k].worker,
    ) by {
        assert(m.sessions.contains_key(k));
    }
    let settled = m.settled(key, now);
    assert(settled.sessions.dom() =~= m.sessions.dom());
    assert forall|k: Seq<char>| #[trigger]
        settled.sessions.contains_key(k)
            && settled.sessions[k].counted implies settled.workers.contains(
        settled.sessions[k].worker,
    ) by {
        assert(m.sessions.contains_key(k));
    }
    if m.sessions.contains_key(key) {
        let leased = m.leased(key, now);
        assert forall|k: Seq<char>| #[trigger]
            leased.sessions.contains_key(k)
                && leased.sessions[k].counted implies leased.workers.contains(
            leased.sessions[k].worker,
        ) by {
            assert(m.sessions.contains_key(k));
        }
    }
}

/// One use of a placement.
pub enum Step {
    Place { key: Seq<char>, text: Option<Seq<char>>, healthy: Seq<Seq<char>>, now: nat },
    Lease { key: Seq<char>, now: nat },
    Settle { key: Seq<char>, now: nat },
    Release,
}

/// What one use makes of a placement.
pub open spec fn step(m: PlacementModel, s: Step) -> PlacementModel {
    match s {
        Step::Place { key, text, healthy, now } => m.placed(key, text, healthy, now),
        Step::Lease { key, now } => if m.sessions.contains_key(key) {
            m.leased(key, now)
        } else {
            m
        },
        Step::Settle { key, now } => m.settled(key, now),
        Step::Release => m.released(),
    }
}

/// What a history of uses makes of a placement.
pub open spec fn run(m: PlacementModel, history: Seq<Step>) -> PlacementModel
    decreases history.len(),
{
    if history.len() == 0 {
        m
    } else {
        step(run(m, history.drop_last()), history.last())
    }
}

/// How many requests of `key` a history leases.
pub open spec fn leases(history: Seq<Step>, key: Seq<char>) -> nat
    decreases history.len(),
{
    if history.len() == 0 {
        0
    } else {
        leases(history.drop_last(), key) + match history.last() {
            Step::Lease { key: k, .. } => if k == key {
                1nat
            } else {
                0nat
            },
            _ => 0nat,
        }
    }
}

/// No owner is released.
pub open spec fn without_release(history: Seq<Step>) -> bool {
    forall|i: int| 0 <= i < history.len() ==> !(#[trigger] history[i] is Release)
}

/// No request of `key` settles, and none is made while `worker` is unhealthy.
pub open spec fn in_flight_throughout(
    history: Seq<Step>,
    key: Seq<char>,
    worker: Seq<char>,
) -> bool {
    forall|i: int|
        0 <= i < history.len() ==> match #[trigger] history[i] {
            Step::Place { key: k, healthy, .. } => k == key ==> healthy.contains(worker),
            Step::Settle { key: k, .. } => k != key,
            _ => true,
        }
}

/// A session with a request in flight keeps its owner until that request
/// settles, and keeps counting, whatever happens meanwhile and however long it
/// takes: requests and leases of any session, settles of others, releases and
/// sweeps. Without a release, it is marked for a new placement afterwards only
/// if it was before.
pub proof fn an_owner_is_kept_until_the_request_settles(
    m: PlacementModel,
    key: Seq<char>,
    history: Seq<Step>,
)
    requires
        m.sessions.contains_key(key),
        m.sessions[key].inflight > 0,
        in_flight_throughout(history, key, m.sessions[key].worker),
    ensures
        run(m, history).sessions.contains_key(key),
        run(m, history).sessions[key].worker == m.sessions[key].worker,
        run(m, history).sessions[key].inflight == m.sessions[key].inflight + leases(history, key),
        m.sessions[key].counted ==> run(m, history).sessions[key].counted,
        without_release(history) ==> run(m, history).sessions[key].released
            == m.sessions[key].released,
    decreases history.len(),
{
    if history.len() > 0 {
        let first = history.drop_last();
        let last = history.last();
        assert(forall|i: int| 0 <= i < first.len() ==> first[i] == #[trigger] history[i]);
        assert(history[history.len() - 1] == last);
        an_owner_is_kept_until_the_request_settles(m, key, first);
        let before = run(m, first);
        match last {
            Step::Place { key: k, now, .. } => {
                a_session_in_flight_never_expires(before, key, now);
            },
            _ => {},
        }
    }
}

/// Nothing is released, every use is made at `from` or later and no later than
/// `until`, and no request of `key` is made while `worker` is unhealthy.
pub open spec fn in_use_throughout(
    history: Seq<Step>,
    key: Seq<char>,
    worker: Seq<char>,
    from: nat,
    until: nat,
) -> bool {
    forall|i: int|
        0 <= i < history.len() ==> match #[trigger] history[i] {
            Step::Place { key: k, healthy, now, .. } => from <= now <= until && (k == key
                ==> healthy.contains(worker)),
            Step::Lease { now, .. } => from <= now <= until,
            Step::Settle { now, .. } => from <= now <= until,
            Step::Release => false,
        }
}

/// A session stays on its worker for as long as it is remembered at all:
/// through any history of requests, leases and settles within four idle periods
/// of its last use, in which nothing is released and its worker stays healthy.
pub proof fn an_owner_is_kept_while_remembered(
    m: PlacementModel,
    key: Seq<char>,
    history: Seq<Step>,
    from: nat,
)
    requires
        m.sessions.contains_key(key),
        !m.sessions[key].released,
        m.sessions[key].last_seen >= from,
        in_use_throughout(
            history,
            key,
            m.sessions[key].worker,
            from,
            from + RETAIN_IDLE_PERIODS as nat * m.idle,
        ),
    ensures
        run(m, history).idle == m.idle,
        run(m, history).sessions.contains_key(key),
        run(m, history).sessions[key].worker == m.sessions[key].worker,
        run(m, history).sessions[key].last_seen >= from,
        !run(m, history).sessions[key].released,
    decreases history.len(),
{
    if history.len() > 0 {
        let first = history.drop_last();
        let last = history.last();
        assert(forall|i: int| 0 <= i < first.len() ==> first[i] == #[trigger] history[i]);
        assert(history[history.len() - 1] == last);
        an_owner_is_kept_while_remembered(m, key, first, from);
        let before = run(m, first);
        match last {
            Step::Place { key: k, now, .. } => {
                assert(!before.forgets(before.sessions[key], now));
                assert(before.swept(now).sessions.contains_key(key));
            },
            _ => {},
        }
    }
}

/// Whether the session of `key` is still remembered after the sweep that a
/// request at `now` makes, if one is due.
pub open spec fn survives(m: PlacementModel, key: Seq<char>, now: nat) -> bool {
    !(m.sweep_due(now) && m.forgets(m.sessions[key], now))
}

/// Nothing is released, no request, of whichever session, comes so late that
/// the session of `key` is forgotten, and no request of `key` is made while
/// `worker` is unhealthy.
pub open spec fn remembered_throughout(
    m: PlacementModel,
    history: Seq<Step>,
    key: Seq<char>,
    worker: Seq<char>,
) -> bool {
    forall|i: int|
        0 <= i < history.len() ==> match #[trigger] history[i] {
            Step::Place { key: k, healthy, now, .. } => {
                &&& survives(run(m, history.take(i)), key, now)
                &&& k == key ==> healthy.contains(worker)
            },
            Step::Release => false,
            _ => true,
        }
}

/// A session stays on its worker through any history of requests, leases and
/// settles, of this session and of others, however long: as long as nothing is
/// released, it is never idle for so long that it is forgotten, and its worker
/// is healthy whenever it makes a request.
pub proof fn an_owner_is_kept(m: PlacementModel, key: Seq<char>, history: Seq<Step>)
    requires
        m.sessions.contains_key(key),
        !m.sessions[key].released,
        remembered_throughout(m, history, key, m.sessions[key].worker),
    ensures
        run(m, history).idle == m.idle,
        run(m, history).sessions.contains_key(key),
        run(m, history).sessions[key].worker == m.sessions[key].worker,
        !run(m, history).sessions[key].released,
        forall|healthy: Seq<Seq<char>>, now: nat|
            healthy.contains(m.sessions[key].worker) && survives(run(m, history), key, now)
                ==> #[trigger] run(m, history).placed_on(key, healthy, now)
                == m.sessions[key].worker,
    decreases history.len(),
{
    if history.len() > 0 {
        let first = history.drop_last();
        let last = history.last();
        let worker = m.sessions[key].worker;
        assert(history.take(history.len() - 1) =~= first);
        assert forall|i: int| 0 <= i < first.len() implies match #[trigger] first[i] {
            Step::Place { key: k, healthy, now, .. } => {
                &&& survives(run(m, first.take(i)), key, now)
                &&& k == key ==> healthy.contains(worker)
            },
            Step::Release => false,
            _ => true,
        } by {
            assert(first[i] == history[i]);
            assert(first.take(i) =~= history.take(i));
        }
        assert(history[history.len() - 1] == last);
        an_owner_is_kept(m, key, first);
        let before = run(m, first);
        match last {
            Step::Place { key: k, now, .. } => {
                assert(before.swept(now).sessions.contains_key(key));
            },
            _ => {},
        }
    }
}

/// Later requests of a session stay on the worker of an earlier one: whatever
/// requests, leases and settles come in between, however loaded the worker has
/// become and in whatever order the healthy ones are listed, provided that no
/// release was pending after the earlier request or came since, the session was
/// never idle for so long that it was forgotten, and the worker is healthy
/// whenever the session makes a request.
pub proof fn later_requests_stay_on_the_worker(
    m: PlacementModel,
    key: Seq<char>,
    text: Option<Seq<char>>,
    healthy: Seq<Seq<char>>,
    now: nat,
    history: Seq<Step>,
    healthy_later: Seq<Seq<char>>,
    later: nat,
)
    requires
        ({
            let placed = m.placed(key, text, healthy, now);
            let worker = m.placed_on(key, healthy, now);
            &&& !placed.sessions[key].released
            &&& remembered_throughout(placed, history, key, worker)
            &&& survives(run(placed, history), key, later)
            &&& healthy_later.contains(worker)
        }),
    ensures
        run(m.placed(key, text, healthy, now), history).placed_on(key, healthy_later, later)
            == m.placed_on(key, healthy, now),
{
    an_owner_is_kept(m.placed(key, text, healthy, now), key, history);
}

/// No request of `key` settles.
pub open spec fn without_settle(history: Seq<Step>, key: Seq<char>) -> bool {
    forall|i: int|
        0 <= i < history.len() ==> match #[trigger] history[i] {
            Step::Settle { key: k, .. } => k != key,
            _ => true,
        }
}

/// No request of `key` is leased.
pub open spec fn without_lease(history: Seq<Step>, key: Seq<char>) -> bool {
    forall|i: int|
        0 <= i < history.len() ==> match #[trigger] history[i] {
            Step::Lease { key: k, .. } => k != key,
            _ => true,
        }
}

/// The requests that a session has in flight stay in flight until they settle,
/// and each lease adds one, also where the session is moved to another worker:
/// outstanding leases still settle against it.
pub proof fn leases_outlast_moves(m: PlacementModel, key: Seq<char>, history: Seq<Step>)
    requires
        m.sessions.contains_key(key),
        m.sessions[key].inflight > 0,
        without_settle(history, key),
    ensures
        run(m, history).sessions.contains_key(key),
        run(m, history).sessions[key].inflight == m.sessions[key].inflight + leases(history, key),
        m.sessions[key].counted ==> run(m, history).sessions[key].counted,
        without_lease(history, key) ==> run(m, history).sessions[key].inflight
            == m.sessions[key].inflight,
    decreases history.len(),
{
    if history.len() > 0 {
        let first = history.drop_last();
        let last = history.last();
        assert(forall|i: int| 0 <= i < first.len() ==> first[i] == #[trigger] history[i]);
        assert(history[history.len() - 1] == last);
        leases_outlast_moves(m, key, first);
        let before = run(m, first);
        match last {
            Step::Place { now, .. } => {
                a_session_in_flight_never_expires(before, key, now);
            },
            _ => {},
        }
    }
}

} // verus!

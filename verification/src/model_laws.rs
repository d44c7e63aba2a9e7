//! What each operation does to a placement, number by number.

use crate::model::is_lightest;
use crate::model::lightest_exists;
use crate::model::load_of;
use crate::model::load_with;
use crate::model::names;
use crate::model::total_of_same;
use crate::model::PlacementError;
use crate::model::PlacementModel;
use crate::model::SessionModel;
use crate::model::Sessions;
use crate::model::RETAIN_IDLE_PERIODS;
use crate::model::SWEEP_INTERVAL;
use crate::placement::lease_outcome;
use crate::placement::place_outcome;
use crate::placement::SessionLease;
use crate::prompt::prompt_tokens;
use crate::prompt::text_of;
use crate::time::time_since;
use crate::time::Duration;
use crate::time::Instant;
use crate::time::MAX_DURATION_NANOS;
use crate::time::NANOS_PER_SEC;
use vstd::prelude::*;
use vstd::utf8::encode_utf8;

verus! {

/// A session adds its tokens, and one session, to the worker that it is counted
/// on, and nothing to any other.
pub proof fn a_session_adds_its_tokens(
    sessions: Sessions,
    key: Seq<char>,
    s: SessionModel,
    w: Seq<char>,
)
    requires
        sessions.dom().finite(),
        !sessions.contains_key(key),
    ensures
        s.counted && s.worker == w ==> {
            &&& load_of(sessions.insert(key, s), w).tokens == load_of(sessions, w).tokens + s.tokens
            &&& load_of(sessions.insert(key, s), w).sessions == load_of(sessions, w).sessions + 1
        },
        !s.counted || s.worker != w ==> {
            &&& load_of(sessions.insert(key, s), w).tokens == load_of(sessions, w).tokens
            &&& load_of(sessions.insert(key, s), w).sessions == load_of(sessions, w).sessions
        },
{
    load_with(sessions, key, s, w);
    assert(sessions.remove(key) =~= sessions);
}

/// Without sessions, no worker carries anything.
pub proof fn no_sessions_are_no_load(w: Seq<char>)
    ensures
        load_of(Map::empty(), w).tokens == 0,
        load_of(Map::empty(), w).sessions == 0,
{
}

/// A session is placed anew on a worker of `healthy` that has the fewest counted
/// tokens; among those with as few, it has the fewest counted sessions; among
/// those with as few of both, it is the earliest.
pub proof fn the_fewest_tokens_come_first(
    m: PlacementModel,
    key: Seq<char>,
    healthy: Seq<Seq<char>>,
    now: nat,
) -> (i: int)
    requires
        healthy.len() > 0,
        m.swept(now).sessions.contains_key(key) ==> {
            let s = m.swept(now).sessions[key];
            ||| forall|j: int| 0 <= j < healthy.len() ==> healthy[j] != s.worker
            ||| s.released && s.inflight == 0
        },
    ensures
        0 <= i < healthy.len(),
        m.placed_on(key, healthy, now) == healthy[i],
        ({
            let others = m.swept(now).sessions.remove(key);
            let w = m.placed_on(key, healthy, now);
            &&& forall|j: int|
                0 <= j < healthy.len() ==> load_of(others, w).tokens <= load_of(
                    others,
                    #[trigger] healthy[j],
                ).tokens
            &&& forall|j: int|
                0 <= j < healthy.len() && load_of(others, w).tokens == load_of(
                    others,
                    #[trigger] healthy[j],
                ).tokens ==> load_of(others, w).sessions <= load_of(others, healthy[j]).sessions
            &&& forall|j: int|
                0 <= j < i ==> load_of(others, w).tokens < load_of(
                    others,
                    #[trigger] healthy[j],
                ).tokens || load_of(others, w).sessions < load_of(others, healthy[j]).sessions
        }),
{
    let swept = m.swept(now);
    assert(!swept.keeps_owner(key, healthy));
    let i = lightest_exists(swept.sessions.remove(key), healthy);
    assert(is_lightest(swept.sessions.remove(key), healthy, i));
    i
}

/// A request stays with the worker of its session where that is healthy, unless
/// the session was released and has nothing in flight.
pub proof fn a_healthy_owner_stays(
    m: PlacementModel,
    key: Seq<char>,
    healthy: Seq<Seq<char>>,
    now: nat,
    i: int,
)
    requires
        m.swept(now).sessions.contains_key(key),
        0 <= i < healthy.len(),
        healthy[i] == m.swept(now).sessions[key].worker,
        !m.swept(now).sessions[key].released || m.swept(now).sessions[key].inflight > 0,
    ensures
        m.placed_on(key, healthy, now) == healthy[i],
{
    assert(healthy.contains(healthy[i]));
}

/// Within a second of the last sweep, nothing is swept.
pub proof fn no_sweep_within_a_second(m: PlacementModel, now: nat)
    requires
        now < m.last_sweep + 1_000_000_000,
    ensures
        m.swept(now) == m,
{
}

/// From a second after the last sweep on, a sweep forgets exactly the sessions
/// with nothing in flight that were last seen more than four idle periods ago.
/// Those seen more than one idle period ago stop counting. Nothing else of a
/// session, and nothing else of the placement, changes.
pub proof fn a_sweep_goes_by_the_last_use(m: PlacementModel, key: Seq<char>, now: nat)
    requires
        now >= m.last_sweep + 1_000_000_000,
    ensures
        m.swept(now).last_sweep == now,
        m.swept(now).idle == m.idle,
        m.swept(now).workers == m.workers,
        m.swept(now).sessions.contains_key(key) <==> m.sessions.contains_key(key) && (
        m.sessions[key].inflight > 0 || now <= m.sessions[key].last_seen + 4 * m.idle),
        m.swept(now).sessions.contains_key(key) ==> {
            let before = m.sessions[key];
            let after = m.swept(now).sessions[key];
            &&& after.worker == before.worker
            &&& after.tokens == before.tokens
            &&& after.last_seen == before.last_seen
            &&& after.inflight == before.inflight
            &&& after.released == before.released
            &&& after.counted <==> before.counted && (before.inflight > 0 || now
                <= before.last_seen + m.idle)
        },
{
    if m.sessions.contains_key(key) {
        assert(1 * m.idle == m.idle);
    }
}

/// What a request leaves behind: its session is counted on its worker, last seen
/// now, with the requests in flight that it had; it is released only if it was
/// and stayed with its worker. All else is as the sweep left it.
pub proof fn a_request_marks_its_session(
    m: PlacementModel,
    key: Seq<char>,
    text: Option<Seq<char>>,
    healthy: Seq<Seq<char>>,
    now: nat,
    other: Seq<char>,
    worker: Seq<char>,
)
    ensures
        ({
            let before = m.swept(now);
            let after = m.placed(key, text, healthy, now);
            &&& after.idle == before.idle
            &&& after.last_sweep == before.last_sweep
            &&& after.workers.contains(worker) <==> before.workers.contains(worker) || worker
                == m.placed_on(key, healthy, now)
            &&& after.sessions.contains_key(key)
            &&& after.sessions[key].worker == m.placed_on(key, healthy, now)
            &&& after.sessions[key].last_seen == now
            &&& after.sessions[key].counted
            &&& before.sessions.contains_key(key) ==> after.sessions[key].inflight
                == before.sessions[key].inflight
            &&& !before.sessions.contains_key(key) ==> after.sessions[key].inflight == 0
            &&& after.sessions[key].released <==> {
                &&& before.sessions.contains_key(key)
                &&& before.sessions[key].released
                &&& before.sessions[key].inflight > 0
                &&& exists|i: int|
                    0 <= i < healthy.len() && #[trigger] healthy[i] == before.sessions[key].worker
            }
            &&& other != key ==> {
                &&& after.sessions.contains_key(other) <==> before.sessions.contains_key(other)
                &&& before.sessions.contains_key(other) ==> after.sessions[other]
                    == before.sessions[other]
            }
        }),
{
    let before = m.swept(now);
    if before.sessions.contains_key(key) {
        assert(healthy.contains(before.sessions[key].worker) <==> exists|i: int|
            0 <= i < healthy.len() && #[trigger] healthy[i] == before.sessions[key].worker);
    }
}

/// The context length after a request is the number of token ids that it lists.
/// Where it lists none, it is the larger of what the session had and a quarter
/// of the text's bytes, rounded down.
pub proof fn the_context_is_counted_or_estimated(
    m: PlacementModel,
    key: Seq<char>,
    text: Option<Seq<char>>,
    healthy: Seq<Seq<char>>,
    now: nat,
)
    ensures
        ({
            let before = m.swept(now).sessions;
            let tokens = m.placed(key, text, healthy, now).sessions[key].tokens;
            let had = if before.contains_key(key) {
                before[key].tokens
            } else {
                0
            };
            let bytes = if text is Some {
                encode_utf8(text->0).len()
            } else {
                0
            };
            match prompt_tokens(text) {
                Some(n) => tokens == n,
                None => {
                    &&& tokens >= had
                    &&& bytes < 4 * tokens + 4
                    &&& tokens > had ==> 4 * tokens <= bytes
                },
            }
        }),
{
}

/// A lease puts one more request of its session in flight, the first one too.
/// The session counts and was last seen now; nothing else changes.
pub proof fn a_lease_puts_one_more_in_flight(
    m: PlacementModel,
    key: Seq<char>,
    now: nat,
    other: Seq<char>,
    worker: Seq<char>,
)
    requires
        m.sessions.contains_key(key),
    ensures
        ({
            let before = m.sessions[key];
            let after = m.leased(key, now);
            &&& after.idle == m.idle
            &&& after.last_sweep == m.last_sweep
            &&& after.workers.contains(worker) <==> m.workers.contains(worker) || worker
                == before.worker
            &&& after.sessions.contains_key(key)
            &&& after.sessions[key].inflight == before.inflight + 1
            &&& after.sessions[key].counted
            &&& after.sessions[key].last_seen == now
            &&& after.sessions[key].worker == before.worker
            &&& after.sessions[key].tokens == before.tokens
            &&& after.sessions[key].released == before.released
            &&& other != key ==> {
                &&& after.sessions.contains_key(other) <==> m.sessions.contains_key(other)
                &&& m.sessions.contains_key(other) ==> after.sessions[other] == m.sessions[other]
            }
        }),
{
}

/// After a lease, the session survives every sweep, counted and with its
/// context, whenever that is made.
pub proof fn a_leased_session_survives_every_sweep(
    m: PlacementModel,
    key: Seq<char>,
    leased: nat,
    now: nat,
)
    requires
        m.sessions.contains_key(key),
    ensures
        m.leased(key, leased).swept(now).sessions.contains_key(key),
        m.leased(key, leased).swept(now).sessions[key].counted,
        m.leased(key, leased).swept(now).sessions[key].worker == m.sessions[key].worker,
        m.leased(key, leased).swept(now).sessions[key].tokens == m.sessions[key].tokens,
{
}

/// A settle takes one request out of flight, if one is, and the session was last
/// seen now; nothing else changes. Without a session, nothing does.
pub proof fn a_settle_takes_one_out_of_flight(
    m: PlacementModel,
    key: Seq<char>,
    now: nat,
    other: Seq<char>,
)
    ensures
        ({
            let before = m.sessions[key];
            let after = m.settled(key, now);
            &&& after.idle == m.idle
            &&& after.last_sweep == m.last_sweep
            &&& after.workers == m.workers
            &&& after.sessions.contains_key(key) <==> m.sessions.contains_key(key)
            &&& m.sessions.contains_key(key) ==> {
                &&& before.inflight > 0 ==> after.sessions[key].inflight + 1 == before.inflight
                &&& before.inflight == 0 ==> after.sessions[key].inflight == 0
                &&& after.sessions[key].last_seen == now
                &&& after.sessions[key].counted == before.counted
                &&& after.sessions[key].worker == before.worker
                &&& after.sessions[key].tokens == before.tokens
                &&& after.sessions[key].released == before.released
            }
            &&& other != key ==> {
                &&& after.sessions.contains_key(other) <==> m.sessions.contains_key(other)
                &&& m.sessions.contains_key(other) ==> after.sessions[other] == m.sessions[other]
            }
        }),
{
}

/// A release sets the mark of every session and changes nothing else.
pub proof fn a_release_only_sets_the_mark(m: PlacementModel, key: Seq<char>)
    ensures
        m.released().idle == m.idle,
        m.released().last_sweep == m.last_sweep,
        m.released().workers == m.workers,
        m.released().sessions.contains_key(key) <==> m.sessions.contains_key(key),
        m.sessions.contains_key(key) ==> {
            let before = m.sessions[key];
            let after = m.released().sessions[key];
            &&& after.released
            &&& after.worker == before.worker
            &&& after.tokens == before.tokens
            &&& after.last_seen == before.last_seen
            &&& after.counted == before.counted
            &&& after.inflight == before.inflight
        },
{
}

/// A release takes no load off any worker, neither at once nor at the sweeps that
/// follow: a session counts for as long as it would have without it.
pub proof fn a_release_spares_the_loads(m: PlacementModel, now: nat, w: Seq<char>)
    ensures
        load_of(m.released().sessions, w).tokens == load_of(m.sessions, w).tokens,
        load_of(m.released().sessions, w).sessions == load_of(m.sessions, w).sessions,
        load_of(m.released().swept(now).sessions, w).tokens == load_of(
            m.swept(now).sessions,
            w,
        ).tokens,
        load_of(m.released().swept(now).sessions, w).sessions == load_of(
            m.swept(now).sessions,
            w,
        ).sessions,
{
    let tokens = |s: SessionModel| s.tokens_on(w);
    let sessions = |s: SessionModel| s.sessions_on(w);
    let (a, b) = (m.sessions, m.released().sessions);
    assert(a.dom() =~= b.dom());
    total_of_same(a, b, tokens);
    total_of_same(a, b, sessions);
    let (a, b) = (m.swept(now).sessions, m.released().swept(now).sessions);
    assert(a.dom() =~= b.dom());
    total_of_same(a, b, tokens);
    total_of_same(a, b, sessions);
}

/// A placement starts without sessions and without workers, its clock at zero.
pub proof fn a_placement_starts_empty(idle: nat, key: Seq<char>)
    ensures
        PlacementModel::empty(idle).idle == idle,
        PlacementModel::empty(idle).last_sweep == 0,
        !PlacementModel::empty(idle).sessions.contains_key(key),
        !PlacementModel::empty(idle).workers.contains(key),
{
}

/// When a request is refused, and why: four idle periods are longer than a
/// duration can be and a sweep is due; or else there is no healthy worker; or
/// else the worker's tokens would not fit in 64 bits. In all other cases it is
/// placed.
pub proof fn a_request_is_refused_only_for_cause(
    m: PlacementModel,
    key: Seq<char>,
    text: Option<Seq<char>>,
    healthy: Seq<Seq<char>>,
    now: nat,
)
    ensures
        ({
            let too_long = now >= m.last_sweep + 1_000_000_000 && 4 * m.idle
                > 18_446_744_073_709_551_615_999_999_999;
            let w = m.placed_on(key, healthy, now);
            let too_many = load_of(m.swept(now).sessions.remove(key), w).tokens + m.placed(
                key,
                text,
                healthy,
                now,
            ).sessions[key].tokens > 0xffff_ffff_ffff_ffff;
            match m.place_error(key, text, healthy, now) {
                Some(PlacementError::RetentionOverflow) => too_long,
                Some(PlacementError::NoHealthyWorker) => !too_long && healthy.len() == 0,
                Some(PlacementError::TokensOverflow) => !too_long && healthy.len() > 0 && too_many,
                Some(PlacementError::LeasesOverflow) => false,
                None => !too_long && healthy.len() > 0 && !too_many,
            }
        }),
        m.place_error(key, text, healthy, now) is None ==> m.placeable(key, text, healthy, now),
        m.placeable(key, text, healthy, now) && m.placed(
            key,
            text,
            healthy,
            now,
        ).sessions[key].tokens <= 0xffff_ffff_ffff_ffff ==> m.place_error(
            key,
            text,
            healthy,
            now,
        ) is None,
{
}

/// When a lease is refused, and why: the session has as many requests in flight
/// as 32 bits hold; or else it does not count and its tokens no longer fit on
/// its worker.
pub proof fn a_lease_is_refused_only_for_cause(m: PlacementModel, key: Seq<char>)
    ensures
        ({
            let s = m.sessions[key];
            let full = m.sessions.contains_key(key) && s.inflight >= 0xffff_ffff;
            let too_many = m.sessions.contains_key(key) && !s.counted && load_of(
                m.sessions,
                s.worker,
            ).tokens + s.tokens > 0xffff_ffff_ffff_ffff;
            match m.lease_error(key) {
                Some(PlacementError::LeasesOverflow) => full,
                Some(PlacementError::TokensOverflow) => !full && too_many,
                Some(_) => false,
                None => !full && !too_many,
            }
        }),
{
}

/// A request that is placed is answered with its worker and recorded. One that
/// is refused is answered with the cause; only the sweep was made then, if that.
pub proof fn a_request_is_answered(
    m: PlacementModel,
    key: Seq<char>,
    text: Option<Seq<char>>,
    healthy: Seq<Seq<char>>,
    now: Instant,
    r: Result<String, PlacementError>,
    after: PlacementModel,
)
    requires
        place_outcome(m, key, text, healthy, now, r, after),
    ensures
        r is Ok <==> m.place_error(key, text, healthy, now@) is None,
        r is Ok ==> r->Ok_0@ == m.placed_on(key, healthy, now@) && after == m.placed(
            key,
            text,
            healthy,
            now@,
        ),
        r is Err ==> m.place_error(key, text, healthy, now@) == Some(r->Err_0),
        r is Err ==> after == m || after == m.swept(now@),
{
}

/// A lease is answered with the session's key where there is a session, and
/// with nothing where there is none. One that is refused changes nothing.
pub proof fn a_lease_is_answered(
    m: PlacementModel,
    key: Seq<char>,
    now: Instant,
    r: Result<Option<SessionLease>, PlacementError>,
    after: PlacementModel,
)
    requires
        lease_outcome(m, key, now, r, after),
    ensures
        r is Ok <==> m.lease_error(key) is None,
        r is Ok ==> (r->Ok_0 is Some <==> m.sessions.contains_key(key)),
        r is Ok && r->Ok_0 is Some ==> r->Ok_0->0@ == key && after == m.leased(key, now@),
        r is Ok && r->Ok_0 is None ==> after == m,
        r is Err ==> m.lease_error(key) == Some(r->Err_0) && after == m,
{
}

/// The time between two moments is their difference; backwards, it is none.
pub proof fn time_is_the_plain_difference(earlier: nat, later: nat)
    ensures
        later >= earlier ==> time_since(later, earlier) + earlier == later,
        later <= earlier ==> time_since(later, earlier) == 0,
{
}

/// Moments and lengths of time are counted in nanoseconds.
pub proof fn time_is_counted_in_nanoseconds(i: Instant, d: Duration)
    ensures
        i@ == i.nanos,
        d@ == d.nanos,
{
}

/// The numbers that the rules are made of.
pub proof fn the_rules_have_these_numbers()
    ensures
        NANOS_PER_SEC == 1_000_000_000,
        SWEEP_INTERVAL == 1_000_000_000,
        RETAIN_IDLE_PERIODS == 4,
        MAX_DURATION_NANOS == 0xffff_ffff_ffff_ffff * 1_000_000_000 + 999_999_999,
{
}

/// Workers are named by their texts, in the order in which they are listed, and
/// a request's text is taken as it stands.
pub proof fn texts_are_taken_as_they_stand(workers: Seq<&str>, i: int, text: &str)
    requires
        0 <= i < workers.len(),
    ensures
        names(workers).len() == workers.len(),
        names(workers)[i] == workers[i]@,
        text_of(Some(text)) == Some(text@),
        text_of(None) is None,
{
}

} // verus!

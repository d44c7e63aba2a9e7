//! The sessions and the loads that a placement keeps in step.

use crate::keyed::KeyMap;
use crate::model::is_lightest;
use crate::model::lightest;
use crate::model::lightest_is_unique;
use crate::model::load_of;
use crate::model::load_of_unused;
use crate::model::load_sessions_bounded;
use crate::model::load_with;
use crate::model::names;
use crate::model::LoadModel;
use crate::model::PlacementModel;
use crate::model::SessionModel;
use crate::model::Sessions;
use crate::model::RETAIN_IDLE_PERIODS;
use crate::model::SWEEP_INTERVAL;
use crate::time::Duration;
use crate::time::Instant;
use crate::time::MAX_DURATION_NANOS;
use vstd::prelude::*;

verus! {

/// A session, as it is stored.
#[derive(Debug)]
pub struct Session {
    pub worker: String,
    pub tokens: u64,
    /// Last placement, lease or settle; idle time only runs while `inflight`
    /// is zero.
    pub last_seen: Instant,
    pub counted: bool,
    pub inflight: u32,
    /// Set by a release: place anew on the next request made while idle.
    pub released: bool,
}

impl View for Session {
    type V = SessionModel;

    open spec fn view(&self) -> SessionModel {
        SessionModel {
            worker: self.worker@,
            tokens: self.tokens as nat,
            last_seen: self.last_seen@,
            counted: self.counted,
            inflight: self.inflight as nat,
            released: self.released,
        }
    }
}

impl Session {
    /// A session with the same fields.
    pub fn copy(&self) -> (r: Session)
        ensures
            r@ == self@,
    {
        Session {
            worker: self.worker.clone(),
            tokens: self.tokens,
            last_seen: self.last_seen,
            counted: self.counted,
            inflight: self.inflight,
            released: self.released,
        }
    }
}

/// What a worker carries. Ordered by tokens first, then by session count as the tie-break.
#[derive(Debug, Clone, Copy)]
pub struct Load {
    pub tokens: u64,
    pub sessions: u64,
}

impl View for Load {
    type V = LoadModel;

    open spec fn view(&self) -> LoadModel {
        LoadModel { tokens: self.tokens as nat, sessions: self.sessions as nat }
    }
}

impl Load {
    /// Fewer tokens, or as many tokens and fewer sessions.
    pub fn lighter_than(&self, other: &Load) -> (r: bool)
        ensures
            r == self@.lighter_than(other@),
            r ==> self.tokens <= other.tokens,
            !r ==> other.tokens <= self.tokens,
            self.tokens == other.tokens ==> r == (self.sessions < other.sessions),
    {
        self.tokens < other.tokens || (self.tokens == other.tokens && self.sessions
            < other.sessions)
    }
}

/// What a placement remembers.
pub struct State {
    pub sessions: KeyMap<Session>,
    pub loads: KeyMap<Load>,
    pub last_sweep: Instant,
}

impl State {
    /// The sessions, by key.
    pub open spec fn model(&self) -> Sessions {
        self.sessions@.map_values(|s: Session| s@)
    }

    /// The load of a worker is that of its counted sessions, for every worker
    /// on which a session was ever counted.
    #[verifier::opaque]
    pub open spec fn loads_agree(&self) -> bool {
        &&& forall|w: Seq<char>| #[trigger]
            self.loads@.contains_key(w) ==> self.loads@[w]@ == load_of(self.model(), w)
        &&& forall|key: Seq<char>| #[trigger]
            self.model().contains_key(key) && self.model()[key].counted
                ==> self.loads@.contains_key(self.model()[key].worker)
    }

    /// Both maps are in order, and the loads agree with the sessions.
    pub open spec fn wf(&self) -> bool {
        &&& self.sessions.wf()
        &&& self.loads.wf()
        &&& self.sessions@.dom().finite()
        &&& self.sessions@.dom().len() <= usize::MAX
        &&& self.loads_agree()
    }

    /// The state of a placement with this idle period.
    pub open spec fn placement(&self, idle: nat) -> PlacementModel {
        PlacementModel {
            idle,
            sessions: self.model(),
            workers: self.loads@.dom(),
            last_sweep: self.last_sweep@,
        }
    }

    /// The load to which a session is counted fits in 64 bits.
    pub proof fn counted_load_fits(&self, key: Seq<char>)
        requires
            self.wf(),
            self.model().contains_key(key),
            self.model()[key].counted,
        ensures
            self.loads@.contains_key(self.model()[key].worker),
            load_of(self.model(), self.model()[key].worker).tokens <= u64::MAX,
    {
        reveal(State::loads_agree);
    }

    /// No sessions, and no loads.
    pub fn new(now: Instant) -> (r: State)
        ensures
            r.wf(),
            forall|idle: nat| #[trigger]
                r.placement(idle) == (PlacementModel {
                    last_sweep: now@,
                    ..PlacementModel::empty(idle)
                }),
    {
        reveal(State::loads_agree);
        let r = State { sessions: KeyMap::new(), loads: KeyMap::new(), last_sweep: now };
        assert(r.model() =~= Map::empty());
        assert(r.loads@.dom() =~= Set::empty());
        r
    }

    /// The load of a worker, none if no session was ever counted on it.
    pub fn load(&self, worker: &str) -> (r: Load)
        requires
            self.wf(),
        ensures
            r@ == load_of(self.model(), worker@),
    {
        reveal(State::loads_agree);
        match self.loads.get(worker) {
            Some(load) => *load,
            None => {
                proof {
                    assert forall|key: Seq<char>| #[trigger]
                        self.model().contains_key(
                            key,
                        ) implies !self.model()[key].counts_on(worker@) by {}
                    load_of_unused(self.model(), worker@);
                }
                Load { tokens: 0, sessions: 0 }
            },
        }
    }

    /// Replaces the session of `key` by one that counts no differently, or
    /// gives `key` a session that does not count.
    pub fn put(&mut self, key: &str, session: Session)
        requires
            old(self).wf(),
            if old(self).model().contains_key(key@) {
                &&& old(self).model()[key@].counted == session.counted
                &&& session.counted ==> {
                    &&& old(self).model()[key@].worker == session.worker@
                    &&& old(self).model()[key@].tokens == session.tokens
                }
            } else {
                !session.counted
            },
        ensures
            final(self).wf(),
            final(self).model() == old(self).model().insert(key@, session@),
            final(self).loads@ == old(self).loads@,
            final(self).last_sweep == old(self).last_sweep,
            old(self).model().contains_key(key@) ==> final(self).sessions.order() == old(
                self,
            ).sessions.order(),
    {
        reveal(State::loads_agree);
        let ghost before = self.model();
        let ghost s = session@;
        assert(before.dom() =~= self.sessions@.dom());
        self.sessions.insert(key, session);
        proof {
            assert(self.model() =~= before.insert(key@, s));
            self.sessions.order().unique_seq_to_set();
            assert forall|w: Seq<char>| #[trigger]
                self.loads@.contains_key(w) implies self.loads@[w]@ == load_of(self.model(), w) by {
                load_with(before, key@, s, w);
                if before.contains_key(key@) {
                    load_with(before, key@, before[key@], w);
                    assert(before.insert(key@, before[key@]) =~= before);
                } else {
                    assert(before.remove(key@) =~= before);
                }
            }
            assert forall|k: Seq<char>| #[trigger]
                self.model().contains_key(k)
                    && self.model()[k].counted implies self.loads@.contains_key(
                self.model()[k].worker,
            ) by {
                if k != key@ {
                    assert(before.contains_key(k));
                }
            }
        }
    }

    /// Makes the session of `key`, if there is one, count toward its worker's
    /// load, or no longer count.
    pub fn set_counted(&mut self, key: &str, counted: bool)
        requires
            old(self).wf(),
            counted && old(self).model().contains_key(key@) && !old(self).model()[key@].counted
                ==> load_of(old(self).model(), old(self).model()[key@].worker).tokens + old(
                self,
            ).model()[key@].tokens <= u64::MAX,
        ensures
            final(self).wf(),
            final(self).last_sweep == old(self).last_sweep,
            final(self).sessions.order() == old(self).sessions.order(),
            if old(self).model().contains_key(key@) {
                &&& final(self).model() == old(self).model().insert(
                    key@,
                    SessionModel { counted, ..old(self).model()[key@] },
                )
                &&& final(self).loads@.dom() == if counted {
                    old(self).loads@.dom().insert(old(self).model()[key@].worker)
                } else {
                    old(self).loads@.dom()
                }
            } else {
                final(self).model() == old(self).model() && final(self).loads@ == old(self).loads@
            },
    {
        reveal(State::loads_agree);
        let ghost before = self.model();
        let session: Session = match self.sessions.get(key) {
            Some(session) => session.copy(),
            None => return,
        };
        let ghost s = session@;
        assert(before.contains_key(key@) && before[key@] == s);
        if session.counted == counted {
            assert(before.insert(key@, s) =~= before);
            assert(counted ==> self.loads@.dom().insert(s.worker) =~= self.loads@.dom());
            return;
        }
        let load: Load = self.load(session.worker.as_str());
        let ghost after = before.insert(key@, SessionModel { counted, ..s });
        proof {
            assert(before.dom() =~= self.sessions@.dom());
            load_with(before, key@, s, s.worker);
            load_with(before, key@, SessionModel { counted, ..s }, s.worker);
            assert(before.insert(key@, s) =~= before);
            load_sessions_bounded(after, s.worker);
            assert(after.dom() =~= before.dom());
        }
        let load: Load = if counted {
            Load { tokens: load.tokens + session.tokens, sessions: load.sessions + 1 }
        } else {
            Load {
                tokens: load.tokens.saturating_sub(session.tokens),
                sessions: load.sessions.saturating_sub(1),
            }
        };
        let ghost old_loads = self.loads@;
        self.loads.insert(session.worker.as_str(), load);
        self.sessions.insert(key, Session { counted, ..session });
        proof {
            assert(self.model() =~= after);
            assert(self.sessions@.dom() =~= before.dom());
            assert forall|w: Seq<char>| #[trigger]
                self.loads@.contains_key(w) implies self.loads@[w]@ == load_of(self.model(), w) by {
                if w != s.worker {
                    assert(old_loads.contains_key(w));
                    load_with(before, key@, s, w);
                    load_with(before, key@, SessionModel { counted, ..s }, w);
                }
            }
            assert forall|k: Seq<char>| #[trigger]
                self.model().contains_key(k)
                    && self.model()[k].counted implies self.loads@.contains_key(
                self.model()[k].worker,
            ) by {
                if k != key@ {
                    assert(before.contains_key(k));
                }
            }
            if !counted {
                assert(old_loads.contains_key(s.worker));
                assert(self.loads@.dom() =~= old_loads.dom());
            }
        }
    }

    /// The worker of `healthy` with the lightest load, the earliest of those.
    pub fn least_loaded(&self, healthy: &[&str]) -> (r: String)
        requires
            self.wf(),
            healthy@.len() > 0,
        ensures
            r@ == lightest(self.model(), names(healthy@)),
    {
        let ghost workers = names(healthy@);
        let mut best: usize = 0;
        let mut best_load: Load = self.load(healthy[0]);
        let mut i: usize = 1;
        while i < healthy.len()
            invariant
                self.wf(),
                workers == names(healthy@),
                best < i <= healthy@.len(),
                best_load@ == load_of(self.model(), workers[best as int]),
                is_lightest(self.model(), workers.take(i as int), best as int),
            decreases healthy@.len() - i,
        {
            let load: Load = self.load(healthy[i]);
            assert(load@ == load_of(self.model(), workers[i as int]));
            let ghost seen = workers.take(i as int);
            let ghost more = workers.take(i + 1);
            assert(forall|j: int| 0 <= j < i ==> #[trigger] more[j] == seen[j]);
            assert(more[i as int] == workers[i as int]);
            if load.lighter_than(&best_load) {
                best = i;
                best_load = load;
            }
            i = i + 1;
        }
        assert(workers.take(i as int) =~= workers);
        proof {
            lightest_is_unique(self.model(), workers, best as int);
        }
        healthy[best].to_owned()
    }

    /// Takes the session at a place of the order, which does not count, out of
    /// the state. The last session moves to that place.
    fn forget(&mut self, i: usize)
        requires
            old(self).wf(),
            i < old(self).sessions.order().len(),
            !old(self).model()[old(self).sessions.order()[i as int]].counted,
        ensures
            final(self).wf(),
            final(self).model() == old(self).model().remove(old(self).sessions.order()[i as int]),
            final(self).loads@ == old(self).loads@,
            final(self).last_sweep == old(self).last_sweep,
            final(self).sessions.order() == old(self).sessions.order().update(
                i as int,
                old(self).sessions.order().last(),
            ).drop_last(),
    {
        reveal(State::loads_agree);
        let ghost before = self.model();
        let ghost key = self.sessions.order()[i as int];
        proof {
            assert(self.sessions.order().to_set().contains(key));
            assert(before.dom() =~= self.sessions@.dom());
        }
        self.sessions.swap_remove(i);
        proof {
            let after = before.remove(key);
            assert(self.model() =~= after);
            assert forall|w: Seq<char>| #[trigger]
                self.loads@.contains_key(w) implies self.loads@[w]@ == load_of(self.model(), w) by {
                load_with(before, key, before[key], w);
                assert(before.insert(key, before[key]) =~= before);
            }
            assert forall|k: Seq<char>| #[trigger]
                self.model().contains_key(k)
                    && self.model()[k].counted implies self.loads@.contains_key(
                self.model()[k].worker,
            ) by {
                assert(before.contains_key(k));
            }
        }
    }

    /// Looks for idle sessions, if the last sweep is long enough ago: those
    /// idle for longer than `idle` stop counting, and those idle for longer
    /// than four times that are forgotten.
    pub fn sweep(&mut self, idle: Duration, now: Instant)
        requires
            old(self).wf(),
            old(self).placement(idle@).sweep_due(now@) ==> idle@ * RETAIN_IDLE_PERIODS
                <= MAX_DURATION_NANOS,
        ensures
            final(self).wf(),
            final(self).placement(idle@) == old(self).placement(idle@).swept(now@),
    {
        let ghost start = self.placement(idle@);
        if now.saturating_duration_since(self.last_sweep).nanos < SWEEP_INTERVAL {
            return;
        }
        self.last_sweep = now;
        assert(self.wf()) by {
            reveal(State::loads_agree);
        }
        let retain: Duration = Duration { nanos: idle.nanos * RETAIN_IDLE_PERIODS };
        let mut i: usize = 0;
        while i < self.sessions.len()
            invariant
                self.wf(),
                self.last_sweep == now,
                self.loads@.dom() == start.workers,
                start.idle == idle@,
                retain@ == RETAIN_IDLE_PERIODS * idle@,
                i <= self.sessions.order().len(),
                forall|k: Seq<char>| #[trigger]
                    self.model().contains_key(k) ==> start.sessions.contains_key(k),
                forall|k: Seq<char>| #[trigger]
                    start.sessions.contains_key(k) && !self.model().contains_key(k)
                        ==> start.forgets(start.sessions[k], now@),
                forall|j: int|
                    0 <= j < i ==> {
                        let k = #[trigger] self.sessions.order()[j];
                        &&& !start.forgets(start.sessions[k], now@)
                        &&& self.model()[k] == start.after_sweep(start.sessions[k], now@)
                    },
                forall|j: int|
                    i <= j < self.sessions.order().len() ==> {
                        let k = #[trigger] self.sessions.order()[j];
                        self.model()[k] == start.sessions[k]
                    },
            decreases self.sessions.order().len() - i,
        {
            let ghost order = self.sessions.order();
            let ghost before = self.model();
            let ghost k = order[i as int];
            let key: String = self.sessions.key_at(i).to_owned();
            let (forget, expire) = match self.sessions.get(key.as_str()) {
                Some(session) => {
                    let age: Duration = now.saturating_duration_since(session.last_seen);
                    (
                        session.inflight == 0 && age.nanos > retain.nanos,
                        session.inflight == 0 && age.nanos > idle.nanos,
                    )
                },
                None => (false, false),
            };
            assert(before.contains_key(k) && before[k] == start.sessions[k]);
            assert(forget == start.forgets(start.sessions[k], now@));
            assert(expire == start.idle_beyond(start.sessions[k], 1, now@));
            if forget || expire {
                self.set_counted(key.as_str(), false);
                assert(self.loads@.dom() == start.workers);
            }
            assert(forall|j: int|
                0 <= j < order.len() && j != i ==> self.model()[#[trigger] order[j]]
                    == before[order[j]]);
            if forget {
                self.forget(i);
            } else {
                i = i + 1;
            }
        }
        proof {
            let after = self.placement(idle@);
            let swept = start.swept(now@);
            assert forall|k: Seq<char>| self.model().contains_key(k) implies {
                &&& #[trigger] swept.sessions.contains_key(k)
                &&& swept.sessions[k] == self.model()[k]
            } by {
                assert(self.sessions.order().to_set().contains(k));
            }
            assert(after.sessions =~= swept.sessions);
        }
    }

    /// Marks every session for a new placement, and says how many there are.
    pub fn release(&mut self) -> (r: usize)
        requires
            old(self).wf(),
        ensures
            final(self).wf(),
            forall|idle: nat| #[trigger]
                final(self).placement(idle) == old(self).placement(idle).released(),
            r == old(self).model().dom().len(),
    {
        let ghost before = self.model();
        let ghost order = self.sessions.order();
        assert(before.dom() =~= self.sessions@.dom());
        let n: usize = self.sessions.len();
        let mut i: usize = 0;
        while i < n
            invariant
                self.wf(),
                n == order.len(),
                self.sessions.order() == order,
                self.loads@ == old(self).loads@,
                self.last_sweep == old(self).last_sweep,
                i <= n,
                self.model().dom() == before.dom(),
                forall|j: int|
                    0 <= j < i ==> {
                        let k = #[trigger] order[j];
                        self.model()[k] == (SessionModel { released: true, ..before[k] })
                    },
                forall|j: int|
                    i <= j < n ==> {
                        let k = #[trigger] order[j];
                        self.model()[k] == before[k]
                    },
            decreases n - i,
        {
            let ghost at = self.model();
            let key: String = self.sessions.key_at(i).to_owned();
            let found: Option<&Session> = self.sessions.get(key.as_str());
            if let Some(session) = found {
                let mut session: Session = session.copy();
                session.released = true;
                self.put(key.as_str(), session);
            }
            assert(self.model().dom() =~= before.dom());
            i = i + 1;
        }
        proof {
            let released = before.map_values(|s: SessionModel| SessionModel { released: true, ..s });
            assert forall|k: Seq<char>| #[trigger] before.contains_key(k) implies self.model()[k]
                == released[k] by {
                assert(order.to_set().contains(k));
            }
            assert(self.model() =~= released);
        }
        n
    }
}

} // verus!

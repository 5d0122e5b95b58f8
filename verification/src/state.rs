//! The daemon's state: every configured connection, kept by name in name
//! order, and the operations the daemon's requests and its periodic tick
//! perform on them.
use vstd::prelude::*;

use crate::config::{unique_names, ConfigFile, ConnectionConfigView};
use crate::connection::{
    after_probe, after_spawn, fresh, managed_wf, may_start, reset, state_of, status_of, suppressed,
    tick_due,
    ManagedConnection, ManagedView, ProcessProbe, SpawnOutcome,
};
use crate::ipc::{
    aggregate_health, aggregate_of, states_of, status_views, ConnectionState, ConnectionStatus,
    ServiceSnapshot,
};
use crate::text::{
    is_blank, is_blank_str, lemma_lex_irreflexive, lemma_lex_total, lemma_lex_transitive, lex_lt,
    str_eq, str_less, views,
};

verus! {

// ---------------------------------------------------------------------------
// Name-ordered sequences of connections
// ---------------------------------------------------------------------------

/// The name of a connection.
pub open spec fn key(m: ManagedView) -> Seq<char> {
    m.config.name
}

/// Names strictly increase along `s`: no name twice, in `str` order.
pub open spec fn sorted_by_name(s: Seq<ManagedView>) -> bool {
    forall|i: int, j: int| 0 <= i < j < s.len() ==> lex_lt(#[trigger] key(s[i]), #[trigger] key(s[j]))
}

/// Some entry of `s` is named `k`.
pub open spec fn has_key(s: Seq<ManagedView>, k: Seq<char>) -> bool {
    exists|i: int| 0 <= i < s.len() && #[trigger] key(s[i]) == k
}

/// The index of the entry named `k` (meaningful when there is one).
pub open spec fn index_of(s: Seq<ManagedView>, k: Seq<char>) -> int {
    choose|i: int| 0 <= i < s.len() && #[trigger] key(s[i]) == k
}

/// The map from names to connections that `s` holds.
pub open spec fn map_of(s: Seq<ManagedView>) -> Map<Seq<char>, ManagedView> {
    Map::new(|k: Seq<char>| has_key(s, k), |k: Seq<char>| s[index_of(s, k)])
}

/// Distinct positions of a name-ordered sequence hold distinct names.
pub proof fn lemma_sorted_unique(s: Seq<ManagedView>, i: int, j: int)
    requires
        sorted_by_name(s),
        0 <= i < s.len(),
        0 <= j < s.len(),
        i != j,
    ensures
        key(s[i]) != key(s[j]),
{
    if i < j {
        assert(lex_lt(key(s[i]), key(s[j])));
        lemma_lex_irreflexive(key(s[i]));
    } else {
        assert(lex_lt(key(s[j]), key(s[i])));
        lemma_lex_irreflexive(key(s[j]));
    }
}

/// In a name-ordered sequence, the map holds each entry under its name.
pub proof fn lemma_map_of_index(s: Seq<ManagedView>, i: int)
    requires
        sorted_by_name(s),
        0 <= i < s.len(),
    ensures
        map_of(s).contains_key(key(s[i])),
        map_of(s)[key(s[i])] == s[i],
        index_of(s, key(s[i])) == i,
{
    assert(has_key(s, key(s[i])));
    let j = index_of(s, key(s[i]));
    if j != i {
        lemma_sorted_unique(s, i, j);
    }
}

// ---------------------------------------------------------------------------
// The state
// ---------------------------------------------------------------------------

/// Why a request about a connection cannot be served.
#[derive(Debug)]
pub enum StateError {
    UnknownConnection { name: String },
    NameRequired { action: String },
}

/// The mathematical value of a [`StateError`].
pub enum StateErrorView {
    UnknownConnection(Seq<char>),
    NameRequired(Seq<char>),
}

impl View for StateError {
    type V = StateErrorView;

    open spec fn view(&self) -> StateErrorView {
        match self {
            StateError::UnknownConnection { name } => StateErrorView::UnknownConnection(name@),
            StateError::NameRequired { action } => StateErrorView::NameRequired(action@),
        }
    }
}

/// The text with which a state error is reported.
pub open spec fn state_error_message(e: StateErrorView) -> Seq<char> {
    match e {
        StateErrorView::UnknownConnection(name) => "unknown connection: "@ + name,
        StateErrorView::NameRequired(action) => action + " requires a connection name"@,
    }
}

impl StateError {
    /// The text with which this error is reported.
    pub fn message(&self) -> (res: String)
        ensures
            res@ == state_error_message(self@),
    {
        match self {
            StateError::UnknownConnection { name } => {
                let mut s = String::from_str("unknown connection: ");
                s.append(name.as_str());
                s
            },
            StateError::NameRequired { action } => {
                let mut s = action.clone();
                s.append(" requires a connection name");
                s
            },
        }
    }
}

/// The name a request needs: present and not blank.
pub fn require_name(name: Option<String>, action: &str) -> (res: Result<String, StateError>)
    ensures
        match name {
            Some(n) if !is_blank(n@) => res matches Ok(r) && r@ == n@,
            _ => res matches Err(e) && e@ == StateErrorView::NameRequired(action@),
        },
{
    match name {
        Some(n) => {
            if !is_blank_str(n.as_str()) {
                Ok(n)
            } else {
                Err(StateError::NameRequired { action: String::from_str(action) })
            }
        },
        None => Err(StateError::NameRequired { action: String::from_str(action) }),
    }
}

/// The daemon's connections, kept in name order.
pub struct AppState {
    connections: Vec<ManagedConnection>,
}

/// The views of a sequence of connections.
pub open spec fn managed_views(s: Seq<ManagedConnection>) -> Seq<ManagedView> {
    s.map_values(|m: ManagedConnection| m@)
}

/// The connections that a configuration describes, before anything is
/// started: each name holds a fresh connection for the last entry with that
/// name.
pub open spec fn config_map(cs: Seq<ConnectionConfigView>) -> Map<Seq<char>, ManagedView>
    decreases cs.len(),
{
    if cs.len() == 0 {
        Map::empty()
    } else {
        config_map(cs.drop_last()).insert(cs.last().name, fresh(cs.last()))
    }
}

impl AppState {
    /// The connections, in name order.
    pub closed spec fn entries(&self) -> Seq<ManagedView> {
        managed_views(self.connections@)
    }

    /// The connections, by name.
    pub open spec fn view(&self) -> Map<Seq<char>, ManagedView> {
        map_of(self.entries())
    }

    /// Entries are in strict name order and each is well formed.
    pub open spec fn wf(&self) -> bool {
        &&& sorted_by_name(self.entries())
        &&& forall|i: int| 0 <= i < self.entries().len() ==> managed_wf(#[trigger] self.entries()[i])
    }

    /// An empty state.
    pub fn empty() -> (res: Self)
        ensures
            res.wf(),
            res.entries().len() == 0,
            res.view() == Map::<Seq<char>, ManagedView>::empty(),
    {
        let res = AppState { connections: Vec::new() };
        assert(res.entries() =~= Seq::<ManagedView>::empty());
        assert(res.view() =~= Map::<Seq<char>, ManagedView>::empty());
        res
    }

    /// The position of the connection named `name`.
    fn find(&self, name: &str) -> (res: Option<usize>)
        requires
            self.wf(),
        ensures
            match res {
                Some(i) => i < self.entries().len() && key(self.entries()[i as int]) == name@,
                None => !has_key(self.entries(), name@),
            },
    {
        let mut i: usize = 0;
        while i < self.connections.len()
            invariant
                0 <= i <= self.connections.len(),
                forall|j: int| 0 <= j < i ==> key(#[trigger] self.entries()[j]) != name@,
            decreases self.connections.len() - i,
        {
            if str_eq(self.connections[i].config.name.as_str(), name) {
                return Some(i);
            }
            i = i + 1;
        }
        None
    }

    /// The connection named `name`.
    pub fn get(&self, name: &str) -> (res: Option<&ManagedConnection>)
        requires
            self.wf(),
        ensures
            match res {
                Some(m) => self.view().contains_key(name@) && m@ == self.view()[name@] && m.wf(),
                None => !self.view().contains_key(name@),
            },
    {
        match self.find(name) {
            Some(i) => {
                proof {
                    lemma_map_of_index(self.entries(), i as int);
                }
                Some(&self.connections[i])
            },
            None => None,
        }
    }

    /// The names of the connections, in order.
    pub fn names(&self) -> (res: Vec<String>)
        ensures
            views(res@) == self.entries().map_values(|m: ManagedView| key(m)),
    {
        let mut out: Vec<String> = Vec::new();
        let mut i: usize = 0;
        while i < self.connections.len()
            invariant
                0 <= i <= self.connections.len(),
                views(out@) == self.entries().take(i as int).map_values(|m: ManagedView| key(m)),
            decreases self.connections.len() - i,
        {
            let ghost before = out@;
            out.push(self.connections[i].config.name.clone());
            proof {
                assert(views(out@) =~= views(before).push(self.connections@[i as int].config.name@));
                assert(self.entries()[i as int] == self.connections@[i as int]@);
                assert(self.entries().take(i as int + 1) =~= self.entries().take(i as int).push(
                    self.entries()[i as int],
                ));
                assert(views(out@) =~= self.entries().take(i as int + 1).map_values(
                    |m: ManagedView| key(m),
                ));
            }
            i = i + 1;
        }
        assert(self.entries().take(i as int) =~= self.entries());
        out
    }

    /// Puts `m` under its name, returning the connection it replaces.
    fn insert(&mut self, m: ManagedConnection) -> (replaced: Option<ManagedConnection>)
        requires
            old(self).wf(),
            m.wf(),
        ensures
            final(self).wf(),
            final(self).view() == old(self).view().insert(key(m@), m@),
            match replaced {
                Some(r) => old(self).view().contains_key(key(m@)) && r@ == old(self).view()[key(
                    m@,
                )] && r.wf(),
                None => !old(self).view().contains_key(key(m@)),
            },
    {
        let ghost s = self.entries();
        let ghost k = key(m@);
        let mut i: usize = 0;
        while i < self.connections.len() && str_less(
            self.connections[i].config.name.as_str(),
            m.config.name.as_str(),
        )
            invariant
                s == self.entries(),
                k == key(m@),
                0 <= i <= self.connections.len(),
                forall|j: int| 0 <= j < i ==> lex_lt(key(#[trigger] s[j]), k),
            decreases self.connections.len() - i,
        {
            i = i + 1;
        }
        if i < self.connections.len() && str_eq(
            self.connections[i].config.name.as_str(),
            m.config.name.as_str(),
        ) {
            let replaced = self.connections.remove(i);
            assert(replaced@ == s[i as int]);
            self.connections.insert(i, m);
            proof {
                let s2 = self.entries();
                assert(s2 =~= s.update(i as int, m@));
                assert forall|a: int, b: int| 0 <= a < b < s2.len() implies lex_lt(
                    #[trigger] key(s2[a]),
                    #[trigger] key(s2[b]),
                ) by {
                    assert(lex_lt(key(s[a]), key(s[b])));
                }
                lemma_map_of_index(s, i as int);
                assert forall|q: Seq<char>| #[trigger]
                    map_of(s2).contains_key(q) == map_of(s).insert(k, m@).contains_key(q) by {
                    if has_key(s, q) {
                        let j = index_of(s, q);
                        assert(key(s2[j]) == q);
                    }
                    if has_key(s2, q) {
                        let j = index_of(s2, q);
                        if j != i {
                            assert(key(s[j]) == q);
                        }
                    }
                }
                assert forall|q: Seq<char>| #[trigger] map_of(s2).contains_key(q) implies map_of(
                    s2,
                )[q] == map_of(s).insert(k, m@)[q] by {
                    let j = index_of(s2, q);
                    lemma_map_of_index(s2, j);
                    if j != i {
                        lemma_map_of_index(s, j);
                    }
                }
                assert(map_of(s2) =~= map_of(s).insert(k, m@));
            }
            Some(replaced)
        } else {
            proof {
                if i < s.len() {
                    assert(!lex_lt(key(s[i as int]), k));
                    assert(key(s[i as int]) != k);
                    lemma_lex_total(key(s[i as int]), k);
                    assert(lex_lt(k, key(s[i as int])));
                }
                assert forall|j: int| 0 <= j < s.len() implies key(#[trigger] s[j]) != k by {
                    if j < i {
                        lemma_lex_irreflexive(k);
                    } else if j > i {
                        assert(lex_lt(key(s[i as int]), key(s[j])));
                        lemma_lex_transitive(k, key(s[i as int]), key(s[j]));
                        lemma_lex_irreflexive(k);
                    }
                }
            }
            self.connections.insert(i, m);
            proof {
                let s2 = self.entries();
                assert(s2 =~= s.insert(i as int, m@));
                assert forall|a: int, b: int| 0 <= a < b < s2.len() implies lex_lt(
                    #[trigger] key(s2[a]),
                    #[trigger] key(s2[b]),
                ) by {
                    if b < i {
                        assert(lex_lt(key(s[a]), key(s[b])));
                    } else if b == i {
                    } else if a < i {
                        assert(lex_lt(key(s[a]), k));
                        if b - 1 == i as int {
                            assert(lex_lt(k, key(s[b - 1])));
                        } else {
                            assert(lex_lt(key(s[i as int]), key(s[b - 1])));
                            lemma_lex_transitive(k, key(s[i as int]), key(s[b - 1]));
                        }
                        lemma_lex_transitive(key(s[a]), k, key(s[b - 1]));
                    } else if a == i {
                        if b - 1 != i as int {
                            assert(lex_lt(key(s[i as int]), key(s[b - 1])));
                            lemma_lex_transitive(k, key(s[i as int]), key(s[b - 1]));
                        }
                    } else {
                        assert(lex_lt(key(s[a - 1]), key(s[b - 1])));
                    }
                }
                assert forall|q: Seq<char>| #[trigger]
                    map_of(s2).contains_key(q) == map_of(s).insert(k, m@).contains_key(q) by {
                    if has_key(s, q) {
                        let j = index_of(s, q);
                        if j < i {
                            assert(key(s2[j]) == q);
                        } else {
                            assert(key(s2[j + 1]) == q);
                        }
                    }
                    if q == k {
                        assert(key(s2[i as int]) == q);
                    }
                    if has_key(s2, q) {
                        let j = index_of(s2, q);
                        if j < i {
                            assert(key(s[j]) == q);
                        } else if j > i {
                            assert(key(s[j - 1]) == q);
                        }
                    }
                }
                assert forall|q: Seq<char>| #[trigger] map_of(s2).contains_key(q) implies map_of(
                    s2,
                )[q] == map_of(s).insert(k, m@)[q] by {
                    let j = index_of(s2, q);
                    lemma_map_of_index(s2, j);
                    if j < i {
                        lemma_map_of_index(s, j);
                    } else if j > i {
                        lemma_map_of_index(s, j - 1);
                    }
                }
                assert(map_of(s2) =~= map_of(s).insert(k, m@));
                assert(!map_of(s).contains_key(k));
            }
            None
        }
    }

    /// Takes out the connection named `name`.
    fn remove(&mut self, name: &str) -> (removed: Option<ManagedConnection>)
        requires
            old(self).wf(),
        ensures
            final(self).wf(),
            final(self).view() == old(self).view().remove(name@),
            match removed {
                Some(r) => old(self).view().contains_key(name@) && r@ == old(self).view()[name@]
                    && r.wf(),
                None => !old(self).view().contains_key(name@),
            },
    {
        let ghost s = self.entries();
        match self.find(name) {
            None => {
                assert(map_of(s).remove(name@) =~= map_of(s));
                None
            },
            Some(i) => {
                let r = self.connections.remove(i);
                proof {
                    let s2 = self.entries();
                    let k = name@;
                    assert(s2 =~= s.remove(i as int));
                    assert forall|a: int, b: int| 0 <= a < b < s2.len() implies lex_lt(
                        #[trigger] key(s2[a]),
                        #[trigger] key(s2[b]),
                    ) by {
                        if b < i {
                            assert(lex_lt(key(s[a]), key(s[b])));
                        } else if a < i {
                            assert(lex_lt(key(s[a]), key(s[b + 1])));
                        } else {
                            assert(lex_lt(key(s[a + 1]), key(s[b + 1])));
                        }
                    }
                    lemma_map_of_index(s, i as int);
                    assert forall|q: Seq<char>| #[trigger]
                        map_of(s2).contains_key(q) == map_of(s).remove(k).contains_key(q) by {
                        if has_key(s, q) && q != k {
                            let j = index_of(s, q);
                            lemma_map_of_index(s, j);
                            if j < i {
                                assert(key(s2[j]) == q);
                            } else if j > i {
                                assert(key(s2[j - 1]) == q);
                            }
                        }
                        if has_key(s2, q) {
                            let j = index_of(s2, q);
                            if j < i {
                                assert(key(s[j]) == q);
                                lemma_sorted_unique(s, j, i as int);
                            } else {
                                assert(key(s[j + 1]) == q);
                                lemma_sorted_unique(s, j + 1, i as int);
                            }
                        }
                    }
                    assert forall|q: Seq<char>| #[trigger] map_of(s2).contains_key(q) implies map_of(
                        s2,
                    )[q] == map_of(s).remove(k)[q] by {
                        let j = index_of(s2, q);
                        lemma_map_of_index(s2, j);
                        if j < i {
                            lemma_map_of_index(s, j);
                        } else {
                            lemma_map_of_index(s, j + 1);
                        }
                    }
                    assert(map_of(s2) =~= map_of(s).remove(k));
                }
                Some(r)
            },
        }
    }
}


/// The connection named `k` after `f`, the rest unchanged; nothing changes
/// when there is no such connection.
pub open spec fn update_named(
    v: Map<Seq<char>, ManagedView>,
    k: Seq<char>,
    after: ManagedView,
) -> Map<Seq<char>, ManagedView> {
    if v.contains_key(k) {
        v.insert(k, after)
    } else {
        v
    }
}

/// The states of a sequence of connections.
pub open spec fn entry_states(s: Seq<ManagedView>) -> Seq<ConnectionState> {
    s.map_values(|m: ManagedView| state_of(m))
}

/// The connection is to be started on its own: it is configured to, and no
/// stop suppresses it and no process runs.
pub open spec fn wants_start(m: ManagedView) -> bool {
    m.config.auto_start && may_start(m)
}

/// The names, in order, of the connections along `s` that `wants` selects.
pub open spec fn names_where(s: Seq<ManagedView>, wants: spec_fn(ManagedView) -> bool) -> Seq<Seq<char>>
    decreases s.len(),
{
    if s.len() == 0 {
        seq![]
    } else {
        names_where(s.drop_last(), wants) + if wants(s.last()) {
            seq![key(s.last())]
        } else {
            seq![]
        }
    }
}

impl AppState {
    /// The state for a configuration, nothing started yet.
    pub fn new(config: ConfigFile) -> (res: AppState)
        ensures
            res.wf(),
            res.view() == config_map(config@),
    {
        let ghost cs = config@;
        let mut st = AppState::empty();
        let mut i: usize = 0;
        assert(cs.take(0) =~= Seq::<ConnectionConfigView>::empty());
        while i < config.connections.len()
            invariant
                cs == config@,
                0 <= i <= config.connections.len(),
                st.wf(),
                st.view() == config_map(cs.take(i as int)),
            decreases config.connections.len() - i,
        {
            let c = config.connections[i].clone();
            let m = ManagedConnection::new(c);
            let _ = st.insert(m);
            proof {
                assert(cs.take(i as int + 1).drop_last() =~= cs.take(i as int));
                assert(cs.take(i as int + 1).last() == cs[i as int]);
            }
            i = i + 1;
        }
        assert(cs.take(i as int) =~= cs);
        st
    }

    /// Replaces the connection named `k`, which the state holds, by `m`.
    fn put_back(&mut self, m: ManagedConnection)
        requires
            old(self).wf(),
            m.wf(),
        ensures
            final(self).wf(),
            final(self).view() == old(self).view().insert(key(m@), m@),
    {
        let _ = self.insert(m);
    }

    /// Records what came of starting the connection named `name` at `now`.
    pub fn record_spawn(&mut self, name: &str, outcome: SpawnOutcome, now: u64)
        requires
            old(self).wf(),
        ensures
            final(self).wf(),
            final(self).view() == update_named(
                old(self).view(),
                name@,
                after_spawn(old(self).view()[name@], outcome, now),
            ),
    {
        let ghost v = self.view();
        match self.remove(name) {
            Some(mut m) => {
                m.record_spawn(outcome, now);
                self.put_back(m);
                assert(v.remove(name@).insert(name@, after_spawn(v[name@], outcome, now)) =~= v.insert(
                    name@,
                    after_spawn(v[name@], outcome, now),
                ));
            },
            None => {},
        }
    }

    /// Applies a health check of the connection named `name` taken at `now`;
    /// returns the pid of a process to kill.
    pub fn refresh_runtime(&mut self, name: &str, probe: Option<ProcessProbe>, now: u64) -> (kill:
        Option<u32>)
        requires
            old(self).wf(),
            old(self).view().contains_key(name@) ==> ((old(self).view()[name@].process_id is Some)
                == (probe is Some)),
        ensures
            final(self).wf(),
            final(self).view() == update_named(
                old(self).view(),
                name@,
                after_probe(old(self).view()[name@], probe, now).0,
            ),
            kill == if old(self).view().contains_key(name@) {
                after_probe(old(self).view()[name@], probe, now).1
            } else {
                None
            },
    {
        let ghost v = self.view();
        match self.remove(name) {
            Some(mut m) => {
                let kill = m.refresh_runtime(probe, now);
                self.put_back(m);
                assert(v.remove(name@).insert(name@, after_probe(v[name@], probe, now).0)
                    =~= v.insert(name@, after_probe(v[name@], probe, now).0));
                kill
            },
            None => None,
        }
    }

    /// The status of every connection at `now`, in name order, with their
    /// aggregate health.
    pub fn snapshot(&self, now: u64) -> (res: ServiceSnapshot)
        requires
            self.wf(),
        ensures
            status_views(res.connections@) == self.entries().map_values(
                |m: ManagedView| status_of(m, now),
            ),
            res.aggregate_health == aggregate_of(entry_states(self.entries())),
    {
        let mut out: Vec<ConnectionStatus> = Vec::new();
        let mut i: usize = 0;
        while i < self.connections.len()
            invariant
                0 <= i <= self.connections.len(),
                status_views(out@) == self.entries().take(i as int).map_values(
                    |m: ManagedView| status_of(m, now),
                ),
                states_of(out@) == entry_states(self.entries().take(i as int)),
                self.wf(),
            decreases self.connections.len() - i,
        {
            let ghost before = out@;
            assert(self.entries()[i as int] == self.connections@[i as int]@);
            let st = self.connections[i].status(now);
            out.push(st);
            proof {
                assert(self.entries()[i as int] == self.connections@[i as int]@);
                assert(self.entries().take(i as int + 1) =~= self.entries().take(i as int).push(
                    self.entries()[i as int],
                ));
                assert(status_views(out@) =~= status_views(before).push(st@));
                assert(states_of(out@) =~= states_of(before).push(st.state));
                assert(status_views(out@) =~= self.entries().take(i as int + 1).map_values(
                    |m: ManagedView| status_of(m, now),
                ));
                assert(states_of(out@) =~= entry_states(self.entries().take(i as int + 1)));
            }
            i = i + 1;
        }
        assert(self.entries().take(i as int) =~= self.entries());
        let aggregate = aggregate_health(out.as_slice());
        ServiceSnapshot { connections: out, aggregate_health: aggregate }
    }

    /// The status at `now` of the connection named `name`.
    pub fn status(&self, name: &str, now: u64) -> (res: Option<ConnectionStatus>)
        requires
            self.wf(),
        ensures
            match res {
                Some(st) => self.view().contains_key(name@) && st@ == status_of(
                    self.view()[name@],
                    now,
                ),
                None => !self.view().contains_key(name@),
            },
    {
        match self.get(name) {
            Some(m) => Some(m.status(now)),
            None => None,
        }
    }

    /// Stops the connection named `name` and keeps it from restarting until
    /// a refresh; returns its status at `now` and the pid to kill.
    pub fn stop_connection(&mut self, name: &str, now: u64) -> (res: Result<
        (ConnectionStatus, Option<u32>),
        StateError,
    >)
        requires
            old(self).wf(),
        ensures
            final(self).wf(),
            match res {
                Ok((st, kill)) => {
                    &&& old(self).view().contains_key(name@)
                    &&& final(self).view() == old(self).view().insert(
                        name@,
                        suppressed(old(self).view()[name@]),
                    )
                    &&& st@ == status_of(suppressed(old(self).view()[name@]), now)
                    &&& kill == old(self).view()[name@].process_id
                },
                Err(e) => {
                    &&& !old(self).view().contains_key(name@)
                    &&& final(self).view() == old(self).view()
                    &&& e@ == StateErrorView::UnknownConnection(name@)
                },
            },
    {
        let ghost v = self.view();
        match self.remove(name) {
            Some(mut m) => {
                let kill = m.suppress();
                let st = m.status(now);
                self.put_back(m);
                assert(v.remove(name@).insert(name@, suppressed(v[name@])) =~= v.insert(
                    name@,
                    suppressed(v[name@]),
                ));
                Ok((st, kill))
            },
            None => {
                assert(v.remove(name@) =~= v);
                Err(StateError::UnknownConnection { name: String::from_str(name) })
            },
        }
    }

    /// The first part of a refresh of the connection named `name`: its
    /// process stopped, its suppression, pending retry and last error
    /// cleared, ready to be started again. Returns the pid to kill.
    pub fn refresh_connection(&mut self, name: &str) -> (res: Result<Option<u32>, StateError>)
        requires
            old(self).wf(),
        ensures
            final(self).wf(),
            match res {
                Ok(kill) => {
                    &&& old(self).view().contains_key(name@)
                    &&& final(self).view() == old(self).view().insert(
                        name@,
                        reset(old(self).view()[name@]),
                    )
                    &&& kill == old(self).view()[name@].process_id
                    &&& may_start(final(self).view()[name@])
                },
                Err(e) => {
                    &&& !old(self).view().contains_key(name@)
                    &&& final(self).view() == old(self).view()
                    &&& e@ == StateErrorView::UnknownConnection(name@)
                },
            },
    {
        let ghost v = self.view();
        match self.remove(name) {
            Some(mut m) => {
                let kill = m.reset();
                self.put_back(m);
                assert(v.remove(name@).insert(name@, reset(v[name@])) =~= v.insert(
                    name@,
                    reset(v[name@]),
                ));
                Ok(kill)
            },
            None => {
                assert(v.remove(name@) =~= v);
                Err(StateError::UnknownConnection { name: String::from_str(name) })
            },
        }
    }

    /// The connections to start when the daemon starts or a configuration
    /// is loaded, in name order: those that start on their own and are
    /// neither suppressed nor running.
    pub fn start_auto_connections(&self) -> (res: Vec<String>)
        ensures
            views(res@) == names_where(self.entries(), |m: ManagedView| wants_start(m)),
    {
        self.names_selected(Ghost(|m: ManagedView| wants_start(m)), None)
    }

    /// The connections that a periodic tick at `now` starts, in name order
    /// (the tick first checks every connection's health).
    pub fn tick(&self, now: u64) -> (res: Vec<String>)
        ensures
            views(res@) == names_where(self.entries(), |m: ManagedView| tick_due(m, now)),
    {
        self.names_selected(Ghost(|m: ManagedView| tick_due(m, now)), Some(now))
    }

    fn names_selected(&self, Ghost(wants): Ghost<spec_fn(ManagedView) -> bool>, tick_at: Option<u64>) -> (res: Vec<String>)
        requires
            match tick_at {
                Some(now) => wants == (|m: ManagedView| tick_due(m, now)),
                None => wants == (|m: ManagedView| wants_start(m)),
            },
        ensures
            views(res@) == names_where(self.entries(), wants),
    {
        let mut out: Vec<String> = Vec::new();
        let mut i: usize = 0;
        assert(self.entries().take(0) =~= Seq::<ManagedView>::empty());
        while i < self.connections.len()
            invariant
                0 <= i <= self.connections.len(),
                match tick_at {
                    Some(now) => wants == (|m: ManagedView| tick_due(m, now)),
                    None => wants == (|m: ManagedView| wants_start(m)),
                },
                views(out@) == names_where(self.entries().take(i as int), wants),
            decreases self.connections.len() - i,
        {
            let ghost before = out@;
            let m = &self.connections[i];
            proof {
                assert(self.entries()[i as int] == m@);
                assert(self.entries().take(i as int + 1).drop_last() =~= self.entries().take(i as int));
                assert(self.entries().take(i as int + 1).last() == m@);
            }
            let selected = match tick_at {
                Some(now) => m.tick_wants_start(now),
                None => m.config.auto_start && m.start_allowed(),
            };
            if selected {
                out.push(m.config.name.clone());
                assert(views(out@) =~= views(before) + seq![key(m@)]);
            } else {
                assert(views(out@) =~= views(before) + Seq::<Seq<char>>::empty());
            }
            i = i + 1;
        }
        assert(self.entries().take(i as int) =~= self.entries());
        out
    }

    /// Whether the connection named `name` is to be started on its own now:
    /// it is configured to, and nothing suppresses or already runs it.
    pub fn wants_auto_start(&self, name: &str) -> (res: bool)
        requires
            self.wf(),
        ensures
            res == (self.view().contains_key(name@) && self.view()[name@].config.auto_start
                && may_start(self.view()[name@])),
    {
        match self.get(name) {
            Some(m) => m.config.auto_start && m.start_allowed(),
            None => false,
        }
    }

    /// Whether a periodic tick at `now` is to start the connection named
    /// `name`.
    pub fn tick_wants_start(&self, name: &str, now: u64) -> (res: bool)
        requires
            self.wf(),
        ensures
            res == (self.view().contains_key(name@) && tick_due(self.view()[name@], now)),
    {
        match self.get(name) {
            Some(m) => m.tick_wants_start(now),
            None => false,
        }
    }
}


/// The pid of the tracked process of `m`, if any, as a sequence.
pub open spec fn pid_list(m: ManagedView) -> Seq<u32> {
    match m.process_id {
        Some(p) => seq![p],
        None => seq![],
    }
}

/// Some entry of the configuration is named `k`.
pub open spec fn config_names(cs: Seq<ConnectionConfigView>, k: Seq<char>) -> bool {
    exists|j: int| 0 <= j < cs.len() && #[trigger] cs[j].name == k
}

/// A reload, entry by entry: the connections of the old state not yet
/// claimed, the new state built so far, and the pids killed so far. An entry
/// keeps the old connection of its name when its configuration is unchanged;
/// otherwise the old one is stopped and a fresh one takes its place. A later
/// entry with the same name replaces an earlier one, whose process is
/// killed.
pub open spec fn reload_fold(old: Map<Seq<char>, ManagedView>, cs: Seq<ConnectionConfigView>) -> (
    Map<Seq<char>, ManagedView>,
    Map<Seq<char>, ManagedView>,
    Seq<u32>,
)
    decreases cs.len(),
{
    if cs.len() == 0 {
        (old, Map::empty(), seq![])
    } else {
        let prev = reload_fold(old, cs.drop_last());
        let o = prev.0;
        let n = prev.1;
        let c = cs.last();
        let kept = o.contains_key(c.name) && o[c.name].config == c;
        let m = if kept {
            o[c.name]
        } else {
            fresh(c)
        };
        let stopped_old = if o.contains_key(c.name) && !kept {
            pid_list(o[c.name])
        } else {
            seq![]
        };
        let replaced = if n.contains_key(c.name) {
            pid_list(n[c.name])
        } else {
            seq![]
        };
        (o.remove(c.name), n.insert(c.name, m), prev.2 + stopped_old + replaced)
    }
}

/// The pids of the connections along `s` that the configuration no longer
/// names, in order.
pub open spec fn departed_pids(s: Seq<ManagedView>, cs: Seq<ConnectionConfigView>) -> Seq<u32>
    decreases s.len(),
{
    if s.len() == 0 {
        seq![]
    } else {
        departed_pids(s.drop_last(), cs) + if config_names(cs, key(s.last())) {
            seq![]
        } else {
            pid_list(s.last())
        }
    }
}

fn config_has_name(config: &ConfigFile, name: &str) -> (res: bool)
    ensures
        res == config_names(config@, name@),
{
    let mut i: usize = 0;
    while i < config.connections.len()
        invariant
            0 <= i <= config.connections.len(),
            forall|j: int| 0 <= j < i ==> #[trigger] config@[j].name != name@,
        decreases config.connections.len() - i,
    {
        if str_eq(config.connections[i].name.as_str(), name) {
            assert(config@[i as int].name == name@);
            return true;
        }
        i = i + 1;
    }
    false
}

fn push_pid(kills: &mut Vec<u32>, kill: Option<u32>, Ghost(m): Ghost<ManagedView>)
    requires
        kill == m.process_id,
    ensures
        final(kills)@ == old(kills)@ + pid_list(m),
{
    match kill {
        Some(p) => {
            kills.push(p);
            assert(old(kills)@.push(p) =~= old(kills)@ + seq![p]);
        },
        None => {
            assert(old(kills)@ + Seq::<u32>::empty() =~= old(kills)@);
        },
    }
}

impl AppState {
    /// Replaces the configuration: connections whose configuration is
    /// unchanged keep their state, changed and new ones start fresh, and
    /// those no longer configured are stopped.
    /// Returns the pids to kill, then the names of the connections to start
    /// once they are killed: those that start on their own and are neither
    /// stopped nor running, in name order.
    pub fn reload(&mut self, config: ConfigFile) -> (res: (Vec<u32>, Vec<String>))
        requires
            old(self).wf(),
        ensures
            final(self).wf(),
            final(self).view() == reload_fold(old(self).view(), config@).1,
            res.0@ == reload_fold(old(self).view(), config@).2 + departed_pids(
                old(self).entries(),
                config@,
            ),
            views(res.1@) == names_where(final(self).entries(), |m: ManagedView| wants_start(m)),
    {
        let ghost cs = config@;
        let ghost old_view = self.view();
        let ghost old_entries = self.entries();
        let mut departed: Vec<u32> = Vec::new();
        let mut d: usize = 0;
        assert(old_entries.take(0) =~= Seq::<ManagedView>::empty());
        while d < self.connections.len()
            invariant
                old_entries == self.entries(),
                cs == config@,
                0 <= d <= self.connections.len(),
                departed@ == departed_pids(old_entries.take(d as int), cs),
            decreases self.connections.len() - d,
        {
            let ghost m = self.entries()[d as int];
            assert(m == self.connections@[d as int]@);
            assert(old_entries.take(d as int + 1).drop_last() =~= old_entries.take(d as int));
            assert(old_entries.take(d as int + 1).last() == m);
            if !config_has_name(&config, self.connections[d].config.name.as_str()) {
                push_pid(&mut departed, self.connections[d].process_id, Ghost(m));
            } else {
                assert(departed@ + Seq::<u32>::empty() =~= departed@);
            }
            d = d + 1;
        }
        assert(old_entries.take(d as int) =~= old_entries);
        let mut next = AppState::empty();
        let mut kills: Vec<u32> = Vec::new();
        let mut i: usize = 0;
        assert(cs.take(0) =~= Seq::<ConnectionConfigView>::empty());
        assert(next.view() =~= Map::<Seq<char>, ManagedView>::empty());
        while i < config.connections.len()
            invariant
                cs == config@,
                0 <= i <= config.connections.len(),
                self.wf(),
                next.wf(),
                (self.view(), next.view(), kills@) == reload_fold(old_view, cs.take(i as int)),
            decreases config.connections.len() - i,
        {
            let ghost o = self.view();
            let ghost n = next.view();
            let ghost k0 = kills@;
            let c = config.connections[i].clone();
            proof {
                assert(cs.take(i as int + 1).drop_last() =~= cs.take(i as int));
                assert(cs.take(i as int + 1).last() == cs[i as int]);
            }
            let managed = match self.remove(c.name.as_str()) {
                Some(mut existing) => {
                    if existing.config.same_as(&c) {
                        assert(kills@ + Seq::<u32>::empty() =~= kills@);
                        existing
                    } else {
                        let ghost e = existing@;
                        let kill = existing.stop();
                        push_pid(&mut kills, kill, Ghost(e));
                        ManagedConnection::new(c)
                    }
                },
                None => {
                    assert(kills@ + Seq::<u32>::empty() =~= kills@);
                    ManagedConnection::new(c)
                },
            };
            match next.insert(managed) {
                Some(mut replaced) => {
                    let ghost r = replaced@;
                    let kill = replaced.stop();
                    push_pid(&mut kills, kill, Ghost(r));
                },
                None => {
                    assert(kills@ + Seq::<u32>::empty() =~= kills@);
                },
            }
            i = i + 1;
        }
        assert(cs.take(i as int) =~= cs);
        kills.append(&mut departed);
        *self = next;
        let starts = self.start_auto_connections();
        (kills, starts)
    }
}


/// What a reload gives the connection configured as `c`: the old connection
/// of that name when its configuration is unchanged, else a fresh one.
pub open spec fn reloaded(old: Map<Seq<char>, ManagedView>, c: ConnectionConfigView) -> ManagedView {
    if old.contains_key(c.name) && old[c.name].config == c {
        old[c.name]
    } else {
        fresh(c)
    }
}

proof fn lemma_reload_fold_unique(old: Map<Seq<char>, ManagedView>, cs: Seq<ConnectionConfigView>)
    requires
        unique_names(cs),
    ensures
        forall|q: Seq<char>| #[trigger] reload_fold(old, cs).0.contains_key(q) == (old.contains_key(q)
            && !config_names(cs, q)),
        forall|q: Seq<char>| #[trigger] reload_fold(old, cs).0.contains_key(q) ==> reload_fold(
            old,
            cs,
        ).0[q] == old[q],
        forall|q: Seq<char>| #[trigger] reload_fold(old, cs).1.contains_key(q) == config_names(cs, q),
        forall|j: int| 0 <= j < cs.len() ==> reload_fold(old, cs).1[#[trigger] cs[j].name] == reloaded(old, cs[j]),
        forall|j: int|
            0 <= j < cs.len() && old.contains_key(#[trigger] cs[j].name) && old[cs[j].name].config
                != cs[j] && old[cs[j].name].process_id is Some ==> reload_fold(old, cs).2.contains(
                old[cs[j].name].process_id->0,
            ),
    decreases cs.len(),
{
    if cs.len() > 0 {
        let p = cs.drop_last();
        assert(unique_names(p)) by {
            assert forall|i: int, j: int| 0 <= i < j < p.len() implies #[trigger] p[i].name
                != #[trigger] p[j].name by {
                assert(p[i] == cs[i] && p[j] == cs[j]);
            }
        }
        lemma_reload_fold_unique(old, p);
        let prev = reload_fold(old, p);
        let c = cs.last();
        let last = cs.len() - 1;
        assert(!config_names(p, c.name)) by {
            if config_names(p, c.name) {
                let j = choose|j: int| 0 <= j < p.len() && #[trigger] p[j].name == c.name;
                assert(cs[j].name == cs[last].name);
            }
        }
        assert forall|q: Seq<char>| #[trigger] config_names(cs, q) == (config_names(p, q) || q == c.name) by {
            if config_names(cs, q) {
                let j = choose|j: int| 0 <= j < cs.len() && #[trigger] cs[j].name == q;
                if j < last {
                    assert(p[j].name == q);
                }
            }
            if config_names(p, q) {
                let j = choose|j: int| 0 <= j < p.len() && #[trigger] p[j].name == q;
                assert(cs[j].name == q);
            }
            if q == c.name {
                assert(cs[last].name == q);
            }
        }
        let r = reload_fold(old, cs);
        assert forall|j: int| 0 <= j < cs.len() implies r.1[#[trigger] cs[j].name] == reloaded(old, cs[j]) by {
            if j < last {
                assert(cs[j] == p[j]);
                assert(cs[j].name != c.name);
            }
        }
        assert forall|j: int|
            0 <= j < cs.len() && old.contains_key(#[trigger] cs[j].name) && old[cs[j].name].config
                != cs[j] && old[cs[j].name].process_id is Some implies r.2.contains(
                old[cs[j].name].process_id->0,
            ) by {
            let pid = old[cs[j].name].process_id->0;
            if j < last {
                assert(cs[j] == p[j]);
                assert(prev.2.contains(pid));
                let k = choose|k: int| 0 <= k < prev.2.len() && prev.2[k] == pid;
                assert(r.2[k] == pid);
            } else {
                assert(prev.0.contains_key(c.name));
                let extra = pid_list(old[c.name]);
                assert(extra == seq![pid]);
                let base = prev.2.len() as int;
                assert(r.2[base] == pid);
            }
        }
    }
}

/// A reload with a configuration that names each connection once gives
/// exactly the configured connections; one whose configuration did not change
/// keeps its whole state (a stopped one stays stopped), a changed or new one
/// starts fresh; the process of a changed connection, and that of one no
/// longer configured, are among the pids to kill.
pub proof fn lemma_reload_keeps_unchanged(
    old_entries: Seq<ManagedView>,
    cs: Seq<ConnectionConfigView>,
)
    requires
        sorted_by_name(old_entries),
        unique_names(cs),
    ensures
        forall|q: Seq<char>| #[trigger] reload_fold(map_of(old_entries), cs).1.contains_key(q)
            == config_names(cs, q),
        forall|j: int| 0 <= j < cs.len() ==> reload_fold(map_of(old_entries), cs).1[#[trigger] cs[j].name]
            == reloaded(map_of(old_entries), cs[j]),
        forall|j: int|
            0 <= j < cs.len() && map_of(old_entries).contains_key(#[trigger] cs[j].name)
                && map_of(old_entries)[cs[j].name].config != cs[j]
                && map_of(old_entries)[cs[j].name].process_id is Some ==> reload_fold(
                map_of(old_entries),
                cs,
            ).2.contains(map_of(old_entries)[cs[j].name].process_id->0),
        forall|i: int|
            0 <= i < old_entries.len() && (#[trigger] old_entries[i]).process_id is Some
                && !config_names(cs, key(old_entries[i])) ==> departed_pids(old_entries, cs).contains(
                old_entries[i].process_id->0,
            ),
{
    lemma_reload_fold_unique(map_of(old_entries), cs);
    assert forall|i: int|
        0 <= i < old_entries.len() && (#[trigger] old_entries[i]).process_id is Some
            && !config_names(cs, key(old_entries[i])) implies departed_pids(old_entries, cs).contains(
        old_entries[i].process_id->0,
    ) by {
        lemma_departed_contains(old_entries, cs, i, old_entries[i].process_id->0);
    }
}

proof fn lemma_departed_contains(s: Seq<ManagedView>, cs: Seq<ConnectionConfigView>, i: int, p: u32)
    requires
        0 <= i < s.len(),
        s[i].process_id == Some(p),
        !config_names(cs, key(s[i])),
    ensures
        departed_pids(s, cs).contains(p),
    decreases s.len(),
{
    let last = s.len() - 1;
    let prev = departed_pids(s.drop_last(), cs);
    if i < last {
        assert(s.drop_last()[i] == s[i]);
        lemma_departed_contains(s.drop_last(), cs, i, p);
        let k = choose|k: int| 0 <= k < prev.len() && prev[k] == p;
        assert(departed_pids(s, cs)[k] == p);
    } else {
        assert(departed_pids(s, cs)[prev.len() as int] == p);
    }
}


/// A state built from a configuration that names each connection once holds
/// exactly the configured connections, each fresh: nothing started, nothing
/// suppressed.
pub proof fn lemma_new_state_is_fresh(cs: Seq<ConnectionConfigView>)
    requires
        unique_names(cs),
    ensures
        forall|q: Seq<char>| #[trigger] config_map(cs).contains_key(q) == config_names(cs, q),
        forall|j: int| 0 <= j < cs.len() ==> config_map(cs)[#[trigger] cs[j].name] == fresh(cs[j]),
    decreases cs.len(),
{
    if cs.len() > 0 {
        let p = cs.drop_last();
        let last = cs.len() - 1;
        assert(unique_names(p)) by {
            assert forall|i: int, j: int| 0 <= i < j < p.len() implies #[trigger] p[i].name
                != #[trigger] p[j].name by {
                assert(p[i] == cs[i] && p[j] == cs[j]);
            }
        }
        lemma_new_state_is_fresh(p);
        assert forall|q: Seq<char>| #[trigger] config_names(cs, q) == (config_names(p, q) || q == cs[last].name) by {
            if config_names(cs, q) {
                let j = choose|j: int| 0 <= j < cs.len() && #[trigger] cs[j].name == q;
                if j < last {
                    assert(p[j].name == q);
                }
            }
            if config_names(p, q) {
                let j = choose|j: int| 0 <= j < p.len() && #[trigger] p[j].name == q;
                assert(cs[j].name == q);
            }
            if q == cs[last].name {
                assert(cs[last].name == q);
            }
        }
        assert forall|j: int| 0 <= j < cs.len() implies config_map(cs)[#[trigger] cs[j].name] == fresh(cs[j]) by {
            if j < last {
                assert(cs[j] == p[j]);
                assert(cs[j].name != cs[last].name);
            }
        }
    }
}


proof fn lemma_names_where_members(s: Seq<ManagedView>, wants: spec_fn(ManagedView) -> bool, k: Seq<char>)
    requires
        names_where(s, wants).contains(k),
    ensures
        exists|i: int| 0 <= i < s.len() && key(#[trigger] s[i]) == k && wants(s[i]),
    decreases s.len(),
{
    let p = s.drop_last();
    let prev = names_where(p, wants);
    let last = s.len() - 1;
    if prev.contains(k) {
        lemma_names_where_members(p, wants, k);
        let i = choose|i: int| 0 <= i < p.len() && key(#[trigger] p[i]) == k && wants(p[i]);
        assert(s[i] == p[i]);
    } else {
        let j = choose|j: int| 0 <= j < names_where(s, wants).len() && names_where(s, wants)[j] == k;
        assert(wants(s[last]) && key(s[last]) == k) by {
            if !wants(s[last]) {
                assert(names_where(s, wants) =~= prev);
            } else {
                assert(names_where(s, wants) =~= prev.push(key(s[last])));
                if j < prev.len() {
                    assert(prev[j] == k);
                }
            }
        }
    }
}

/// A stopped connection is neither started on the daemon's start or a
/// reload nor by any tick, until a refresh lifts the stop.
pub proof fn lemma_stopped_connection_not_started(s: Seq<ManagedView>, k: Seq<char>, now: u64)
    requires
        sorted_by_name(s),
        map_of(s).contains_key(k),
        map_of(s)[k].restart_suppressed,
    ensures
        !names_where(s, |m: ManagedView| wants_start(m)).contains(k),
        !names_where(s, |m: ManagedView| tick_due(m, now)).contains(k),
{
    let wants1 = |m: ManagedView| wants_start(m);
    let wants2 = |m: ManagedView| tick_due(m, now);
    if names_where(s, wants1).contains(k) {
        lemma_names_where_members(s, wants1, k);
        let i = choose|i: int| 0 <= i < s.len() && key(#[trigger] s[i]) == k && wants1(s[i]);
        lemma_map_of_index(s, i);
    }
    if names_where(s, wants2).contains(k) {
        lemma_names_where_members(s, wants2, k);
        let i = choose|i: int| 0 <= i < s.len() && key(#[trigger] s[i]) == k && wants2(s[i]);
        lemma_map_of_index(s, i);
    }
}


/// Each connection is held under its own name.
pub open spec fn keyed_by_name(v: Map<Seq<char>, ManagedView>) -> bool {
    forall|q: Seq<char>| #[trigger] v.contains_key(q) ==> key(v[q]) == q
}

/// The daemon's state holds each connection under its own name.
pub proof fn lemma_state_keyed_by_name(s: Seq<ManagedView>)
    ensures
        keyed_by_name(map_of(s)),
{
    assert forall|q: Seq<char>| #[trigger] map_of(s).contains_key(q) implies key(map_of(s)[q]) == q by {
        let i = index_of(s, q);
        assert(key(s[i]) == q);
    }
}

/// The connection named `k` is stopped: restarts are suppressed.
pub open spec fn stopped_in(v: Map<Seq<char>, ManagedView>, k: Seq<char>) -> bool {
    v.contains_key(k) && v[k].restart_suppressed
}

/// A stop lasts until a refresh of that connection or a reload that changes
/// its configuration: recording a start attempt, a health check, a stop, a
/// refresh of another connection, and a reload that keeps its configuration
/// all leave it stopped; while stopped it is reported `Stopped`, and neither
/// a tick nor a (re)load starts it.
pub proof fn lemma_stop_lasts_until_refresh(
    v: Map<Seq<char>, ManagedView>,
    k: Seq<char>,
    other: Seq<char>,
    outcome: SpawnOutcome,
    probe: Option<ProcessProbe>,
    now: u64,
    cs: Seq<ConnectionConfigView>,
)
    requires
        stopped_in(v, k),
    ensures
        stopped_in(update_named(v, other, after_spawn(v[other], outcome, now)), k),
        stopped_in(update_named(v, other, after_probe(v[other], probe, now).0), k),
        stopped_in(update_named(v, other, suppressed(v[other])), k),
        other != k ==> stopped_in(update_named(v, other, reset(v[other])), k),
        keyed_by_name(v) && unique_names(cs) && (exists|j: int|
            0 <= j < cs.len() && #[trigger] cs[j] == v[k].config) ==> stopped_in(
            reload_fold(v, cs).1,
            k,
        ),
        state_of(v[k]) == ConnectionState::Stopped,
        !tick_due(v[k], now),
        !wants_start(v[k]),
{
    if keyed_by_name(v) && unique_names(cs) && (exists|j: int|
        0 <= j < cs.len() && #[trigger] cs[j] == v[k].config) {
        let j = choose|j: int| 0 <= j < cs.len() && #[trigger] cs[j] == v[k].config;
        lemma_reload_fold_unique(v, cs);
        assert(key(v[k]) == k);
        assert(reload_fold(v, cs).1[cs[j].name] == reloaded(v, cs[j]));
        assert(config_names(cs, cs[j].name));
    }
}


/// Some entry of the configuration is exactly `c`.
pub open spec fn config_kept(cs: Seq<ConnectionConfigView>, c: ConnectionConfigView) -> bool {
    exists|j: int| 0 <= j < cs.len() && #[trigger] cs[j] == c
}

/// No two connections track the same process.
pub open spec fn distinct_pids(s: Seq<ManagedView>) -> bool {
    forall|i: int, j: int|
        0 <= i < s.len() && 0 <= j < s.len() && i != j && (#[trigger] s[i]).process_id is Some
            ==> s[i].process_id != (#[trigger] s[j]).process_id
}

/// `p` is the process of an old connection that the configuration does not
/// keep unchanged: changed or no longer configured.
pub open spec fn killable(s: Seq<ManagedView>, cs: Seq<ConnectionConfigView>, p: u32) -> bool {
    exists|i: int|
        0 <= i < s.len() && (#[trigger] s[i]).process_id == Some(p) && !config_kept(cs, s[i].config)
}

proof fn lemma_fold_kills_changed(v: Map<Seq<char>, ManagedView>, cs: Seq<ConnectionConfigView>, p: u32)
    requires
        unique_names(cs),
        reload_fold(v, cs).2.contains(p),
    ensures
        exists|j: int|
            0 <= j < cs.len() && v.contains_key(#[trigger] cs[j].name) && v[cs[j].name].config
                != cs[j] && v[cs[j].name].process_id == Some(p),
    decreases cs.len(),
{
    let q = cs.drop_last();
    let last = cs.len() - 1;
    assert(unique_names(q)) by {
        assert forall|a: int, b: int| 0 <= a < b < q.len() implies #[trigger] q[a].name
            != #[trigger] q[b].name by {
            assert(q[a] == cs[a] && q[b] == cs[b]);
        }
    }
    lemma_reload_fold_unique(v, q);
    let prev = reload_fold(v, q);
    let c = cs.last();
    assert(!config_names(q, c.name)) by {
        if config_names(q, c.name) {
            let j = choose|j: int| 0 <= j < q.len() && #[trigger] q[j].name == c.name;
            assert(cs[j].name == cs[last].name);
        }
    }
    assert(!prev.1.contains_key(c.name));
    let kept = prev.0.contains_key(c.name) && prev.0[c.name].config == c;
    let stopped_old = if prev.0.contains_key(c.name) && !kept {
        pid_list(prev.0[c.name])
    } else {
        seq![]
    };
    let all = reload_fold(v, cs).2;
    assert(all =~= prev.2 + stopped_old + Seq::<u32>::empty());
    let k = choose|k: int| 0 <= k < all.len() && all[k] == p;
    if k < prev.2.len() {
        assert(prev.2[k] == p);
        lemma_fold_kills_changed(v, q, p);
        let j = choose|j: int|
            0 <= j < q.len() && v.contains_key(#[trigger] q[j].name) && v[q[j].name].config != q[j]
                && v[q[j].name].process_id == Some(p);
        assert(cs[j] == q[j]);
    } else {
        assert(stopped_old[k - prev.2.len()] == p);
        assert(prev.0[c.name] == v[c.name]);
        assert(cs[last] == c);
    }
}

proof fn lemma_departed_are_unconfigured(s: Seq<ManagedView>, cs: Seq<ConnectionConfigView>, p: u32)
    requires
        departed_pids(s, cs).contains(p),
    ensures
        exists|i: int|
            0 <= i < s.len() && (#[trigger] s[i]).process_id == Some(p) && !config_names(cs, key(s[i])),
    decreases s.len(),
{
    let q = s.drop_last();
    let prev = departed_pids(q, cs);
    let all = departed_pids(s, cs);
    let k = choose|k: int| 0 <= k < all.len() && all[k] == p;
    if k < prev.len() {
        assert(prev[k] == p);
        lemma_departed_are_unconfigured(q, cs, p);
        let i = choose|i: int|
            0 <= i < q.len() && (#[trigger] q[i]).process_id == Some(p) && !config_names(cs, key(q[i]));
        assert(s[i] == q[i]);
    } else {
        assert(s[s.len() - 1] == s.last());
    }
}

/// A reload with a configuration that names each connection once kills only
/// processes of connections whose configuration changed or that are no
/// longer configured; the process of a connection whose configuration is
/// unchanged is never killed (processes being distinct).
pub proof fn lemma_reload_spares_unchanged(s: Seq<ManagedView>, cs: Seq<ConnectionConfigView>)
    requires
        sorted_by_name(s),
        unique_names(cs),
    ensures
        forall|p: u32| #[trigger] (reload_fold(map_of(s), cs).2 + departed_pids(s, cs)).contains(p)
            ==> killable(s, cs, p),
        distinct_pids(s) ==> forall|i: int|
            0 <= i < s.len() && (#[trigger] s[i]).process_id is Some && config_kept(cs, s[i].config)
                ==> !(reload_fold(map_of(s), cs).2 + departed_pids(s, cs)).contains(
                s[i].process_id->0,
            ),
{
    let v = map_of(s);
    lemma_state_keyed_by_name(s);
    assert forall|p: u32| #[trigger] (reload_fold(v, cs).2 + departed_pids(s, cs)).contains(p)
        implies killable(s, cs, p) by {
        let a = reload_fold(v, cs).2;
        let b = departed_pids(s, cs);
        let all = a + b;
        let k = choose|k: int| 0 <= k < all.len() && all[k] == p;
        if k < a.len() {
            assert(a[k] == p);
            lemma_fold_kills_changed(v, cs, p);
            let j = choose|j: int|
                0 <= j < cs.len() && v.contains_key(#[trigger] cs[j].name) && v[cs[j].name].config
                    != cs[j] && v[cs[j].name].process_id == Some(p);
            let i = index_of(s, cs[j].name);
            lemma_map_of_index(s, i);
            assert(s[i] == v[cs[j].name]);
            assert(!config_kept(cs, s[i].config)) by {
                if config_kept(cs, s[i].config) {
                    let j2 = choose|j2: int| 0 <= j2 < cs.len() && #[trigger] cs[j2] == s[i].config;
                    assert(cs[j2].name == cs[j].name);
                    if j2 != j {
                        if j2 < j {
                            assert(cs[j2].name != cs[j].name);
                        } else {
                            assert(cs[j].name != cs[j2].name);
                        }
                    }
                }
            }
        } else {
            assert(b[k - a.len()] == p);
            lemma_departed_are_unconfigured(s, cs, p);
            let i = choose|i: int|
                0 <= i < s.len() && (#[trigger] s[i]).process_id == Some(p) && !config_names(cs, key(s[i]));
            assert(!config_kept(cs, s[i].config)) by {
                if config_kept(cs, s[i].config) {
                    let j2 = choose|j2: int| 0 <= j2 < cs.len() && #[trigger] cs[j2] == s[i].config;
                    assert(cs[j2].name == key(s[i]));
                }
            }
        }
    }
    if distinct_pids(s) {
        assert forall|i: int|
            0 <= i < s.len() && (#[trigger] s[i]).process_id is Some && config_kept(cs, s[i].config)
                implies !(reload_fold(v, cs).2 + departed_pids(s, cs)).contains(s[i].process_id->0) by {
            let p = s[i].process_id->0;
            if (reload_fold(v, cs).2 + departed_pids(s, cs)).contains(p) {
                assert(killable(s, cs, p));
                let i2 = choose|i2: int|
                    0 <= i2 < s.len() && (#[trigger] s[i2]).process_id == Some(p) && !config_kept(cs, s[i2].config);
                if i2 != i {
                    assert(s[i].process_id != s[i2].process_id);
                }
            }
        }
    }
}

} // verus!

//! The live sessions of a debugger, by id.
use crate::ir::IrProject;
use crate::number::u64_text;
use crate::sim_commands::{SimStartResult, SourceFileEntry};
use crate::sim_session::{
    SessionId, SessionRegistry, SimRunner, SimSession, StepMode, StepOutcome,
};
use crate::text::concat_str;
use vstd::prelude::*;

verus! {

/// A session and the project that it runs.
pub struct SessionEntry<R: SimRunner> {
    pub session: SimSession<R>,
    pub project: IrProject,
}

/// The live sessions.
pub struct SimSessions<R: SimRunner> {
    registry: SessionRegistry,
    sessions: Vec<(SessionId, SessionEntry<R>)>,
}

/// The entries of a list by their ids.
pub open spec fn by_id<R: SimRunner>(s: Seq<(SessionId, SessionEntry<R>)>) -> Map<
    SessionId,
    SessionEntry<R>,
>
    decreases s.len(),
{
    if s.len() == 0 {
        Map::empty()
    } else {
        by_id(s.drop_last()).insert(s.last().0, s.last().1)
    }
}

/// No id stands twice in a list.
pub open spec fn ids_once<R: SimRunner>(s: Seq<(SessionId, SessionEntry<R>)>) -> bool {
    forall|i: int, j: int|
        0 <= i < j < s.len() ==> (#[trigger] s[i]).0 != (#[trigger] s[j]).0
}

proof fn lemma_by_id<R: SimRunner>(s: Seq<(SessionId, SessionEntry<R>)>)
    requires
        ids_once(s),
    ensures
        forall|i: int|
            0 <= i < s.len() ==> by_id(s).contains_key((#[trigger] s[i]).0) && by_id(s)[s[i].0]
                == s[i].1,
        forall|id: SessionId| #[trigger]
            by_id(s).contains_key(id) ==> exists|i: int|
                0 <= i < s.len() && (#[trigger] s[i]).0 == id,
    decreases s.len(),
{
    if s.len() > 0 {
        let rest = s.drop_last();
        assert(ids_once(rest)) by {
            assert forall|i: int, j: int| 0 <= i < j < rest.len() implies (#[trigger] rest[i]).0
                != (#[trigger] rest[j]).0 by {
                assert(s[i].0 != s[j].0);
            }
        }
        lemma_by_id(rest);
        assert forall|i: int| 0 <= i < s.len() implies by_id(s).contains_key((#[trigger] s[i]).0)
            && by_id(s)[s[i].0] == s[i].1 by {
            if i < rest.len() {
                assert(rest[i] == s[i]);
                assert(s[i].0 != s[s.len() - 1].0);
            }
        }
        assert forall|id: SessionId| #[trigger] by_id(s).contains_key(id) implies exists|i: int|
            0 <= i < s.len() && (#[trigger] s[i]).0 == id by {
            if id == s.last().0 {
                assert(s[s.len() - 1].0 == id);
            } else {
                assert(by_id(rest).contains_key(id));
                let i = choose|i: int| 0 <= i < rest.len() && (#[trigger] rest[i]).0 == id;
                assert(s[i].0 == id);
            }
        }
    }
}

/// Lists with the same entries are the same by id.
proof fn lemma_same_entries<R: SimRunner>(
    s: Seq<(SessionId, SessionEntry<R>)>,
    m: Map<SessionId, SessionEntry<R>>,
)
    requires
        ids_once(s),
        forall|i: int|
            0 <= i < s.len() ==> m.contains_key((#[trigger] s[i]).0) && m[s[i].0] == s[i].1,
        forall|id: SessionId| #[trigger]
            m.contains_key(id) ==> exists|i: int| 0 <= i < s.len() && (#[trigger] s[i]).0 == id,
    ensures
        by_id(s) == m,
{
    lemma_by_id(s);
    assert forall|id: SessionId| #[trigger] by_id(s).dom().contains(id) == m.dom().contains(
        id,
    ) by {
        if by_id(s).contains_key(id) {
            let i = choose|i: int| 0 <= i < s.len() && (#[trigger] s[i]).0 == id;
            assert(m.contains_key(s[i].0));
        }
        if m.contains_key(id) {
            let i = choose|i: int| 0 <= i < s.len() && (#[trigger] s[i]).0 == id;
            assert(by_id(s).contains_key(s[i].0));
        }
    }
    assert forall|id: SessionId| #[trigger] by_id(s).dom().contains(id) implies by_id(s)[id]
        == m[id] by {
        let i = choose|i: int| 0 <= i < s.len() && (#[trigger] s[i]).0 == id;
        assert(by_id(s)[s[i].0] == s[i].1);
        assert(m[s[i].0] == s[i].1);
    }
    assert(by_id(s) =~= m);
}

impl<R: SimRunner> SimSessions<R> {
    /// The sessions by their ids.
    pub closed spec fn view(&self) -> Map<SessionId, SessionEntry<R>> {
        by_id(self.sessions@)
    }

    /// The id that is handed out next.
    pub closed spec fn spec_next(&self) -> SessionId {
        self.registry.spec_next()
    }

    #[verifier::type_invariant]
    spec fn ids_are_distinct(self) -> bool {
        ids_once(self.sessions@)
    }

    pub fn new() -> (r: Self)
        ensures
            r@ == Map::<SessionId, SessionEntry<R>>::empty(),
            r.spec_next() == 0,
    {
        SimSessions { registry: SessionRegistry::new(), sessions: Vec::new() }
    }

    fn place(&self, id: SessionId) -> (r: Option<usize>)
        ensures
            match r {
                Some(i) => i < self.sessions@.len() && self.sessions@[i as int].0 == id,
                None => forall|i: int|
                    0 <= i < self.sessions@.len() ==> (#[trigger] self.sessions@[i]).0 != id,
            },
    {
        let mut i: usize = 0;
        while i < self.sessions.len()
            invariant
                i <= self.sessions@.len(),
                forall|j: int| 0 <= j < i ==> (#[trigger] self.sessions@[j]).0 != id,
            decreases self.sessions@.len() - i,
        {
            if self.sessions[i].0 == id {
                return Some(i);
            }
            i = i + 1;
        }
        None
    }

    /// Adds a session under a fresh id.
    pub fn insert(self, entry: SessionEntry<R>) -> (r: (Self, SessionId))
        ensures
            r.1 == self.spec_next(),
            r.0@ == self@.insert(r.1, entry),
            r.0.spec_next() == crate::sim_session::id_after(self.spec_next(), 1),
    {
        proof {
            use_type_invariant(&self);
            lemma_by_id(self.sessions@);
        }
        let at = self.place(self.registry.peek_id());
        let SimSessions { registry, sessions } = self;
        let mut registry = registry;
        let mut sessions = sessions;
        let ghost before = sessions@;
        let id = registry.alloc_id();
        if let Some(i) = at {
            let _ = sessions.remove(i);
            proof {
                assert(sessions@ == before.remove(i as int));
                lemma_removed(before, i as int);
            }
        }
        let ghost kept = sessions@;
        sessions.push((id, entry));
        proof {
            assert(kept.len() <= before.len());
            assert forall|j: int| 0 <= j < kept.len() implies (#[trigger] kept[j]).0 != id by {
                match at {
                    Some(i) => {
                        let j0 = if j < i {
                            j
                        } else {
                            j + 1
                        };
                        assert(kept[j] == before[j0]);
                        assert(before[j0].0 != before[i as int].0);
                    },
                    None => {
                        assert(kept[j] == before[j]);
                    },
                }
            }
            assert(ids_once(sessions@)) by {
                assert forall|a: int, b: int| 0 <= a < b < sessions@.len() implies (
                #[trigger] sessions@[a]).0 != (#[trigger] sessions@[b]).0 by {
                    assert(sessions@[a] == kept[a]);
                    if b < kept.len() {
                        assert(sessions@[b] == kept[b]);
                    }
                }
            }
            assert(sessions@.drop_last() =~= kept);
            assert(by_id(sessions@) =~= by_id(before).insert(id, entry));
        }
        (SimSessions { registry, sessions }, id)
    }

    /// A session by its id.
    pub fn get(&self, id: SessionId) -> (r: Option<&SessionEntry<R>>)
        ensures
            match r {
                Some(e) => self@.contains_key(id) && *e == self@[id],
                None => !self@.contains_key(id),
            },
    {
        proof {
            use_type_invariant(self);
            lemma_by_id(self.sessions@);
        }
        match self.place(id) {
            Some(i) => {
                assert(by_id(self.sessions@)[self.sessions@[i as int].0]
                    == self.sessions@[i as int].1);
                Some(&self.sessions[i].1)
            },
            None => None,
        }
    }

    /// Takes a session out.
    pub fn remove(self, id: SessionId) -> (r: (Self, Option<SessionEntry<R>>))
        ensures
            r.0@ == self@.remove(id),
            r.0.spec_next() == self.spec_next(),
            match r.1 {
                Some(e) => self@.contains_key(id) && e == self@[id],
                None => !self@.contains_key(id),
            },
    {
        proof {
            use_type_invariant(&self);
            lemma_by_id(self.sessions@);
        }
        let at = self.place(id);
        let SimSessions { registry, sessions } = self;
        let mut sessions = sessions;
        let ghost before = sessions@;
        match at {
            Some(i) => {
                let (_, entry) = sessions.remove(i);
                proof {
                    assert(sessions@ == before.remove(i as int));
                    lemma_removed(before, i as int);
                    assert(by_id(before)[before[i as int].0] == before[i as int].1);
                }
                (SimSessions { registry, sessions }, Some(entry))
            },
            None => {
                assert(by_id(before).remove(id) =~= by_id(before));
                (SimSessions { registry, sessions }, None)
            },
        }
    }

    /// Advances a session; the others stay as they are.
    pub fn step(self, id: SessionId, mode: StepMode, clock_signal: Option<&str>) -> (r: (
        Self,
        Result<StepOutcome, String>,
    ))
        ensures
            r.0.spec_next() == self.spec_next(),
            match r.1 {
                Ok(outcome) => self@.contains_key(id) && r.0@ == self@.insert(id, r.0@[id])
                    && r.0@[id].project == self@[id].project && R::spec_step(
                    self@[id].session.run(),
                    mode,
                    crate::sim_session::text_of(clock_signal),
                    r.0@[id].session.run(),
                    outcome,
                ) && r.0@[id].session.spec_config() == self@[id].session.spec_config()
                    && r.0@[id].session.spec_vcd_path() == self@[id].session.spec_vcd_path()
                    && r.0@[id].session.spec_sources() == self@[id].session.spec_sources(),
                Err(e) => !self@.contains_key(id) && r.0@ == self@ && e@
                    == "unknown sessionId: "@ + crate::number::decimal_digits(id as nat),
            },
    {
        proof {
            use_type_invariant(&self);
            lemma_by_id(self.sessions@);
        }
        let at = self.place(id);
        let SimSessions { registry, sessions } = self;
        let mut sessions = sessions;
        let ghost before = sessions@;
        match at {
            Some(i) => {
                let (_, entry) = sessions.remove(i);
                let mut entry = entry;
                assert(by_id(before)[before[i as int].0] == before[i as int].1);
                let outcome = entry.session.step(mode, clock_signal);
                sessions.insert(i, (id, entry));
                proof {
                    assert(sessions@ =~= before.update(i as int, (id, entry)));
                    lemma_updated(before, i as int, entry);
                }
                (SimSessions { registry, sessions }, Ok(outcome))
            },
            None => (SimSessions { registry, sessions }, Err(unknown_session(id))),
        }
    }

    /// The ids of all sessions.
    pub fn ids(&self) -> (r: Vec<SessionId>)
        ensures
            forall|id: SessionId| r@.contains(id) <==> #[trigger] self@.contains_key(id),
            r@.no_duplicates(),
    {
        proof {
            use_type_invariant(self);
            lemma_by_id(self.sessions@);
        }
        let mut out: Vec<SessionId> = Vec::new();
        let mut i: usize = 0;
        while i < self.sessions.len()
            invariant
                i <= self.sessions@.len(),
                out@.len() == i,
                forall|j: int| 0 <= j < i ==> #[trigger] out@[j] == self.sessions@[j].0,
            decreases self.sessions@.len() - i,
        {
            out.push(self.sessions[i].0);
            i = i + 1;
        }
        proof {
            assert forall|id: SessionId| out@.contains(id) <==> #[trigger] self@.contains_key(
                id,
            ) by {
                if out@.contains(id) {
                    let j = choose|j: int| 0 <= j < out@.len() && out@[j] == id;
                    assert(self.sessions@[j].0 == id);
                }
                if self@.contains_key(id) {
                    let j = choose|j: int|
                        0 <= j < self.sessions@.len() && (#[trigger] self.sessions@[j]).0 == id;
                    assert(out@[j] == id);
                }
            }
            assert forall|a: int, b: int| 0 <= a < out@.len() && 0 <= b < out@.len() && a
                != b implies out@[a] != out@[b] by {
                if a < b {
                    assert(self.sessions@[a].0 != self.sessions@[b].0);
                } else {
                    assert(self.sessions@[b].0 != self.sessions@[a].0);
                }
            }
        }
        out
    }
}

proof fn lemma_removed<R: SimRunner>(s: Seq<(SessionId, SessionEntry<R>)>, i: int)
    requires
        ids_once(s),
        0 <= i < s.len(),
    ensures
        ids_once(s.remove(i)),
        by_id(s.remove(i)) == by_id(s).remove(s[i].0),
{
    let t = s.remove(i);
    lemma_by_id(s);
    assert forall|a: int, b: int| 0 <= a < b < t.len() implies (#[trigger] t[a]).0 != (
    #[trigger] t[b]).0 by {
        let a0 = if a < i {
            a
        } else {
            a + 1
        };
        let b0 = if b < i {
            b
        } else {
            b + 1
        };
        assert(t[a] == s[a0] && t[b] == s[b0]);
        assert(s[a0].0 != s[b0].0);
    }
    let m = by_id(s).remove(s[i].0);
    assert forall|j: int| 0 <= j < t.len() implies m.contains_key((#[trigger] t[j]).0) && m[t[j].0]
        == t[j].1 by {
        let j0 = if j < i {
            j
        } else {
            j + 1
        };
        assert(t[j] == s[j0]);
        if j0 < i {
            assert(s[j0].0 != s[i].0);
        } else {
            assert(s[i].0 != s[j0].0);
        }
        assert(by_id(s).contains_key(s[j0].0));
    }
    assert forall|id: SessionId| #[trigger] m.contains_key(id) implies exists|j: int|
        0 <= j < t.len() && (#[trigger] t[j]).0 == id by {
        assert(by_id(s).contains_key(id));
        let j0 = choose|j0: int| 0 <= j0 < s.len() && (#[trigger] s[j0]).0 == id;
        let j = if j0 < i {
            j0
        } else {
            j0 - 1
        };
        assert(t[j] == s[j0]);
    }
    lemma_same_entries(t, m);
}

proof fn lemma_updated<R: SimRunner>(
    s: Seq<(SessionId, SessionEntry<R>)>,
    i: int,
    entry: SessionEntry<R>,
)
    requires
        ids_once(s),
        0 <= i < s.len(),
    ensures
        ids_once(s.update(i, (s[i].0, entry))),
        by_id(s.update(i, (s[i].0, entry))) == by_id(s).insert(s[i].0, entry),
{
    let t = s.update(i, (s[i].0, entry));
    lemma_by_id(s);
    assert forall|a: int, b: int| 0 <= a < b < t.len() implies (#[trigger] t[a]).0 != (
    #[trigger] t[b]).0 by {
        assert(s[a].0 != s[b].0);
    }
    let m = by_id(s).insert(s[i].0, entry);
    assert forall|j: int| 0 <= j < t.len() implies m.contains_key((#[trigger] t[j]).0) && m[t[j].0]
        == t[j].1 by {
        if j < i {
            assert(s[j].0 != s[i].0);
        } else if i < j {
            assert(s[i].0 != s[j].0);
        }
        assert(by_id(s).contains_key(s[j].0));
    }
    assert forall|id: SessionId| #[trigger] m.contains_key(id) implies exists|j: int|
        0 <= j < t.len() && (#[trigger] t[j]).0 == id by {
        if id == s[i].0 {
            assert(t[i].0 == id);
        } else {
            assert(by_id(s).contains_key(id));
            let j = choose|j: int| 0 <= j < s.len() && (#[trigger] s[j]).0 == id;
            assert(t[j].0 == id);
        }
    }
    lemma_same_entries(t, m);
}

/// The sessions of the debugger front end.
pub struct DebuggerSessions<R: SimRunner> {
    pub inner: SimSessions<R>,
}

impl<R: SimRunner> DebuggerSessions<R> {
    pub fn new() -> (r: Self)
        ensures
            r.inner@ == Map::<SessionId, SessionEntry<R>>::empty(),
    {
        DebuggerSessions { inner: SimSessions::new() }
    }
}

/// The error for an id that no session has.
pub fn unknown_session(id: SessionId) -> (r: String)
    ensures
        r@ == "unknown sessionId: "@ + crate::number::decimal_digits(id as nat),
{
    let digits = u64_text(id);
    concat_str("unknown sessionId: ", digits.as_str())
}

/// What the start of a session reports.
pub fn start_result<R: SimRunner>(id: SessionId, session: &SimSession<R>) -> (r: SimStartResult)
    ensures
        r.session_id == id,
        r.vcd_path@ == session.spec_vcd_path(),
        r.time_fs == session.run().spec_time(),
        r.source_files@.len() == session.spec_sources().len(),
        forall|i: int|
            0 <= i < r.source_files@.len() ==> (#[trigger] r.source_files@[i]).id
                == session.spec_sources()[i].0 && r.source_files@[i].path@
                == session.spec_sources()[i].1@,
{
    let files = session.source_files();
    let mut source_files: Vec<SourceFileEntry> = Vec::new();
    let mut i: usize = 0;
    while i < files.len()
        invariant
            i <= files@.len(),
            source_files@.len() == i,
            forall|j: int|
                0 <= j < i ==> (#[trigger] source_files@[j]).id == files@[j].0
                    && source_files@[j].path@ == files@[j].1@,
        decreases files@.len() - i,
    {
        source_files.push(SourceFileEntry { id: files[i].0, path: files[i].1.clone() });
        i = i + 1;
    }
    SimStartResult {
        session_id: id,
        vcd_path: session.vcd_path().to_owned(),
        source_files,
        time_fs: session.current_time_fs(),
    }
}

} // verus!

//! The session registry: one authoritative record per session, per-session
//! timestamp tables (hook protection, stop, notification debounce) and a
//! bounded decision log. All operations are plain-value read-decide-write
//! steps; the caller serialises them (one writer at a time) and injects the
//! clock as milliseconds since the Unix epoch.

use vstd::prelude::*;
use vstd::string::StringExecFns;

use crate::state::C3Session;
use crate::state::SessionModel;
use crate::state::SessionState;
use crate::state::PendingActionModel;
use crate::state::session_wf;
use crate::strutil::str_eq;
use crate::spec_within_window;
use crate::within_window;
use crate::HOOK_GRACE_PERIOD_MS;
use crate::NOTIFY_DEBOUNCE_MS;

verus! {

/// The decision log keeps only the newest entries, up to this many.
pub const DECISION_LOG_CAP: usize = 50;

/// A per-session timestamp, milliseconds since the Unix epoch.
#[derive(Debug)]
pub struct TimeMark {
    pub id: String,
    pub at_ms: i64,
}

/// One decision-log entry: what a hook delivery did and why.
#[derive(Debug)]
pub struct HookEvent {
    /// When the decision was made, milliseconds since the Unix epoch.
    pub timestamp: i64,
    pub hook_type: String,
    pub cwd: String,
    pub matched_session: Option<String>,
    pub new_state: String,
    pub skipped: bool,
    pub skip_reason: Option<String>,
}

/// Mathematical image of a [`HookEvent`].
pub struct HookEventModel {
    pub timestamp: int,
    pub hook_type: Seq<char>,
    pub cwd: Seq<char>,
    pub matched_session: Option<Seq<char>>,
    pub new_state: Seq<char>,
    pub skipped: bool,
    pub skip_reason: Option<Seq<char>>,
}

impl View for HookEvent {
    type V = HookEventModel;

    open spec fn view(&self) -> HookEventModel {
        HookEventModel {
            timestamp: self.timestamp as int,
            hook_type: self.hook_type@,
            cwd: self.cwd@,
            matched_session: match self.matched_session {
                Some(s) => Some(s@),
                None => None,
            },
            new_state: self.new_state@,
            skipped: self.skipped,
            skip_reason: match self.skip_reason {
                Some(s) => Some(s@),
                None => None,
            },
        }
    }
}

/// The timestamp recorded for `id`, if any: first match wins, and marks with
/// unique ids have at most one.
pub open spec fn spec_mark_of(ms: Seq<TimeMark>, id: Seq<char>) -> Option<int>
    decreases ms.len(),
{
    if ms.len() == 0 {
        None
    } else if ms[0].id@ == id {
        Some(ms[0].at_ms as int)
    } else {
        spec_mark_of(ms.skip(1), id)
    }
}

pub open spec fn mark_ids_unique(ms: Seq<TimeMark>) -> bool {
    forall|i: int, j: int| 0 <= i < j < ms.len() ==> ms[i].id@ != ms[j].id@
}

pub open spec fn marks_nonneg(ms: Seq<TimeMark>) -> bool {
    forall|i: int| 0 <= i < ms.len() ==> #[trigger] ms[i].at_ms >= 0
}

proof fn lemma_mark_of_skip(ms: Seq<TimeMark>, id: Seq<char>, i: int)
    requires
        0 <= i <= ms.len(),
        forall|k: int| 0 <= k < i ==> ms[k].id@ != id,
    ensures
        spec_mark_of(ms, id) == spec_mark_of(ms.skip(i), id),
    decreases i,
{
    if i == 0 {
        assert(ms.skip(0) =~= ms);
    } else {
        lemma_mark_of_skip(ms.skip(1), id, i - 1);
        assert(ms.skip(1).skip(i - 1) =~= ms.skip(i));
    }
}

proof fn lemma_mark_of_update_other(ms: Seq<TimeMark>, k: int, nm: TimeMark, q: Seq<char>)
    requires
        0 <= k < ms.len(),
        ms[k].id@ != q,
        nm.id@ != q,
    ensures
        spec_mark_of(ms.update(k, nm), q) == spec_mark_of(ms, q),
    decreases k,
{
    if k == 0 {
        assert(ms.update(0, nm).skip(1) =~= ms.skip(1));
    } else {
        lemma_mark_of_update_other(ms.skip(1), k - 1, nm, q);
        assert(ms.update(k, nm).skip(1) =~= ms.skip(1).update(k - 1, nm));
    }
}

proof fn lemma_mark_of_push_other(ms: Seq<TimeMark>, nm: TimeMark, q: Seq<char>)
    requires
        nm.id@ != q,
    ensures
        spec_mark_of(ms.push(nm), q) == spec_mark_of(ms, q),
    decreases ms.len(),
{
    if ms.len() == 0 {
        assert(ms.push(nm)[0] == nm);
        assert(ms.push(nm).skip(1) =~= Seq::<TimeMark>::empty());
        assert(spec_mark_of(Seq::<TimeMark>::empty(), q) is None);
        assert(spec_mark_of(ms, q) is None);
    } else {
        lemma_mark_of_push_other(ms.skip(1), nm, q);
        assert(ms.push(nm)[0] == ms[0]);
        assert(ms.push(nm).skip(1) =~= ms.skip(1).push(nm));
        if ms[0].id@ == q {
            assert(spec_mark_of(ms.push(nm), q) == Some(ms[0].at_ms as int));
        } else {
            assert(spec_mark_of(ms.push(nm), q) == spec_mark_of(ms.skip(1).push(nm), q));
            assert(spec_mark_of(ms, q) == spec_mark_of(ms.skip(1), q));
        }
    }
}

/// Look a timestamp up by session id.
pub fn get_mark(ms: &Vec<TimeMark>, id: &str) -> (r: Option<i64>)
    ensures
        match r {
            Some(at) => spec_mark_of(ms@, id@) == Some(at as int),
            None => spec_mark_of(ms@, id@) is None,
        },
{
    let mut i: usize = 0;
    while i < ms.len()
        invariant
            i <= ms@.len(),
            forall|k: int| 0 <= k < i ==> ms@[k].id@ != id@,
        decreases ms@.len() - i,
    {
        if str_eq(ms[i].id.as_str(), id) {
            proof {
                lemma_mark_of_skip(ms@, id@, i as int);
                assert(ms@.skip(i as int)[0] == ms@[i as int]);
            }
            return Some(ms[i].at_ms);
        }
        i = i + 1;
    }
    proof {
        lemma_mark_of_skip(ms@, id@, i as int);
        assert(ms@.skip(i as int) =~= Seq::<TimeMark>::empty());
    }
    None
}

/// Record a timestamp for a session id, replacing an earlier one.
pub fn set_mark(ms: &mut Vec<TimeMark>, id: &str, at_ms: i64)
    requires
        mark_ids_unique(old(ms)@),
        marks_nonneg(old(ms)@),
        at_ms >= 0,
    ensures
        mark_ids_unique(final(ms)@),
        marks_nonneg(final(ms)@),
        spec_mark_of(final(ms)@, id@) == Some(at_ms as int),
        forall|q: Seq<char>| q != id@ ==> spec_mark_of(final(ms)@, q) == spec_mark_of(old(ms)@, q),
{
    let nm = TimeMark { id: id.to_owned(), at_ms };
    let mut i: usize = 0;
    while i < ms.len()
        invariant
            i <= ms@.len(),
            ms@ == old(ms)@,
            mark_ids_unique(ms@),
            marks_nonneg(ms@),
            at_ms >= 0,
            nm.id@ == id@,
            nm.at_ms == at_ms,
            forall|k: int| 0 <= k < i ==> ms@[k].id@ != id@,
        decreases ms@.len() - i,
    {
        if str_eq(ms[i].id.as_str(), id) {
            proof {
                let ms2 = ms@.update(i as int, nm);
                assert forall|a: int, b: int| 0 <= a < b < ms2.len() implies ms2[a].id@
                    != ms2[b].id@ by {
                    assert(ms2[a].id@ == ms@[a].id@);
                    assert(ms2[b].id@ == ms@[b].id@);
                }
                assert forall|x: int| 0 <= x < ms2.len() implies #[trigger] ms2[x].at_ms >= 0 by {
                    if x != i {
                        assert(ms2[x] == ms@[x]);
                        assert(ms@[x].at_ms >= 0);
                    }
                }
                lemma_mark_of_skip(ms2, id@, i as int);
                assert(ms2.skip(i as int)[0] == nm);
                assert forall|q: Seq<char>| q != id@ implies spec_mark_of(ms2, q) == spec_mark_of(
                    ms@,
                    q,
                ) by {
                    lemma_mark_of_update_other(ms@, i as int, nm, q);
                }
            }
            ms[i] = nm;
            return ;
        }
        i = i + 1;
    }
    proof {
        let ms2 = ms@.push(nm);
        assert forall|a: int, b: int| 0 <= a < b < ms2.len() implies ms2[a].id@ != ms2[b].id@ by {
            assert(ms2[a] == ms@[a]);
            if b < ms@.len() {
                assert(ms2[b] == ms@[b]);
            } else {
                assert(ms2[b] == nm);
                assert(ms@[a].id@ != id@);
            }
        }
        assert forall|x: int| 0 <= x < ms2.len() implies #[trigger] ms2[x].at_ms >= 0 by {
            if x < ms@.len() {
                assert(ms2[x] == ms@[x]);
                assert(ms@[x].at_ms >= 0);
            } else {
                assert(ms2[x] == nm);
            }
        }
        lemma_mark_of_skip(ms2, id@, ms@.len() as int);
        assert(ms2.skip(ms@.len() as int) =~= seq![nm]);
        assert(seq![nm][0] == nm);
        assert forall|q: Seq<char>| q != id@ implies spec_mark_of(ms2, q) == spec_mark_of(
            ms@,
            q,
        ) by {
            lemma_mark_of_push_other(ms@, nm, q);
        }
    }
    ms.push(nm);
}

/// The index of the session with this id, if one is registered: first match,
/// and with unique ids the only one.
pub open spec fn spec_idx_of(ss: Seq<SessionModel>, id: Seq<char>) -> Option<int>
    decreases ss.len(),
{
    if ss.len() == 0 {
        None
    } else if ss[0].id == id {
        Some(0int)
    } else {
        match spec_idx_of(ss.skip(1), id) {
            Some(k) => Some(k + 1),
            None => None,
        }
    }
}

/// The session registered under this id, if any.
pub open spec fn spec_session_for(ss: Seq<SessionModel>, id: Seq<char>) -> Option<SessionModel> {
    match spec_idx_of(ss, id) {
        Some(k) => Some(ss[k]),
        None => None,
    }
}

/// The (state, pending action) projection of the session registered under
/// this id: what the grace and idempotence laws speak about.
pub open spec fn spec_state_of(ss: Seq<SessionModel>, id: Seq<char>) -> Option<
    (SessionState, Option<PendingActionModel>),
> {
    match spec_session_for(ss, id) {
        Some(s) => Some((s.state, s.pending_action)),
        None => None,
    }
}

pub open spec fn session_ids_unique(ss: Seq<SessionModel>) -> bool {
    forall|i: int, j: int| 0 <= i < j < ss.len() ==> ss[i].id != ss[j].id
}

/// What a found index means: it points at the session with the id, and it is
/// the first such index; `None` means no session carries the id.
pub proof fn lemma_idx_of_props(ss: Seq<SessionModel>, id: Seq<char>)
    ensures
        match spec_idx_of(ss, id) {
            Some(k) => 0 <= k < ss.len() && ss[k].id == id && forall|j: int|
                0 <= j < k ==> ss[j].id != id,
            None => forall|i: int| 0 <= i < ss.len() ==> ss[i].id != id,
        },
    decreases ss.len(),
{
    if ss.len() > 0 {
        lemma_idx_of_props(ss.skip(1), id);
        assert(forall|i: int| 0 <= i < ss.skip(1).len() ==> ss.skip(1)[i] == ss[i + 1]);
        if ss[0].id == id {
            assert(spec_idx_of(ss, id) == Some(0int));
        } else {
            match spec_idx_of(ss.skip(1), id) {
                Some(k) => {
                    assert(spec_idx_of(ss, id) == Some(k + 1));
                    assert(ss[k + 1].id == id);
                    assert forall|j: int| 0 <= j < k + 1 implies ss[j].id != id by {
                        if j > 0 {
                            assert(ss.skip(1)[j - 1].id != id);
                        }
                    }
                },
                None => {
                    assert(spec_idx_of(ss, id) is None);
                    assert forall|i: int| 0 <= i < ss.len() implies ss[i].id != id by {
                        if i > 0 {
                            assert(ss.skip(1)[i - 1] == ss[i]);
                            assert(ss.skip(1)[i - 1].id != id);
                        }
                    }
                },
            }
        }
    }
}

pub proof fn lemma_idx_of_at(ss: Seq<SessionModel>, id: Seq<char>, i: int)
    requires
        0 <= i <= ss.len(),
        forall|k: int| 0 <= k < i ==> ss[k].id != id,
        i < ss.len() ==> ss[i].id == id,
    ensures
        i < ss.len() ==> spec_idx_of(ss, id) == Some(i),
        i == ss.len() ==> spec_idx_of(ss, id) is None,
    decreases i,
{
    if i == 0 {
        if ss.len() > 0 {
        } else {
        }
    } else {
        lemma_idx_of_at(ss.skip(1), id, i - 1);
        assert(ss.skip(1).len() == ss.len() - 1);
        assert(forall|k: int| 0 <= k < i - 1 ==> ss.skip(1)[k] == ss[k + 1]);
        assert(ss[0].id != id);
    }
}

/// Two rows of sessions with the same ids index identically.
pub proof fn lemma_idx_of_same_ids(a: Seq<SessionModel>, b: Seq<SessionModel>, q: Seq<char>)
    requires
        a.len() == b.len(),
        forall|i: int| 0 <= i < a.len() ==> a[i].id == b[i].id,
    ensures
        spec_idx_of(a, q) == spec_idx_of(b, q),
    decreases a.len(),
{
    if a.len() > 0 {
        lemma_idx_of_same_ids(a.skip(1), b.skip(1), q);
        assert(forall|i: int| 0 <= i < a.skip(1).len() ==> a.skip(1)[i] == a[i + 1]);
        assert(forall|i: int| 0 <= i < b.skip(1).len() ==> b.skip(1)[i] == b[i + 1]);
    }
}

pub proof fn lemma_idx_of_push(ss: Seq<SessionModel>, m: SessionModel, q: Seq<char>)
    ensures
        q != m.id ==> spec_idx_of(ss.push(m), q) == spec_idx_of(ss, q),
        (q == m.id && spec_idx_of(ss, q) is None) ==> spec_idx_of(ss.push(m), q) == Some(
            ss.len() as int,
        ),
    decreases ss.len(),
{
    if ss.len() == 0 {
        assert(ss.push(m)[0] == m);
        assert(ss.push(m).skip(1) =~= Seq::<SessionModel>::empty());
        assert(spec_idx_of(Seq::<SessionModel>::empty(), q) is None);
        assert(spec_idx_of(ss, q) is None);
        if q == m.id {
            assert(spec_idx_of(ss.push(m), q) == Some(0int));
        } else {
            assert(spec_idx_of(ss.push(m), q) is None);
        }
    } else {
        lemma_idx_of_push(ss.skip(1), m, q);
        assert(ss.push(m)[0] == ss[0]);
        assert(ss.push(m).skip(1) =~= ss.skip(1).push(m));
        if ss[0].id == q {
            assert(spec_idx_of(ss.push(m), q) == Some(0int));
            assert(spec_idx_of(ss, q) == Some(0int));
        } else {
            assert(spec_idx_of(ss.push(m), q) == match spec_idx_of(ss.skip(1).push(m), q) {
                Some(k) => Some(k + 1),
                None => None,
            });
            assert(spec_idx_of(ss, q) == match spec_idx_of(ss.skip(1), q) {
                Some(k) => Some(k + 1),
                None => None,
            });
        }
    }
}

/// The registry, its timestamp tables and its decision log.
pub struct Registry {
    pub sessions: Vec<C3Session>,
    pub hook_marks: Vec<TimeMark>,
    pub stop_marks: Vec<TimeMark>,
    pub notify_marks: Vec<TimeMark>,
    pub hook_events: Vec<HookEvent>,
}

/// What the decision log holds after appending: the newest entries, capped.
pub open spec fn spec_log_append(log: Seq<HookEventModel>, e: HookEventModel) -> Seq<
    HookEventModel,
> {
    let t = log.push(e);
    if t.len() > DECISION_LOG_CAP {
        t.skip(t.len() - DECISION_LOG_CAP)
    } else {
        t
    }
}

/// The views of a row of sessions.
pub open spec fn smodels_of(ss: Seq<C3Session>) -> Seq<SessionModel> {
    ss.map_values(|s: C3Session| s@)
}

impl Registry {
    /// The registered sessions, as mathematical records.
    pub open spec fn smodels(&self) -> Seq<SessionModel> {
        smodels_of(self.sessions@)
    }

    /// The decision log, as mathematical records.
    pub open spec fn log_models(&self) -> Seq<HookEventModel> {
        self.hook_events@.map_values(|e: HookEvent| e@)
    }

    pub open spec fn hook_mark_of(&self, id: Seq<char>) -> Option<int> {
        spec_mark_of(self.hook_marks@, id)
    }

    pub open spec fn stop_mark_of(&self, id: Seq<char>) -> Option<int> {
        spec_mark_of(self.stop_marks@, id)
    }

    pub open spec fn notify_mark_of(&self, id: Seq<char>) -> Option<int> {
        spec_mark_of(self.notify_marks@, id)
    }

    /// Well-formedness: unique session ids, well-formed records, unique
    /// non-negative marks, bounded log.
    pub open spec fn wf(&self) -> bool {
        &&& session_ids_unique(self.smodels())
        &&& forall|i: int|
            0 <= i < self.smodels().len() ==> session_wf(#[trigger] self.smodels()[i])
        &&& mark_ids_unique(self.hook_marks@) && marks_nonneg(self.hook_marks@)
        &&& mark_ids_unique(self.stop_marks@) && marks_nonneg(self.stop_marks@)
        &&& mark_ids_unique(self.notify_marks@) && marks_nonneg(self.notify_marks@)
        &&& self.hook_events@.len() <= DECISION_LOG_CAP
    }

    /// A session is hook-protected while the grace window has not elapsed
    /// since the last hook write for it.
    pub open spec fn spec_hook_protected(&self, id: Seq<char>, now_ms: int) -> bool {
        match self.hook_mark_of(id) {
            Some(m) => spec_within_window(m, now_ms, HOOK_GRACE_PERIOD_MS as int),
            None => false,
        }
    }

    /// A Stop fired for the session within the grace window.
    pub open spec fn spec_recently_stopped(&self, id: Seq<char>, now_ms: int) -> bool {
        match self.stop_mark_of(id) {
            Some(m) => spec_within_window(m, now_ms, HOOK_GRACE_PERIOD_MS as int),
            None => false,
        }
    }

    /// The debounce guard is open: no notification was delivered for the
    /// session within the debounce window.
    pub open spec fn spec_notify_allowed(&self, id: Seq<char>, now_ms: int) -> bool {
        match self.notify_mark_of(id) {
            Some(m) => !spec_within_window(m, now_ms, NOTIFY_DEBOUNCE_MS as int),
            None => true,
        }
    }

    pub fn new() -> (r: Registry)
        ensures
            r.wf(),
            r.smodels() =~= Seq::<SessionModel>::empty(),
            r.hook_marks@ =~= Seq::<TimeMark>::empty(),
            r.stop_marks@ =~= Seq::<TimeMark>::empty(),
            r.notify_marks@ =~= Seq::<TimeMark>::empty(),
            r.log_models() =~= Seq::<HookEventModel>::empty(),
    {
        Registry {
            sessions: Vec::new(),
            hook_marks: Vec::new(),
            stop_marks: Vec::new(),
            notify_marks: Vec::new(),
            hook_events: Vec::new(),
        }
    }

    /// Index of the session registered under `id`, if any.
    pub fn find_session(&self, id: &str) -> (r: Option<usize>)
        ensures
            match r {
                Some(i) => i < self.sessions@.len() && spec_idx_of(self.smodels(), id@) == Some(
                    i as int,
                ) && self.smodels()[i as int].id == id@,
                None => spec_idx_of(self.smodels(), id@) is None,
            },
    {
        let mut i: usize = 0;
        while i < self.sessions.len()
            invariant
                i <= self.sessions@.len(),
                forall|k: int| 0 <= k < i ==> self.smodels()[k].id != id@,
            decreases self.sessions@.len() - i,
        {
            if str_eq(self.sessions[i].id.as_str(), id) {
                proof {
                    lemma_idx_of_at(self.smodels(), id@, i as int);
                }
                return Some(i);
            }
            i = i + 1;
        }
        proof {
            lemma_idx_of_at(self.smodels(), id@, i as int);
        }
        None
    }

    /// Snapshot of the session registered under `id`.
    pub fn get(&self, id: &str) -> (r: Option<C3Session>)
        ensures
            match r {
                Some(s) => spec_session_for(self.smodels(), id@) == Some(s@),
                None => spec_session_for(self.smodels(), id@) is None,
            },
    {
        match self.find_session(id) {
            Some(i) => Some(self.sessions[i].clone()),
            None => None,
        }
    }

    /// Snapshot of all sessions, in registration order.
    pub fn list(&self) -> (r: Vec<C3Session>)
        ensures
            smodels_of(r@) == self.smodels(),
    {
        let mut r: Vec<C3Session> = Vec::new();
        let mut i: usize = 0;
        while i < self.sessions.len()
            invariant
                i <= self.sessions@.len(),
                smodels_of(r@) =~= self.smodels().take(i as int),
            decreases self.sessions@.len() - i,
        {
            let ghost oldr = r@;
            let c = self.sessions[i].clone();
            let ghost cm = c@;
            proof {
                assert(cm == self.smodels()[i as int]);
            }
            r.push(c);
            proof {
                assert(r@.len() == oldr.len() + 1);
                assert(smodels_of(oldr).len() == oldr.len());
                assert(self.smodels().len() == self.sessions@.len());
                assert(self.smodels().take(i as int).len() == i as int);
                assert(oldr.len() == i as int);
                assert forall|j: int| 0 <= j < r@.len() implies smodels_of(r@)[j]
                    == self.smodels().take(i + 1 as int)[j] by {
                    assert(smodels_of(r@)[j] == r@[j]@);
                    if j < i {
                        assert(r@[j] == oldr[j]);
                        assert(smodels_of(oldr)[j] == self.smodels().take(i as int)[j]);
                        assert(smodels_of(oldr)[j] == oldr[j]@);
                        assert(self.smodels().take(i as int)[j] == self.smodels()[j]);
                        assert(self.smodels().take(i + 1 as int)[j] == self.smodels()[j]);
                    } else {
                        assert(r@[j]@ == cm);
                        assert(self.smodels().take(i + 1 as int)[j] == self.smodels()[j]);
                    }
                }
                assert(smodels_of(r@) =~= self.smodels().take(i + 1 as int));
            }
            i = i + 1;
        }
        proof {
            assert(self.smodels().take(self.sessions@.len() as int) =~= self.smodels());
        }
        r
    }

    /// Write a record: replace the session with the same id, or register a
    /// new one. An atomic replacement — readers never see a partial record.
    pub fn upsert(&mut self, s: C3Session)
        requires
            old(self).wf(),
            session_wf(s@),
        ensures
            final(self).wf(),
            match spec_idx_of(old(self).smodels(), s@.id) {
                Some(k) => final(self).smodels() == old(self).smodels().update(k, s@),
                None => final(self).smodels() == old(self).smodels().push(s@),
            },
            spec_session_for(final(self).smodels(), s@.id) == Some(s@),
            forall|q: Seq<char>|
                q != s@.id ==> spec_session_for(final(self).smodels(), q) == spec_session_for(
                    old(self).smodels(),
                    q,
                ),
            final(self).hook_marks@ == old(self).hook_marks@,
            final(self).stop_marks@ == old(self).stop_marks@,
            final(self).notify_marks@ == old(self).notify_marks@,
            final(self).log_models() == old(self).log_models(),
    {
        let ghost oldm = self.smodels();
        match self.find_session(s.id.as_str()) {
            Some(k) => {
                let ghost sm = s@;
                self.sessions[k] = s;
                proof {
                    assert(self.smodels() =~= oldm.update(k as int, sm));
                    lemma_idx_of_same_ids(self.smodels(), oldm, sm.id);
                    assert forall|q: Seq<char>| q != sm.id implies spec_session_for(
                        self.smodels(),
                        q,
                    ) == spec_session_for(oldm, q) by {
                        lemma_idx_of_same_ids(self.smodels(), oldm, q);
                        lemma_idx_of_props(oldm, q);
                        match spec_idx_of(oldm, q) {
                            Some(j) => {
                                assert(oldm[j].id == q);
                                assert(oldm[k as int].id == sm.id);
                                assert(j != k as int);
                            },
                            None => {},
                        }
                    }
                }
            },
            None => {
                let ghost sm = s@;
                self.sessions.push(s);
                proof {
                    assert(self.smodels() =~= oldm.push(sm));
                    lemma_idx_of_push(oldm, sm, sm.id);
                    assert(self.smodels()[oldm.len() as int] == sm);
                    assert forall|q: Seq<char>| q != sm.id implies spec_session_for(
                        self.smodels(),
                        q,
                    ) == spec_session_for(oldm, q) by {
                        lemma_idx_of_push(oldm, sm, q);
                        lemma_idx_of_props(oldm, q);
                    }
                    assert forall|i: int, j: int|
                        0 <= i < j < self.smodels().len() implies self.smodels()[i].id
                        != self.smodels()[j].id by {
                        lemma_idx_of_props(oldm, sm.id);
                    }
                }
            },
        }
    }

    /// Drop the session registered under `id`, if any. Timestamp tables are
    /// left alone; stale marks expire by themselves.
    pub fn remove(&mut self, id: &str) -> (removed: bool)
        requires
            old(self).wf(),
        ensures
            final(self).wf(),
            match spec_idx_of(old(self).smodels(), id@) {
                Some(k) => removed && final(self).smodels() == old(self).smodels().remove(k),
                None => !removed && final(self).smodels() == old(self).smodels(),
            },
            final(self).hook_marks@ == old(self).hook_marks@,
            final(self).stop_marks@ == old(self).stop_marks@,
            final(self).notify_marks@ == old(self).notify_marks@,
            final(self).log_models() == old(self).log_models(),
    {
        let ghost oldm = self.smodels();
        match self.find_session(id) {
            Some(k) => {
                self.sessions.remove(k);
                proof {
                    assert(self.smodels() =~= oldm.remove(k as int));
                }
                true
            },
            None => false,
        }
    }

    /// Record that a hook just wrote this session.
    pub fn mark_hook_touched(&mut self, id: &str, now_ms: i64)
        requires
            old(self).wf(),
            now_ms >= 0,
        ensures
            final(self).wf(),
            final(self).hook_mark_of(id@) == Some(now_ms as int),
            forall|q: Seq<char>|
                q != id@ ==> spec_mark_of(final(self).hook_marks@, q) == spec_mark_of(
                    old(self).hook_marks@,
                    q,
                ),
            final(self).smodels() == old(self).smodels(),
            final(self).stop_marks@ == old(self).stop_marks@,
            final(self).notify_marks@ == old(self).notify_marks@,
            final(self).log_models() == old(self).log_models(),
    {
        set_mark(&mut self.hook_marks, id, now_ms);
    }

    /// Is the session still inside the hook grace window?
    pub fn is_hook_protected(&self, id: &str, now_ms: i64) -> (r: bool)
        requires
            self.wf(),
            now_ms >= 0,
        ensures
            r == self.spec_hook_protected(id@, now_ms as int),
    {
        match get_mark(&self.hook_marks, id) {
            Some(at) => {
                proof {
                    lemma_mark_nonneg(self.hook_marks@, id@);
                }
                within_window(at, now_ms, HOOK_GRACE_PERIOD_MS)
            },
            None => false,
        }
    }

    /// Record that a Stop hook fired for this session.
    pub fn mark_stopped(&mut self, id: &str, now_ms: i64)
        requires
            old(self).wf(),
            now_ms >= 0,
        ensures
            final(self).wf(),
            final(self).stop_mark_of(id@) == Some(now_ms as int),
            forall|q: Seq<char>|
                q != id@ ==> spec_mark_of(final(self).stop_marks@, q) == spec_mark_of(
                    old(self).stop_marks@,
                    q,
                ),
            final(self).smodels() == old(self).smodels(),
            final(self).hook_marks@ == old(self).hook_marks@,
            final(self).notify_marks@ == old(self).notify_marks@,
            final(self).log_models() == old(self).log_models(),
    {
        set_mark(&mut self.stop_marks, id, now_ms);
    }

    /// Did a Stop fire for the session within the grace window?
    pub fn is_recently_stopped(&self, id: &str, now_ms: i64) -> (r: bool)
        requires
            self.wf(),
            now_ms >= 0,
        ensures
            r == self.spec_recently_stopped(id@, now_ms as int),
    {
        match get_mark(&self.stop_marks, id) {
            Some(at) => {
                proof {
                    lemma_mark_nonneg(self.stop_marks@, id@);
                }
                within_window(at, now_ms, HOOK_GRACE_PERIOD_MS)
            },
            None => false,
        }
    }

    /// The notification dispatch guard. The first request for a session is
    /// allowed; a later one within the debounce window is suppressed without
    /// touching the record, so the window self-heals. On `true` the request
    /// counts as delivered now.
    pub fn should_notify(&mut self, id: &str, now_ms: i64) -> (r: bool)
        requires
            old(self).wf(),
            now_ms >= 0,
        ensures
            final(self).wf(),
            r == old(self).spec_notify_allowed(id@, now_ms as int),
            r ==> final(self).notify_mark_of(id@) == Some(now_ms as int) && forall|q: Seq<char>|
                q != id@ ==> spec_mark_of(final(self).notify_marks@, q) == spec_mark_of(
                    old(self).notify_marks@,
                    q,
                ),
            !r ==> final(self).notify_marks@ == old(self).notify_marks@,
            final(self).smodels() == old(self).smodels(),
            final(self).hook_marks@ == old(self).hook_marks@,
            final(self).stop_marks@ == old(self).stop_marks@,
            final(self).log_models() == old(self).log_models(),
    {
        let allowed = match get_mark(&self.notify_marks, id) {
            Some(at) => {
                proof {
                    lemma_mark_nonneg(self.notify_marks@, id@);
                }
                !within_window(at, now_ms, NOTIFY_DEBOUNCE_MS)
            },
            None => true,
        };
        if allowed {
            set_mark(&mut self.notify_marks, id, now_ms);
        }
        allowed
    }

    /// Append a decision-log entry, keeping only the newest
    /// [`DECISION_LOG_CAP`] entries.
    pub fn log_hook_event(&mut self, e: HookEvent)
        requires
            old(self).wf(),
        ensures
            final(self).wf(),
            final(self).log_models() == spec_log_append(old(self).log_models(), e@),
            final(self).smodels() == old(self).smodels(),
            final(self).hook_marks@ == old(self).hook_marks@,
            final(self).stop_marks@ == old(self).stop_marks@,
            final(self).notify_marks@ == old(self).notify_marks@,
    {
        let ghost oldl = self.log_models();
        let ghost em = e@;
        if self.hook_events.len() >= DECISION_LOG_CAP {
            self.hook_events.remove(0);
            proof {
                assert(self.log_models() =~= oldl.skip(1));
            }
        }
        self.hook_events.push(e);
        proof {
            if oldl.len() >= DECISION_LOG_CAP {
                assert(self.log_models() =~= oldl.skip(1).push(em));
                assert(spec_log_append(oldl, em) =~= oldl.skip(1).push(em));
            } else {
                assert(self.log_models() =~= oldl.push(em));
            }
        }
    }
}

proof fn lemma_mark_nonneg(ms: Seq<TimeMark>, id: Seq<char>)
    requires
        marks_nonneg(ms),
    ensures
        match spec_mark_of(ms, id) {
            Some(at) => at >= 0,
            None => true,
        },
    decreases ms.len(),
{
    if ms.len() > 0 {
        assert(ms[0].at_ms >= 0);
        lemma_mark_nonneg(ms.skip(1), id);
        assert(forall|i: int| 0 <= i < ms.skip(1).len() ==> ms.skip(1)[i] == ms[i + 1]);
    }
}

/// Law: a notify request recorded at `t1` silences any further request for
/// the same session until the debounce window has elapsed — two requests
/// within the window deliver exactly once.
pub proof fn lemma_notify_debounce(r: Registry, id: Seq<char>, t1: int, t2: int)
    requires
        r.notify_mark_of(id) == Some(t1),
        t1 <= t2 < t1 + NOTIFY_DEBOUNCE_MS,
    ensures
        !r.spec_notify_allowed(id, t2),
{
}

} // verus!

verus! {

/// Law: in a well-formed registry a session carries a pending action only
/// while its state waits on the user. (Membership of the state in the
/// defined set holds by typing.)
pub proof fn lemma_pending_only_while_waiting(r: Registry, id: Seq<char>)
    requires
        r.wf(),
    ensures
        match spec_session_for(r.smodels(), id) {
            Some(s) => s.pending_action is Some ==> s.state.allows_pending_action(),
            None => true,
        },
{
    lemma_idx_of_props(r.smodels(), id);
}

} // verus!

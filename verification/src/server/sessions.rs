//! Robot-mode sessions: a random hex id, a work directory holding the uploaded
//! package (`<root>/<id>/robot`) and an output directory (`<root>/<id>/out`),
//! and an inactivity TTL enforced by a sweep at the start of every robot
//! endpoint. Times are nanoseconds of one clock.

use vstd::prelude::*;

use crate::inspect;
use crate::inspect::{InspectionReport, ReportView};
use crate::py_repr;
use crate::server::error;
use crate::server::error::{ApiError, ApiErrorView};
use crate::text;

verus! {

/// One robot-mode session.
#[derive(Debug)]
pub struct RobotSession {
    pub id: String,
    pub work_dir: String,
    pub output_dir: String,
    pub report: Option<InspectionReport>,
    pub last_access: u128,
    /// Cached `/api/robot/mesh-stats` response body.
    pub mesh_stats: Option<String>,
}

/// The contents of a [`RobotSession`].
#[verifier::ext_equal]
pub struct SessionView {
    pub id: Seq<char>,
    pub work_dir: Seq<char>,
    pub output_dir: Seq<char>,
    pub report: Option<ReportView>,
    pub last_access: int,
    pub mesh_stats: Option<Seq<char>>,
}

/// The contents of an optional report.
pub open spec fn report_view(r: Option<InspectionReport>) -> Option<ReportView> {
    match r {
        Some(x) => Some(x@),
        None => None,
    }
}

impl View for RobotSession {
    type V = SessionView;

    open spec fn view(&self) -> SessionView {
        SessionView {
            id: self.id@,
            work_dir: self.work_dir@,
            output_dir: self.output_dir@,
            report: report_view(self.report),
            last_access: self.last_access as int,
            mesh_stats: text::opt_text(self.mesh_stats),
        }
    }
}

/// The directory that holds everything of the session `id`.
pub open spec fn base_of(root: Seq<char>, id: Seq<char>) -> Seq<char> {
    inspect::path_join(root, id)
}

/// A session that was just made.
pub open spec fn new_session(root: Seq<char>, id: Seq<char>, now: int) -> SessionView {
    SessionView {
        id,
        work_dir: inspect::path_join(base_of(root, id), "robot"@),
        output_dir: inspect::path_join(base_of(root, id), "out"@),
        report: None,
        last_access: now,
        mesh_stats: None,
    }
}

/// Whether a session has been idle for longer than `ttl`.
pub open spec fn is_expired(s: SessionView, now: int, ttl: int) -> bool {
    now - s.last_access > ttl
}

/// The sessions that stay in a sweep.
pub open spec fn stays(now: int, ttl: int) -> spec_fn(SessionView) -> bool {
    |s: SessionView| !is_expired(s, now, ttl)
}

/// The sessions that a sweep drops.
pub open spec fn drops(now: int, ttl: int) -> spec_fn(SessionView) -> bool {
    |s: SessionView| is_expired(s, now, ttl)
}

/// The sessions with another id.
pub open spec fn other_than(id: Seq<char>) -> spec_fn(SessionView) -> bool {
    |s: SessionView| s.id != id
}

/// The sessions after a sweep.
pub open spec fn swept(v: Seq<SessionView>, now: int, ttl: int) -> Seq<SessionView> {
    v.filter(stays(now, ttl))
}

/// The sessions without the one called `id`.
pub open spec fn without(v: Seq<SessionView>, id: Seq<char>) -> Seq<SessionView> {
    v.filter(other_than(id))
}

/// The sessions with a new one called `id`.
pub open spec fn with_session(
    v: Seq<SessionView>,
    root: Seq<char>,
    id: Seq<char>,
    now: int,
) -> Seq<SessionView> {
    without(v, id).push(new_session(root, id, now))
}

/// Where the session `id` is listed, at or after `i`.
pub open spec fn place_of(v: Seq<SessionView>, id: Seq<char>, i: int) -> Option<int>
    decreases v.len() - i,
{
    if 0 <= i < v.len() {
        if v[i].id == id {
            Some(i)
        } else {
            place_of(v, id, i + 1)
        }
    } else {
        None
    }
}

/// The session called `id`.
pub open spec fn find(v: Seq<SessionView>, id: Seq<char>) -> Option<SessionView> {
    match place_of(v, id, 0) {
        Some(i) => Some(v[i]),
        None => None,
    }
}

/// Whether a session called `id` is there and not expired.
pub open spec fn is_live(v: Seq<SessionView>, id: Seq<char>, now: int, ttl: int) -> bool {
    find(v, id) matches Some(s) && !is_expired(s, now, ttl)
}

/// The sessions after the one called `id` was used.
pub open spec fn touched(v: Seq<SessionView>, id: Seq<char>, now: int) -> Seq<SessionView> {
    match place_of(v, id, 0) {
        Some(i) => v.update(i, SessionView { last_access: now, ..v[i] }),
        None => v,
    }
}

/// The sessions after a report was stored for the one called `id`.
pub open spec fn with_report(v: Seq<SessionView>, id: Seq<char>, report: ReportView) -> Seq<
    SessionView,
> {
    match place_of(v, id, 0) {
        Some(i) => v.update(i, SessionView { report: Some(report), ..v[i] }),
        None => v,
    }
}

/// The sessions after mesh statistics were stored for the one called `id`.
pub open spec fn with_stats(v: Seq<SessionView>, id: Seq<char>, body: Seq<char>) -> Seq<SessionView> {
    match place_of(v, id, 0) {
        Some(i) => v.update(i, SessionView { mesh_stats: Some(body), ..v[i] }),
        None => v,
    }
}

/// The 404 reply for a session that is not there.
pub open spec fn gone_reply(id: Seq<char>) -> ApiErrorView {
    error::reply(404, "session "@ + crate::repr(id) + " not found or expired"@)
}

/// The contents of a list of sessions.
pub open spec fn session_views(v: Seq<RobotSession>) -> Seq<SessionView> {
    v.map_values(|s: RobotSession| s@)
}

/// No id is used twice.
pub open spec fn distinct_ids(v: Seq<SessionView>) -> bool {
    forall|i: int, j: int| 0 <= i < j < v.len() ==> (#[trigger] v[i]).id != (#[trigger] v[j]).id
}

/// A lower-case hexadecimal digit.
pub open spec fn is_hex(c: char) -> bool {
    '0' <= c <= '9' || 'a' <= c <= 'f'
}

/// `uuid::Uuid::new_v4` in its simple form: a random id of 32 lower-case
/// hexadecimal digits. Which one comes is not stated.
#[verifier::external_body]
fn random_id() -> (out: String)
    ensures
        out@.len() == 32,
        forall|i: int| 0 <= i < 32 ==> is_hex(#[trigger] out@[i]),
{
    uuid::Uuid::new_v4().simple().to_string()
}

/// A new id and the directories that belong to it.
#[derive(Debug)]
pub struct SessionDirs {
    pub id: String,
    pub work_dir: String,
    pub output_dir: String,
}

/// All sessions of a process.
#[derive(Debug)]
pub struct SessionStore {
    root: String,
    ttl: u128,
    sessions: Vec<RobotSession>,
}

/// Where the session `id` is listed.
fn place(sessions: &[RobotSession], id: &str) -> (at: Option<usize>)
    ensures
        text::opt_int(at) == place_of(session_views(sessions@), id@, 0),
        at is Some ==> at->0 < sessions@.len(),
{
    let ghost v = session_views(sessions@);
    let mut i: usize = 0;
    while i < sessions.len()
        invariant
            i <= sessions@.len(),
            v == session_views(sessions@),
            place_of(v, id@, 0) == place_of(v, id@, i as int),
        decreases sessions@.len() - i,
    {
        assert(v[i as int] == sessions@[i as int]@);
        if text::same(sessions[i].id.as_str(), id) {
            return Some(i);
        }
        i = i + 1;
    }
    None
}

proof fn lemma_place(v: Seq<SessionView>, id: Seq<char>, i: int)
    requires
        0 <= i <= v.len(),
    ensures
        match place_of(v, id, i) {
            Some(k) => i <= k < v.len() && v[k].id == id && forall|j: int|
                i <= j < k ==> (#[trigger] v[j]).id != id,
            None => forall|j: int| i <= j < v.len() ==> (#[trigger] v[j]).id != id,
        },
    decreases v.len() - i,
{
    if i < v.len() && v[i].id != id {
        lemma_place(v, id, i + 1);
    }
}

proof fn lemma_filter_step(v: Seq<SessionView>, k: int, keep: spec_fn(SessionView) -> bool)
    requires
        0 <= k < v.len(),
    ensures
        v.take(k + 1).filter(keep) == if keep(v[k]) {
            v.take(k).filter(keep).push(v[k])
        } else {
            v.take(k).filter(keep)
        },
{
    reveal(Seq::filter);
    assert(v.take(k + 1).drop_last() =~= v.take(k));
}

proof fn lemma_filter_distinct(v: Seq<SessionView>, keep: spec_fn(SessionView) -> bool)
    requires
        distinct_ids(v),
    ensures
        distinct_ids(v.filter(keep)),
        forall|j: int|
            0 <= j < v.filter(keep).len() ==> keep(#[trigger] v.filter(keep)[j]) && v.contains(
                v.filter(keep)[j],
            ),
    decreases v.len(),
{
    reveal(Seq::filter);
    if v.len() > 0 {
        let w = v.drop_last();
        assert(distinct_ids(w));
        lemma_filter_distinct(w, keep);
        let f = w.filter(keep);
        assert forall|j: int| 0 <= j < v.filter(keep).len() implies keep(
            #[trigger] v.filter(keep)[j],
        ) && v.contains(v.filter(keep)[j]) by {
            if j < f.len() {
                assert(v.filter(keep)[j] == f[j]);
                let k = choose|k: int| 0 <= k < w.len() && w[k] == f[j];
                assert(v[k] == f[j]);
            } else {
                assert(v[v.len() - 1] == v.last());
            }
        }
        if keep(v.last()) {
            assert forall|i: int, j: int|
                0 <= i < j < v.filter(keep).len() implies (#[trigger] v.filter(keep)[i]).id != (
            #[trigger] v.filter(keep)[j]).id by {
                if j == f.len() {
                    assert(w.contains(f[i]));
                    let k = choose|k: int| 0 <= k < w.len() && w[k] == f[i];
                    assert(v[k].id != v[v.len() - 1].id);
                }
            }
        }
    }
}

impl SessionStore {
    /// Where the sessions keep their files.
    pub closed spec fn root(&self) -> Seq<char> {
        self.root@
    }

    /// Idle time after which a session is dropped.
    pub closed spec fn ttl(&self) -> int {
        self.ttl as int
    }

    /// The sessions.
    pub closed spec fn all(&self) -> Seq<SessionView> {
        session_views(self.sessions@)
    }

    #[verifier::type_invariant]
    spec fn well_formed(&self) -> bool {
        distinct_ids(session_views(self.sessions@))
    }

    /// A store without sessions.
    pub fn new(root: &str, ttl: u128) -> (out: SessionStore)
        ensures
            out.root() == root@,
            out.ttl() == ttl,
            out.all() == Seq::<SessionView>::empty(),
    {
        let out = SessionStore { root: String::from_str(root), ttl, sessions: Vec::new() };
        assert(out.all() =~= Seq::<SessionView>::empty());
        out
    }

    /// Where the sessions keep their files.
    pub fn root_dir(&self) -> (out: &str)
        ensures
            out@ == self.root(),
    {
        self.root.as_str()
    }

    /// Drop sessions idle for longer than the TTL; the directories to delete.
    pub fn gc(&mut self, now: u128) -> (out: Vec<String>)
        ensures
            final(self).root() == old(self).root(),
            final(self).ttl() == old(self).ttl(),
            final(self).all() == swept(old(self).all(), now as int, old(self).ttl()),
            text::texts(out@) == old(self).all().filter(
                drops(now as int, old(self).ttl()),
            ).map_values(|s: SessionView| base_of(old(self).root(), s.id)),
    {
        proof {
            use_type_invariant(&*self);
        }
        let mut taken = SessionStore::new("", 0);
        std::mem::swap(self, &mut taken);
        let SessionStore { root, ttl, sessions } = taken;
        let mut sessions = sessions;
        let ghost v = session_views(sessions@);
        let ghost keep = stays(now as int, ttl as int);
        let ghost gone = drops(now as int, ttl as int);
        let ghost base = |s: SessionView| base_of(root@, s.id);
        let mut out: Vec<String> = Vec::new();
        let mut i: usize = 0;
        let ghost mut k: int = 0;
        proof {
            reveal(Seq::filter);
            assert(v.take(0) =~= Seq::empty());
            assert(session_views(sessions@).take(0) =~= v.take(0).filter(keep));
            assert(text::texts(out@) =~= v.take(0).filter(gone).map_values(base));
            assert(v.skip(0) =~= session_views(sessions@).skip(0));
        }
        while i < sessions.len()
            invariant
                i <= sessions@.len(),
                0 <= k <= v.len(),
                keep == stays(now as int, ttl as int),
                gone == drops(now as int, ttl as int),
                base == (|s: SessionView| base_of(root@, s.id)),
                sessions@.len() - i == v.len() - k,
                session_views(sessions@).take(i as int) == v.take(k).filter(keep),
                session_views(sessions@).skip(i as int) == v.skip(k),
                text::texts(out@) == v.take(k).filter(gone).map_values(base),
            decreases sessions@.len() - i,
        {
            let ghost w = session_views(sessions@);
            proof {
                assert(w.skip(i as int)[0] == v.skip(k)[0]);
                assert(w[i as int] == v[k] && w[i as int] == sessions@[i as int]@);
                lemma_filter_step(v, k, keep);
                lemma_filter_step(v, k, gone);
            }
            let last: u128 = sessions[i].last_access;
            if now > last && now - last > ttl {
                let s = sessions.remove(i);
                let ghost seen = out@;
                out.push(inspect::join_path(root.as_str(), s.id.as_str()));
                proof {
                    assert(session_views(sessions@) =~= w.remove(i as int));
                    assert(w.remove(i as int).take(i as int) =~= w.take(i as int));
                    assert(w.remove(i as int).skip(i as int) =~= w.skip(i as int).skip(1));
                    assert(v.skip(k).skip(1) =~= v.skip(k + 1));
                    assert(text::texts(out@) =~= text::texts(seen).push(base(v[k])));
                    assert(v.take(k).filter(gone).push(v[k]).map_values(base) =~= v.take(k).filter(
                        gone,
                    ).map_values(base).push(base(v[k])));
                }
            } else {
                proof {
                    assert(w.take(i + 1) =~= w.take(i as int).push(w[i as int]));
                    assert(w.skip(i + 1) =~= w.skip(i as int).skip(1));
                    assert(v.skip(k).skip(1) =~= v.skip(k + 1));
                }
                i = i + 1;
            }
            proof {
                k = k + 1;
            }
        }
        proof {
            assert(session_views(sessions@).take(i as int) =~= session_views(sessions@));
            assert(v.take(k) =~= v);
            lemma_filter_distinct(v, keep);
        }
        *self = SessionStore { root, ttl, sessions };
        out
    }

    /// A new random id, with its work and output directories.
    pub fn next_session(&self) -> (out: SessionDirs)
        ensures
            out.id@.len() == 32,
            forall|i: int| 0 <= i < 32 ==> is_hex(#[trigger] out.id@[i]),
            out.work_dir@ == new_session(self.root(), out.id@, 0).work_dir,
            out.output_dir@ == new_session(self.root(), out.id@, 0).output_dir,
    {
        let id = random_id();
        let base = inspect::join_path(self.root.as_str(), id.as_str());
        SessionDirs {
            id,
            work_dir: inspect::join_path(base.as_str(), "robot"),
            output_dir: inspect::join_path(base.as_str(), "out"),
        }
    }

    /// A fresh session called `id`.
    pub fn create(&mut self, id: &str, now: u128)
        ensures
            final(self).root() == old(self).root(),
            final(self).ttl() == old(self).ttl(),
            final(self).all() == with_session(old(self).all(), old(self).root(), id@, now as int),
    {
        self.remove(id);
        proof {
            use_type_invariant(&*self);
        }
        let mut taken = SessionStore::new("", 0);
        std::mem::swap(self, &mut taken);
        let SessionStore { root, ttl, sessions } = taken;
        let mut sessions = sessions;
        let ghost v = session_views(sessions@);
        let base = inspect::join_path(root.as_str(), id);
        let s = RobotSession {
            id: String::from_str(id),
            work_dir: inspect::join_path(base.as_str(), "robot"),
            output_dir: inspect::join_path(base.as_str(), "out"),
            report: None,
            last_access: now,
            mesh_stats: None,
        };
        assert(s@ == new_session(root@, id@, now as int));
        sessions.push(s);
        assert(session_views(sessions@) =~= v.push(new_session(root@, id@, now as int)));
        *self = SessionStore { root, ttl, sessions };
    }

    /// Forget a session; the directory to delete.
    pub fn remove(&mut self, id: &str) -> (out: Option<String>)
        ensures
            final(self).root() == old(self).root(),
            final(self).ttl() == old(self).ttl(),
            final(self).all() == without(old(self).all(), id@),
            forall|i: int| 0 <= i < final(self).all().len() ==> (#[trigger] final(self).all()[i]).id != id@,
            text::opt_text(out) == match find(old(self).all(), id@) {
                Some(s) => Some(base_of(old(self).root(), id@)),
                None => None,
            },
    {
        proof {
            use_type_invariant(&*self);
        }
        let mut taken = SessionStore::new("", 0);
        std::mem::swap(self, &mut taken);
        let SessionStore { root, ttl, sessions } = taken;
        let mut sessions = sessions;
        let ghost v = session_views(sessions@);
        proof {
            lemma_place(v, id@, 0);
            lemma_filter_distinct(v, other_than(id@));
        }
        let out = match place(&sessions, id) {
            Some(i) => {
                sessions.remove(i);
                proof {
                    assert(session_views(sessions@) =~= v.remove(i as int));
                    lemma_remove_is_filter(v, id@, i as int);
                }
                Some(inspect::join_path(root.as_str(), id))
            },
            None => {
                proof {
                    crate::paths::lemma_filter_all(v, other_than(id@));
                }
                None
            },
        };
        *self = SessionStore { root, ttl, sessions };
        out
    }

    /// Forget every session; the directories to delete.
    pub fn clear(&mut self) -> (out: Vec<String>)
        ensures
            final(self).root() == old(self).root(),
            final(self).ttl() == old(self).ttl(),
            final(self).all() == Seq::<SessionView>::empty(),
            text::texts(out@) == old(self).all().map_values(
                |s: SessionView| base_of(old(self).root(), s.id),
            ),
    {
        let mut taken = SessionStore::new("", 0);
        std::mem::swap(self, &mut taken);
        let SessionStore { root, ttl, sessions } = taken;
        let ghost v = session_views(sessions@);
        let ghost base = |s: SessionView| base_of(root@, s.id);
        let mut out: Vec<String> = Vec::new();
        let mut i: usize = 0;
        while i < sessions.len()
            invariant
                i <= sessions@.len(),
                v == session_views(sessions@),
                base == (|s: SessionView| base_of(root@, s.id)),
                out@.len() == i,
                forall|j: int| 0 <= j < i ==> (#[trigger] out@[j])@ == base(v[j]),
            decreases sessions@.len() - i,
        {
            assert(v[i as int] == sessions@[i as int]@);
            out.push(inspect::join_path(root.as_str(), sessions[i].id.as_str()));
            i = i + 1;
        }
        assert(text::texts(out@) =~= v.map_values(base));
        let left: Vec<RobotSession> = Vec::new();
        assert(session_views(left@) =~= Seq::<SessionView>::empty());
        *self = SessionStore { root, ttl, sessions: left };
        out
    }

    /// Look a session up and refresh its TTL; 404 when unknown or expired, and then
    /// nothing changes.
    pub fn get(&mut self, id: &str, now: u128) -> (res: Result<(), ApiError>)
        ensures
            final(self).root() == old(self).root(),
            final(self).ttl() == old(self).ttl(),
            match res {
                Ok(()) => is_live(old(self).all(), id@, now as int, old(self).ttl())
                    && final(self).all() == touched(old(self).all(), id@, now as int),
                Err(e) => !is_live(old(self).all(), id@, now as int, old(self).ttl())
                    && final(self).all() == old(self).all() && e@ == gone_reply(id@),
            },
    {
        proof {
            use_type_invariant(&*self);
        }
        let at = match place(&self.sessions, id) {
            Some(i) => {
                assert(self.all()[i as int] == self.sessions@[i as int]@);
                let last: u128 = self.sessions[i].last_access;
                if now > last && now - last > self.ttl {
                    None
                } else {
                    Some(i)
                }
            },
            None => None,
        };
        match at {
            Some(i) => {
                let mut taken = SessionStore::new("", 0);
                std::mem::swap(self, &mut taken);
                let SessionStore { root, ttl, sessions } = taken;
                let mut sessions = sessions;
                let ghost v = session_views(sessions@);
                let mut s = sessions.remove(i);
                s.last_access = now;
                sessions.insert(i, s);
                proof {
                    assert(session_views(sessions@) =~= v.update(
                        i as int,
                        SessionView { last_access: now as int, ..v[i as int] },
                    ));
                    lemma_same_ids(v, session_views(sessions@));
                }
                *self = SessionStore { root, ttl, sessions };
                Ok(())
            },
            None => {
                let mut m = String::from_str("session ");
                m.append(py_repr(id).as_str());
                m.append(" not found or expired");
                Err(ApiError::not_found(m.as_str()))
            },
        }
    }

    /// Look a session up without touching its TTL.
    pub fn peek(&self, id: &str) -> (out: Option<&RobotSession>)
        ensures
            match out {
                Some(s) => find(self.all(), id@) == Some(s@),
                None => find(self.all(), id@) is None,
            },
            distinct_ids(self.all()),
    {
        proof {
            use_type_invariant(self);
        }
        match place(&self.sessions, id) {
            Some(i) => Some(&self.sessions[i]),
            None => None,
        }
    }

    /// Store the report of a session.
    pub fn set_report(&mut self, id: &str, report: InspectionReport)
        ensures
            final(self).root() == old(self).root(),
            final(self).ttl() == old(self).ttl(),
            final(self).all() == with_report(old(self).all(), id@, report@),
    {
        proof {
            use_type_invariant(&*self);
        }
        match place(&self.sessions, id) {
            Some(i) => {
                let mut taken = SessionStore::new("", 0);
                std::mem::swap(self, &mut taken);
                let SessionStore { root, ttl, sessions } = taken;
                let mut sessions = sessions;
                let ghost v = session_views(sessions@);
                let ghost r = report@;
                let mut s = sessions.remove(i);
                s.report = Some(report);
                sessions.insert(i, s);
                proof {
                    assert(session_views(sessions@) =~= v.update(
                        i as int,
                        SessionView { report: Some(r), ..v[i as int] },
                    ));
                    lemma_same_ids(v, session_views(sessions@));
                }
                *self = SessionStore { root, ttl, sessions };
            },
            None => {},
        }
    }

    /// Store the mesh statistics of a session.
    pub fn cache_mesh_stats(&mut self, id: &str, body: &str)
        ensures
            final(self).root() == old(self).root(),
            final(self).ttl() == old(self).ttl(),
            final(self).all() == with_stats(old(self).all(), id@, body@),
    {
        proof {
            use_type_invariant(&*self);
        }
        match place(&self.sessions, id) {
            Some(i) => {
                let mut taken = SessionStore::new("", 0);
                std::mem::swap(self, &mut taken);
                let SessionStore { root, ttl, sessions } = taken;
                let mut sessions = sessions;
                let ghost v = session_views(sessions@);
                let mut s = sessions.remove(i);
                s.mesh_stats = Some(String::from_str(body));
                sessions.insert(i, s);
                proof {
                    assert(session_views(sessions@) =~= v.update(
                        i as int,
                        SessionView { mesh_stats: Some(body@), ..v[i as int] },
                    ));
                    lemma_same_ids(v, session_views(sessions@));
                }
                *self = SessionStore { root, ttl, sessions };
            },
            None => {},
        }
    }

    /// The number of sessions.
    pub fn len(&self) -> (n: usize)
        ensures
            n == self.all().len(),
    {
        self.sessions.len()
    }

    /// Whether there is no session.
    pub fn is_empty(&self) -> (yes: bool)
        ensures
            yes == (self.all().len() == 0),
    {
        self.sessions.len() == 0
    }
}

proof fn lemma_same_ids(v: Seq<SessionView>, w: Seq<SessionView>)
    requires
        distinct_ids(v),
        v.len() == w.len(),
        forall|i: int| 0 <= i < v.len() ==> (#[trigger] w[i]).id == v[i].id,
    ensures
        distinct_ids(w),
{
    assert forall|i: int, j: int| 0 <= i < j < w.len() implies (#[trigger] w[i]).id != (
    #[trigger] w[j]).id by {
        assert(v[i].id != v[j].id);
    }
}

proof fn lemma_remove_is_filter(v: Seq<SessionView>, id: Seq<char>, i: int)
    requires
        distinct_ids(v),
        0 <= i < v.len(),
        v[i].id == id,
    ensures
        without(v, id) == v.remove(i),
    decreases v.len(),
{
    reveal(Seq::filter);
    let w = v.drop_last();
    if i == v.len() - 1 {
        assert forall|j: int| 0 <= j < w.len() implies #[trigger] other_than(id)(w[j]) by {
            assert(v[j].id != v[i].id);
        }
        crate::paths::lemma_filter_all(w, other_than(id));
        assert(v.remove(i) =~= w);
    } else {
        assert(distinct_ids(w));
        assert(w[i].id == id);
        lemma_remove_is_filter(w, id, i);
        assert(v[i].id != v[v.len() - 1].id);
        assert(v.remove(i) =~= w.remove(i).push(v.last()));
    }
}

impl RobotSession {
    /// The report, or a 400 when inspection has not run.
    pub fn require_report(&self, detail: &str) -> (res: Result<&InspectionReport, ApiError>)
        ensures
            match res {
                Ok(r) => self@.report == Some(r@),
                Err(e) => self@.report is None && e@ == error::reply(400, detail@),
            },
    {
        match &self.report {
            Some(r) => Ok(r),
            None => Err(ApiError::bad_request(detail)),
        }
    }
}

proof fn lemma_place_is(v: Seq<SessionView>, id: Seq<char>, i: int)
    requires
        distinct_ids(v),
        0 <= i < v.len(),
        v[i].id == id,
    ensures
        place_of(v, id, 0) == Some(i),
{
    lemma_place(v, id, 0);
    let k = place_of(v, id, 0)->0;
    if k < i {
        assert(v[k].id != v[i].id);
    }
}

proof fn lemma_find_in_filter(v: Seq<SessionView>, id: Seq<char>, keep: spec_fn(SessionView) -> bool)
    requires
        distinct_ids(v),
    ensures
        distinct_ids(v.filter(keep)),
        find(v.filter(keep), id) == match find(v, id) {
            Some(s) => if keep(s) {
                Some(s)
            } else {
                None
            },
            None => None,
        },
{
    lemma_filter_distinct(v, keep);
    let f = v.filter(keep);
    lemma_place(v, id, 0);
    lemma_place(f, id, 0);
    match place_of(f, id, 0) {
        Some(j) => {
            let k = choose|k: int| 0 <= k < v.len() && v[k] == f[j];
            lemma_place_is(v, id, k);
        },
        None => {
            if find(v, id) is Some && keep(find(v, id)->0) {
                let s = find(v, id)->0;
                let k = place_of(v, id, 0)->0;
                v.lemma_filter_contains(keep, k);
                let j = choose|j: int| 0 <= j < f.len() && f[j] == s;
                assert(f[j].id == id);
            }
        },
    }
}

/// A sweep drops exactly the sessions that have been idle for longer than the
/// TTL: afterwards a session is found if and only if it was there and is not
/// expired, and unchanged.
pub proof fn a_sweep_drops_what_is_expired(v: Seq<SessionView>, now: int, ttl: int, id: Seq<char>)
    requires
        distinct_ids(v),
    ensures
        distinct_ids(swept(v, now, ttl)),
        find(swept(v, now, ttl), id) == match find(v, id) {
            Some(s) => if is_expired(s, now, ttl) {
                None
            } else {
                Some(s)
            },
            None => None,
        },
{
    lemma_find_in_filter(v, id, stays(now, ttl));
}

/// What a sweep leaves is not expired: afterwards a session that is found is live.
pub proof fn a_sweep_leaves_what_is_live(v: Seq<SessionView>, now: int, ttl: int, id: Seq<char>)
    ensures
        find(swept(v, now, ttl), id) is Some == is_live(swept(v, now, ttl), id, now, ttl),
{
    let w = swept(v, now, ttl);
    lemma_place(w, id, 0);
    match place_of(w, id, 0) {
        Some(k) => {
            v.lemma_filter_pred(stays(now, ttl), k);
        },
        None => {},
    }
}

/// A new session is found under its id, and no other session changes.
pub proof fn a_new_session_is_found(
    v: Seq<SessionView>,
    root: Seq<char>,
    id: Seq<char>,
    now: int,
    other: Seq<char>,
)
    requires
        distinct_ids(v),
    ensures
        distinct_ids(with_session(v, root, id, now)),
        find(with_session(v, root, id, now), other) == (if other == id {
            Some(new_session(root, id, now))
        } else {
            find(v, other)
        }),
{
    let w = without(v, id);
    lemma_find_in_filter(v, other, other_than(id));
    lemma_filter_distinct(v, other_than(id));
    let n = with_session(v, root, id, now);
    lemma_place(w, other, 0);
    lemma_place(n, other, 0);
    assert(n[n.len() - 1] == new_session(root, id, now));
    assert(forall|j: int| 0 <= j < w.len() ==> n[j] == w[j]);
    if other == id {
        lemma_place_is(n, id, n.len() - 1);
    } else {
        lemma_place(v, other, 0);
        match place_of(w, other, 0) {
            Some(k) => {
                assert(n[k].id == other);
                lemma_place_is(n, other, k);
            },
            None => {},
        }
    }
}

/// A session that was just used survives every sweep until the TTL has passed,
/// and no sweep after that; using it changes no other session.
pub proof fn using_a_session_restarts_its_ttl(
    v: Seq<SessionView>,
    id: Seq<char>,
    used: int,
    now: int,
    ttl: int,
    other: Seq<char>,
)
    requires
        distinct_ids(v),
        find(v, id) is Some,
    ensures
        find(swept(touched(v, id, used), now, ttl), id) is Some <==> now - used <= ttl,
        other != id ==> find(touched(v, id, used), other) == find(v, other),
{
    lemma_place(v, id, 0);
    let i = place_of(v, id, 0)->0;
    let w = touched(v, id, used);
    assert forall|j: int| 0 <= j < v.len() implies (#[trigger] w[j]).id == v[j].id by {}
    lemma_same_ids(v, w);
    lemma_place_is(w, id, i);
    a_sweep_drops_what_is_expired(w, now, ttl, id);
    if other != id {
        lemma_place(v, other, 0);
        lemma_place(w, other, 0);
        match place_of(v, other, 0) {
            Some(k) => {
                assert(w[k].id == other);
                lemma_place_is(w, other, k);
            },
            None => {
                if place_of(w, other, 0) is Some {
                    let k = place_of(w, other, 0)->0;
                    assert(v[k].id == other);
                }
            },
        }
    }
}

/// A removed session is not found any more, and no other session changes.
pub proof fn a_removed_session_is_gone(v: Seq<SessionView>, id: Seq<char>, other: Seq<char>)
    requires
        distinct_ids(v),
    ensures
        find(without(v, id), id) is None,
        other != id ==> find(without(v, id), other) == find(v, other),
{
    lemma_find_in_filter(v, id, other_than(id));
    lemma_find_in_filter(v, other, other_than(id));
    lemma_place(v, id, 0);
    lemma_place(v, other, 0);
}

/// What is stored for a session is found in it, and nothing else changes in any session.
pub proof fn stored_values_are_found(
    v: Seq<SessionView>,
    id: Seq<char>,
    other: Seq<char>,
    report: ReportView,
    body: Seq<char>,
)
    requires
        find(v, id) is Some,
        other != id,
    ensures
        find(with_report(v, id, report), id) matches Some(s) && s.report == Some(report) && s.id
            == id && s.work_dir == find(v, id)->0.work_dir && s.output_dir == find(
            v,
            id,
        )->0.output_dir && s.last_access == find(v, id)->0.last_access && s.mesh_stats == find(
            v,
            id,
        )->0.mesh_stats,
        find(with_stats(v, id, body), id) matches Some(s) && s.mesh_stats == Some(body) && s.id
            == id && s.work_dir == find(v, id)->0.work_dir && s.output_dir == find(
            v,
            id,
        )->0.output_dir && s.last_access == find(v, id)->0.last_access && s.report == find(
            v,
            id,
        )->0.report,
        find(with_report(v, id, report), other) == find(v, other),
        find(with_stats(v, id, body), other) == find(v, other),
{
    lemma_place(v, id, 0);
    lemma_place(v, other, 0);
    lemma_place(with_report(v, id, report), id, 0);
    lemma_place(with_report(v, id, report), other, 0);
    lemma_place(with_stats(v, id, body), id, 0);
    lemma_place(with_stats(v, id, body), other, 0);
    let i = place_of(v, id, 0)->0;
    let a = with_report(v, id, report);
    let b = with_stats(v, id, body);
    assert(a[i].id == id && b[i].id == id);
    assert forall|k: int| 0 <= k < v.len() implies (#[trigger] a[k]).id == v[k].id && (
    #[trigger] b[k]).id == v[k].id by {}
    if let Some(j) = place_of(v, other, 0) {
        assert(a[j] == v[j] && b[j] == v[j]);
    }
}

/// A new session is empty and has directories of its own below the root.
pub proof fn new_sessions_have_their_own_directories(root: Seq<char>, id: Seq<char>, now: int)
    requires
        root.len() > 0,
        root.last() != '/',
        id.len() > 0,
        !id.contains('/'),
    ensures
        new_session(root, id, now).work_dir == root + seq!['/'] + id + seq!['/', 'r', 'o', 'b', 'o', 't'],
        new_session(root, id, now).output_dir == root + seq!['/'] + id + seq!['/', 'o', 'u', 't'],
        new_session(root, id, now).id == id,
        new_session(root, id, now).last_access == now,
        new_session(root, id, now).report is None,
        new_session(root, id, now).mesh_stats is None,
{
    reveal_strlit("robot");
    reveal_strlit("out");
    if id[0] == '/' {
        assert(id.contains('/'));
    }
    let base = base_of(root, id);
    assert(base =~= root + seq!['/'] + id);
    if base.last() == '/' {
        assert(id[id.len() - 1] == '/');
        assert(id.contains('/'));
    }
    assert(new_session(root, id, now).work_dir =~= root + seq!['/'] + id + seq![
        '/',
        'r',
        'o',
        'b',
        'o',
        't',
    ]);
    assert(new_session(root, id, now).output_dir =~= root + seq!['/'] + id + seq![
        '/',
        'o',
        'u',
        't',
    ]);
}

/// A session lives as long as it is not idle for longer than the limit.
pub proof fn sessions_live_until_they_are_idle(s: SessionView, now: int, ttl: int)
    ensures
        now <= s.last_access + ttl <==> !is_expired(s, now, ttl),
{
}

} // verus!

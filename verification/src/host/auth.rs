//! Login sessions kept in memory, and the throttle on failed logins.
use crate::host::clock;
use crate::host::ids;
use crate::host::table::{self, Table};
use vstd::prelude::*;

verus! {

/// Name of the browser session cookie.
pub const SESSION_COOKIE: &'static str = "carson_session";

/// How long a session lives without activity, in milliseconds.
pub const SESSION_TTL_MS: u64 = 86_400_000;

/// How long the session cookie persists in the browser, in milliseconds.
pub const SESSION_COOKIE_MAX_AGE_MS: u64 = 2_592_000_000;

/// The last moment at which a session can still be given its whole life.
pub const LAST_MOMENT: u64 = 18_446_744_073_623_151_615;

/// Opaque ids of logged-in browsers with the moment each expires, and the
/// moments of recent failed logins.
pub struct AuthState {
    pub sessions: Table<u64>,
    pub failures: Vec<u64>,
    pub max_failures: usize,
    pub failure_window_ms: u64,
}

#[verifier::ext_equal]
pub struct AuthV {
    pub sessions: Map<Seq<char>, u64>,
    pub failures: Seq<u64>,
    pub max_failures: nat,
    pub window: u64,
}

impl View for AuthState {
    type V = AuthV;

    open spec fn view(&self) -> AuthV {
        AuthV {
            sessions: self.sessions@,
            failures: self.failures@,
            max_failures: self.max_failures as nat,
            window: self.failure_window_ms,
        }
    }
}

/// A session is live while it is known and has not expired.
pub open spec fn live(a: AuthV, id: Seq<char>, now: u64) -> bool {
    a.sessions.dom().contains(id) && a.sessions[id] > now
}

/// A session is started, or started anew, for a whole life.
pub open spec fn admitted(a: AuthV, id: Seq<char>, now: u64) -> AuthV {
    AuthV { sessions: a.sessions.insert(id, (now + SESSION_TTL_MS) as u64), ..a }
}

/// The session is forgotten.
pub open spec fn revoked(a: AuthV, id: Seq<char>) -> AuthV {
    AuthV { sessions: a.sessions.remove(id), ..a }
}

/// A live session starts anew; any other is forgotten.
pub open spec fn validated(a: AuthV, id: Seq<char>, now: u64) -> AuthV {
    if live(a, id, now) {
        admitted(a, id, now)
    } else {
        revoked(a, id)
    }
}

/// The sessions that outlive `now`.
pub open spec fn unexpired(m: Map<Seq<char>, u64>, now: u64) -> Map<Seq<char>, u64> {
    m.restrict(Set::new(|k: Seq<char>| m.dom().contains(k) && m[k] > now))
}

pub open spec fn swept(a: AuthV, now: u64) -> AuthV {
    AuthV { sessions: unexpired(a.sessions, now), ..a }
}

/// The failures left once those in front that are older than the window are gone.
pub open spec fn recent(f: Seq<u64>, now: u64, window: u64) -> Seq<u64>
    decreases f.len(),
{
    if f.len() > 0 && now - f[0] > window {
        recent(f.skip(1), now, window)
    } else {
        f
    }
}

pub open spec fn aged(a: AuthV, now: u64) -> AuthV {
    AuthV { failures: recent(a.failures, now, a.window), ..a }
}

/// Too many failures are recent.
pub open spec fn throttled(a: AuthV, now: u64) -> bool {
    recent(a.failures, now, a.window).len() >= a.max_failures
}

pub open spec fn failed(a: AuthV, now: u64) -> AuthV {
    AuthV { failures: a.failures.push(now), ..a }
}

impl AuthState {
    pub open spec fn wf(&self) -> bool {
        self.sessions.wf()
    }

    pub fn new() -> (r: AuthState)
        ensures
            r.wf(),
            r@ == (AuthV {
                sessions: Map::empty(),
                failures: seq![],
                max_failures: 5,
                window: 60_000,
            }),
    {
        AuthState {
            sessions: Table::new(),
            failures: Vec::new(),
            max_failures: 5,
            failure_window_ms: 60_000,
        }
    }

    /// Starts the session `id` at `now`.
    pub fn issue_at(&mut self, id: String, now: u64)
        requires
            old(self).wf(),
            now <= LAST_MOMENT,
        ensures
            final(self).wf(),
            final(self)@ == admitted(old(self)@, id@, now),
    {
        self.sessions.insert(id, now + SESSION_TTL_MS);
    }

    /// Creates a session and returns its opaque id.
    pub fn issue(&mut self) -> (r: String)
        requires
            old(self).wf(),
        ensures
            final(self).wf(),
            ids::is_simple_uuid(r@),
            exists|now: u64|
                now <= LAST_MOMENT && final(self)@ == #[trigger] admitted(old(self)@, r@, now),
    {
        let id = ids::random_simple();
        let kept = id.clone();
        let now: u64 = moment();
        self.issue_at(kept, now);
        id
    }

    /// Whether the session `id` is live at `now`; if it is, its life starts anew.
    pub fn validate_at(&mut self, id: &str, now: u64) -> (r: bool)
        requires
            old(self).wf(),
            now <= LAST_MOMENT,
        ensures
            final(self).wf(),
            r == live(old(self)@, id@, now),
            final(self)@ == validated(old(self)@, id@, now),
    {
        let known: bool = match self.sessions.get(id) {
            Some(expires) => *expires > now,
            None => false,
        };
        if known {
            self.sessions.insert(crate::text::owned(id), now + SESSION_TTL_MS);
            true
        } else {
            let _ = self.sessions.remove(id);
            false
        }
    }

    /// Whether the session `id` is live; activity keeps it so.
    pub fn validate(&mut self, id: &str) -> (r: bool)
        requires
            old(self).wf(),
        ensures
            final(self).wf(),
            exists|now: u64|
                now <= LAST_MOMENT && r == #[trigger] live(old(self)@, id@, now) && final(self)@
                    == validated(old(self)@, id@, now),
    {
        let now: u64 = moment();
        self.validate_at(id, now)
    }

    pub fn revoke(&mut self, id: &str)
        requires
            old(self).wf(),
        ensures
            final(self).wf(),
            final(self)@ == revoked(old(self)@, id@),
    {
        let _ = self.sessions.remove(id);
    }

    /// Drops the sessions that have expired at `now`.
    pub fn sweep_at(&mut self, now: u64)
        requires
            old(self).wf(),
        ensures
            final(self).wf(),
            final(self)@ == swept(old(self)@, now),
    {
        let ghost whole = self.sessions@;
        let mut i: usize = 0;
        while i < self.sessions.entries.len()
            invariant
                self.wf(),
                i <= self.sessions.entries@.len(),
                unexpired(self.sessions@, now) == unexpired(whole, now),
                forall|k: int| 0 <= k < i ==> (#[trigger] self.sessions.entries@[k]).1 > now,
                self@.failures == old(self)@.failures,
                self@.max_failures == old(self)@.max_failures,
                self@.window == old(self)@.window,
            decreases self.sessions.entries@.len() - i,
        {
            proof {
                table::lemma_dict(self.sessions.entries@);
            }
            if self.sessions.entries[i].1 > now {
                i = i + 1;
            } else {
                let ghost before = self.sessions.entries@;
                let _ = self.sessions.entries.remove(i);
                proof {
                    table::lemma_removed(before, i as int);
                    assert(unexpired(self.sessions@, now) =~= unexpired(table::dict(before), now));
                    assert(self.sessions.entries@ == before.remove(i as int));
                }
            }
        }
        proof {
            table::lemma_dict(self.sessions.entries@);
            assert(unexpired(self.sessions@, now) =~= self.sessions@);
        }
    }

    /// Prunes expired sessions so an idle server does not accumulate them.
    pub fn sweep(&mut self)
        requires
            old(self).wf(),
        ensures
            final(self).wf(),
            exists|now: u64| final(self)@ == #[trigger] swept(old(self)@, now),
    {
        let now: u64 = clock::now_ms();
        self.sweep_at(now);
    }

    /// Whether logins are refused at `now`. Failures older than the window are forgotten.
    pub fn is_throttled_at(&mut self, now: u64) -> (r: bool)
        requires
            old(self).wf(),
        ensures
            final(self).wf(),
            final(self)@ == aged(old(self)@, now),
            r == throttled(old(self)@, now),
    {
        let ghost whole = self.failures@;
        while self.failures.len() > 0 && now.saturating_sub(self.failures[0])
            > self.failure_window_ms
            invariant
                self.wf(),
                recent(self.failures@, now, self.failure_window_ms) == recent(
                    whole,
                    now,
                    self.failure_window_ms,
                ),
                self.sessions == old(self).sessions,
                self.max_failures == old(self).max_failures,
                self.failure_window_ms == old(self).failure_window_ms,
            decreases self.failures@.len(),
        {
            let ghost before = self.failures@;
            let _ = self.failures.remove(0);
            assert(self.failures@ =~= before.skip(1));
        }
        self.failures.len() >= self.max_failures
    }

    /// True when too many logins failed recently.
    pub fn is_throttled(&mut self) -> (r: bool)
        requires
            old(self).wf(),
        ensures
            final(self).wf(),
            exists|now: u64|
                final(self)@ == #[trigger] aged(old(self)@, now) && r == throttled(old(self)@, now),
    {
        let now: u64 = clock::now_ms();
        self.is_throttled_at(now)
    }

    pub fn record_failure_at(&mut self, now: u64)
        requires
            old(self).wf(),
        ensures
            final(self).wf(),
            final(self)@ == failed(old(self)@, now),
    {
        self.failures.push(now);
    }

    /// Records a failed login attempt.
    pub fn record_failure(&mut self)
        requires
            old(self).wf(),
        ensures
            final(self).wf(),
            exists|now: u64| final(self)@ == #[trigger] failed(old(self)@, now),
    {
        let now: u64 = clock::now_ms();
        self.record_failure_at(now);
    }

    /// Forgets failed logins after a successful one.
    pub fn clear_failures(&mut self)
        requires
            old(self).wf(),
        ensures
            final(self).wf(),
            final(self)@ == (AuthV { failures: seq![], ..old(self)@ }),
    {
        self.failures.clear();
    }
}

impl Default for AuthState {
    fn default() -> (r: AuthState)
        ensures
            r.wf(),
            r@.sessions == Map::<Seq<char>, u64>::empty(),
            r@.failures == Seq::<u64>::empty(),
            r@.max_failures == 5,
            r@.window == 60_000,
    {
        AuthState::new()
    }
}

/// The time, at most the last moment.
fn moment() -> (r: u64)
    ensures
        r <= LAST_MOMENT,
{
    let now: u64 = clock::now_ms();
    if now <= LAST_MOMENT {
        now
    } else {
        LAST_MOMENT
    }
}

// ---- laws ----

/// A session is live for its whole life after it was issued, and no longer.
pub proof fn issued_session_is_live(a: AuthV, id: Seq<char>, at: u64, now: u64)
    requires
        at <= LAST_MOMENT,
    ensures
        live(admitted(a, id, at), id, now) <==> now < at + SESSION_TTL_MS,
{
}

/// Activity while a session is live keeps it live for another whole life.
pub proof fn activity_slides_the_expiry(a: AuthV, id: Seq<char>, at: u64, now: u64)
    requires
        live(a, id, at),
        at <= LAST_MOMENT,
        now < at + SESSION_TTL_MS,
    ensures
        live(validated(a, id, at), id, now),
{
}

/// A session that was found dead, or was revoked, stays dead.
pub proof fn dead_session_stays_dead(a: AuthV, id: Seq<char>, at: u64, now: u64)
    ensures
        !live(a, id, at) ==> !live(validated(a, id, at), id, now),
        !live(revoked(a, id), id, now),
{
}

/// Issuing, validating or revoking one session leaves every other as it was.
pub proof fn sessions_are_independent(a: AuthV, id: Seq<char>, other: Seq<char>, at: u64, now: u64)
    requires
        id != other,
    ensures
        live(admitted(a, id, at), other, now) == live(a, other, now),
        live(validated(a, id, at), other, now) == live(a, other, now),
        live(revoked(a, id), other, now) == live(a, other, now),
{
}

/// Pruning changes no answer from then on.
pub proof fn sweeping_is_unseen(a: AuthV, id: Seq<char>, at: u64, now: u64)
    requires
        at <= now,
    ensures
        live(swept(a, at), id, now) == live(a, id, now),
{
}

/// Clearing the failures opens the throttle again.
pub proof fn clearing_opens_the_throttle(a: AuthV, now: u64)
    requires
        a.max_failures > 0,
    ensures
        !throttled(AuthV { failures: seq![], ..a }, now),
{
}

/// As many failures as are allowed, all within the window, close the throttle,
/// and one fewer leaves it open.
pub proof fn recent_failures_throttle(a: AuthV, now: u64)
    requires
        forall|i: int| 0 <= i < a.failures.len() ==> now - #[trigger] a.failures[i] <= a.window,
    ensures
        throttled(a, now) <==> a.failures.len() >= a.max_failures,
{
}

} // verus!

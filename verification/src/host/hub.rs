//! Fan-out of events to the live subscribers of each session.
use crate::json::{self, Json};
use crate::text;
use std::collections::HashMap;
use vstd::prelude::*;

verus! {

broadcast use vstd::std_specs::hash::group_hash_axioms;

/// One server-sent event.
pub struct SseItem {
    pub event: String,
    pub data: Json,
}

/// The subscribers without `sub`.
pub open spec fn without(s: Seq<u64>, sub: u64) -> Seq<u64>
    decreases s.len(),
{
    if s.len() == 0 {
        s
    } else if s.last() == sub {
        without(s.drop_last(), sub)
    } else {
        without(s.drop_last(), sub).push(s.last())
    }
}

/// The subscribers that are also in `accepted`, in their order.
pub open spec fn only(s: Seq<u64>, accepted: Seq<u64>) -> Seq<u64>
    decreases s.len(),
{
    if s.len() == 0 {
        s
    } else if accepted.contains(s.last()) {
        only(s.drop_last(), accepted).push(s.last())
    } else {
        only(s.drop_last(), accepted)
    }
}

/// The subscribers of each session, in the order in which they came. A
/// subscriber is one open stream, known by its number.
pub struct Hub {
    pub sessions: HashMap<u64, Vec<u64>>,
}

impl View for Hub {
    type V = Map<u64, Seq<u64>>;

    open spec fn view(&self) -> Map<u64, Seq<u64>> {
        self.sessions@.map_values(|v: Vec<u64>| v@)
    }
}

pub open spec fn subscribers(m: Map<u64, Seq<u64>>, session: u64) -> Seq<u64> {
    if m.dom().contains(session) {
        m[session]
    } else {
        seq![]
    }
}

pub open spec fn registered(m: Map<u64, Seq<u64>>, session: u64, sub: u64) -> Map<u64, Seq<u64>> {
    m.insert(session, subscribers(m, session).push(sub))
}

pub open spec fn unregistered(m: Map<u64, Seq<u64>>, session: u64, sub: u64) -> Map<u64, Seq<u64>> {
    let left = without(subscribers(m, session), sub);
    if left.len() == 0 {
        m.remove(session)
    } else {
        m.insert(session, left)
    }
}

/// After a broadcast only those subscribers are left whose stream took the item.
pub open spec fn delivered(m: Map<u64, Seq<u64>>, session: u64, accepted: Seq<u64>) -> Map<
    u64,
    Seq<u64>,
> {
    if m.dom().contains(session) {
        m.insert(session, only(m[session], accepted))
    } else {
        m
    }
}

impl Hub {
    pub fn new() -> (r: Hub)
        ensures
            r@ == Map::<u64, Seq<u64>>::empty(),
    {
        let h = Hub { sessions: HashMap::new() };
        assert(h@ =~= Map::<u64, Seq<u64>>::empty());
        h
    }

    pub fn register(&mut self, session_id: u64, sub: u64)
        ensures
            final(self)@ == registered(old(self)@, session_id, sub),
    {
        let ghost before = self@;
        let mut subs: Vec<u64> = match self.sessions.remove(&session_id) {
            Some(v) => v,
            None => Vec::new(),
        };
        assert(subs@ =~= subscribers(before, session_id));
        subs.push(sub);
        self.sessions.insert(session_id, subs);
        assert(self@ =~= registered(before, session_id, sub));
    }

    pub fn unregister(&mut self, session_id: u64, sub: u64)
        ensures
            final(self)@ == unregistered(old(self)@, session_id, sub),
    {
        let ghost before = self@;
        let subs: Vec<u64> = match self.sessions.remove(&session_id) {
            Some(v) => v,
            None => Vec::new(),
        };
        assert(subs@ =~= subscribers(before, session_id));
        let mut left: Vec<u64> = Vec::new();
        let mut i: usize = 0;
        while i < subs.len()
            invariant
                i <= subs@.len(),
                left@ == without(subs@.take(i as int), sub),
            decreases subs@.len() - i,
        {
            assert(subs@.take(i as int + 1).drop_last() =~= subs@.take(i as int));
            if subs[i] != sub {
                left.push(subs[i]);
            }
            i = i + 1;
        }
        assert(subs@.take(i as int) =~= subs@);
        if left.len() > 0 {
            self.sessions.insert(session_id, left);
        }
        assert(self@ =~= unregistered(before, session_id, sub));
    }

    pub fn alive(&self, session_id: u64) -> (r: bool)
        ensures
            r == (subscribers(self@, session_id).len() > 0),
    {
        match self.sessions.get(&session_id) {
            Some(v) => v.len() > 0,
            None => false,
        }
    }

    /// The subscribers that an item for the session goes to.
    pub fn recipients(&self, session_id: u64) -> (r: Vec<u64>)
        ensures
            r@ == subscribers(self@, session_id),
    {
        let mut out: Vec<u64> = Vec::new();
        match self.sessions.get(&session_id) {
            Some(v) => {
                let mut i: usize = 0;
                while i < v.len()
                    invariant
                        i <= v@.len(),
                        out@ == v@.take(i as int),
                    decreases v@.len() - i,
                {
                    out.push(v[i]);
                    i = i + 1;
                    assert(out@ =~= v@.take(i as int));
                }
                assert(v@.take(i as int) =~= v@);
                out
            },
            None => out,
        }
    }

    /// Settles a broadcast to every recipient, of which `accepted` took the item.
    /// Closed streams are dropped; whether at least one subscriber received it.
    pub fn send(&mut self, session_id: u64, accepted: &Vec<u64>) -> (r: bool)
        ensures
            final(self)@ == delivered(old(self)@, session_id, accepted@),
            r == (only(subscribers(old(self)@, session_id), accepted@).len() > 0),
    {
        let ghost before = self@;
        match self.sessions.remove(&session_id) {
            None => {
                assert(self@ =~= before);
                false
            },
            Some(subs) => {
                assert(subs@ =~= subscribers(before, session_id));
                let mut left: Vec<u64> = Vec::new();
                let mut i: usize = 0;
                while i < subs.len()
                    invariant
                        i <= subs@.len(),
                        left@ == only(subs@.take(i as int), accepted@),
                    decreases subs@.len() - i,
                {
                    assert(subs@.take(i as int + 1).drop_last() =~= subs@.take(i as int));
                    if holds(accepted, subs[i]) {
                        left.push(subs[i]);
                    }
                    i = i + 1;
                }
                assert(subs@.take(i as int) =~= subs@);
                let any: bool = left.len() > 0;
                self.sessions.insert(session_id, left);
                assert(self@ =~= delivered(before, session_id, accepted@));
                any
            },
        }
    }
}

fn holds(v: &Vec<u64>, x: u64) -> (r: bool)
    ensures
        r == v@.contains(x),
{
    let mut i: usize = 0;
    while i < v.len()
        invariant
            i <= v@.len(),
            forall|k: int| 0 <= k < i ==> v@[k] != x,
        decreases v@.len() - i,
    {
        if v[i] == x {
            return true;
        }
        i = i + 1;
    }
    false
}

/// The frame that carries an event over a server-sent event stream.
pub open spec fn frame(event: Seq<char>, data: Seq<char>) -> Seq<char> {
    "event: "@ + event + "\ndata: "@ + data + "\n\n"@
}

/// The frame of an event whose data is already written.
pub fn frame_text(event: &str, data: &str) -> (r: String)
    ensures
        r@ == frame(event@, data@),
{
    text::owned("event: ").concat(event).concat("\ndata: ").concat(data).concat("\n\n")
}

pub fn sse_frame(item: &SseItem) -> (r: String)
    ensures
        r@ == frame(item.event@, json::json_text(item.data@)),
{
    let data = json::render(&item.data);
    frame_text(item.event.as_str(), data.as_str())
}

// ---- laws ----

proof fn lemma_without(s: Seq<u64>, sub: u64, x: u64)
    ensures
        without(s, sub).contains(x) <==> s.contains(x) && x != sub,
    decreases s.len(),
{
    if s.len() > 0 {
        let p = s.drop_last();
        lemma_without(p, sub, x);
        assert(s =~= p.push(s.last()));
        lemma_push(p, s.last(), x);
        lemma_push(without(p, sub), s.last(), x);
    }
}

proof fn lemma_push(s: Seq<u64>, y: u64, x: u64)
    ensures
        s.push(y).contains(x) <==> s.contains(x) || x == y,
{
    if s.contains(x) {
        let i = choose|i: int| 0 <= i < s.len() && s[i] == x;
        assert(s.push(y)[i] == x);
    }
    if x == y {
        assert(s.push(y)[s.len() as int] == x);
    }
}

proof fn lemma_only(s: Seq<u64>, accepted: Seq<u64>, x: u64)
    ensures
        only(s, accepted).contains(x) <==> s.contains(x) && accepted.contains(x),
    decreases s.len(),
{
    if s.len() > 0 {
        let p = s.drop_last();
        lemma_only(p, accepted, x);
        assert(s =~= p.push(s.last()));
        lemma_push(p, s.last(), x);
        lemma_push(only(p, accepted), s.last(), x);
    }
}

/// A session with a registered subscriber is alive, and that one receives its items.
pub proof fn registered_subscriber_receives(m: Map<u64, Seq<u64>>, session: u64, sub: u64)
    ensures
        subscribers(registered(m, session, sub), session).contains(sub),
        subscribers(registered(m, session, sub), session).len() > 0,
{
    let s = subscribers(registered(m, session, sub), session);
    assert(s[s.len() - 1] == sub);
}

/// Leaving takes out that subscriber and no other.
pub proof fn leaving_removes_only_the_leaver(m: Map<u64, Seq<u64>>, session: u64, sub: u64, x: u64)
    ensures
        subscribers(unregistered(m, session, sub), session).contains(x) <==> subscribers(
            m,
            session,
        ).contains(x) && x != sub,
{
    lemma_without(subscribers(m, session), sub, x);
}

/// A broadcast drops those whose stream did not take the item and keeps the others.
pub proof fn broadcast_prunes_the_closed(
    m: Map<u64, Seq<u64>>,
    session: u64,
    accepted: Seq<u64>,
    x: u64,
)
    ensures
        subscribers(delivered(m, session, accepted), session).contains(x) <==> subscribers(
            m,
            session,
        ).contains(x) && accepted.contains(x),
{
    lemma_only(subscribers(m, session), accepted, x);
}

/// What happens to one session leaves the others as they were.
pub proof fn sessions_do_not_mix(
    m: Map<u64, Seq<u64>>,
    session: u64,
    other: u64,
    sub: u64,
    accepted: Seq<u64>,
)
    requires
        session != other,
    ensures
        subscribers(registered(m, session, sub), other) == subscribers(m, other),
        subscribers(unregistered(m, session, sub), other) == subscribers(m, other),
        subscribers(delivered(m, session, accepted), other) == subscribers(m, other),
{
}

} // verus!

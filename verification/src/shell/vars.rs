//! The environment: variables kept in the order of their names.
use crate::text;
use vstd::prelude::*;

verus! {

broadcast use crate::text::views_push;

/// Names with their values.
pub type Pairs = Seq<(Seq<char>, Seq<char>)>;

/// A set of variables. The entries are ordered by name and no name occurs twice.
pub struct Env {
    pub entries: Vec<(String, String)>,
}

pub open spec fn pairs_view(v: Seq<(String, String)>) -> Pairs {
    v.map_values(|e: (String, String)| (e.0@, e.1@))
}

impl View for Env {
    type V = Pairs;

    open spec fn view(&self) -> Pairs {
        pairs_view(self.entries@)
    }
}

/// Ordered by name, each name once.
pub open spec fn ordered(p: Pairs) -> bool {
    forall|i: int, j: int| 0 <= i < j < p.len() ==> text::text_lt((#[trigger] p[i]).0, (#[trigger] p[j]).0)
}

pub open spec fn value_of(p: Pairs, name: Seq<char>) -> Option<Seq<char>>
    decreases p.len(),
{
    if p.len() == 0 {
        None
    } else if p[0].0 == name {
        Some(p[0].1)
    } else {
        value_of(p.skip(1), name)
    }
}

/// `p` with `name` set to `value`, in its place in the order.
pub open spec fn with(p: Pairs, name: Seq<char>, value: Seq<char>) -> Pairs
    decreases p.len(),
{
    if p.len() == 0 {
        seq![(name, value)]
    } else if p[0].0 == name {
        seq![(name, value)] + p.skip(1)
    } else if text::text_lt(name, p[0].0) {
        seq![(name, value)] + p
    } else {
        seq![p[0]] + with(p.skip(1), name, value)
    }
}

/// `p` without `name`.
pub open spec fn without(p: Pairs, name: Seq<char>) -> Pairs
    decreases p.len(),
{
    if p.len() == 0 {
        p
    } else if p[0].0 == name {
        p.skip(1)
    } else {
        seq![p[0]] + without(p.skip(1), name)
    }
}

/// `p` with every pair of `q` set, in order: later pairs win.
pub open spec fn with_all(p: Pairs, q: Pairs) -> Pairs
    decreases q.len(),
{
    if q.len() == 0 {
        p
    } else {
        with_all(with(p, q[0].0, q[0].1), q.skip(1))
    }
}

/// `NAME=value` lines of every variable, in the order of the names.
pub open spec fn lines_of(p: Pairs) -> Seq<Seq<char>> {
    p.map_values(|e: (Seq<char>, Seq<char>)| e.0 + "="@ + e.1 + "\n"@)
}

/// A variable that was set reads back, and the others keep their value.
pub proof fn set_then_get(p: Pairs, name: Seq<char>, value: Seq<char>, other: Seq<char>)
    ensures
        value_of(with(p, name, value), name) == Some(value),
        other != name ==> value_of(with(p, name, value), other) == value_of(p, other),
    decreases p.len(),
{
    let r = with(p, name, value);
    if p.len() == 0 {
        assert(r.skip(1) =~= p);
    } else if p[0].0 == name {
        assert(r.skip(1) =~= p.skip(1));
    } else if text::text_lt(name, p[0].0) {
        assert(r.skip(1) =~= p);
    } else {
        assert(r.skip(1) =~= with(p.skip(1), name, value));
        set_then_get(p.skip(1), name, value, other);
    }
}

proof fn lemma_ordered_tail(p: Pairs)
    requires
        ordered(p),
        p.len() > 0,
    ensures
        ordered(p.skip(1)),
        forall|j: int| 0 <= j < p.skip(1).len() ==> text::text_lt(p[0].0, (#[trigger] p.skip(1)[j]).0),
{
    assert forall|i: int, j: int| 0 <= i < j < p.skip(1).len() implies text::text_lt(
        (#[trigger] p.skip(1)[i]).0,
        (#[trigger] p.skip(1)[j]).0,
    ) by {
        assert(p.skip(1)[i] == p[i + 1]);
        assert(p.skip(1)[j] == p[j + 1]);
    }
    assert forall|j: int| 0 <= j < p.skip(1).len() implies text::text_lt(
        p[0].0,
        (#[trigger] p.skip(1)[j]).0,
    ) by {
        assert(p.skip(1)[j] == p[j + 1]);
    }
}

/// A pair in front of larger ones keeps the order.
proof fn lemma_ordered_cons(e: (Seq<char>, Seq<char>), p: Pairs)
    requires
        ordered(p),
        p.len() > 0 ==> text::text_lt(e.0, p[0].0),
    ensures
        ordered(seq![e] + p),
{
    let r = seq![e] + p;
    assert forall|i: int, j: int| 0 <= i < j < r.len() implies text::text_lt(
        (#[trigger] r[i]).0,
        (#[trigger] r[j]).0,
    ) by {
        if i == 0 {
            if j > 1 {
                assert(text::text_lt(p[0].0, p[j - 1].0));
                text::text_order_is_transitive(e.0, p[0].0, p[j - 1].0);
            }
        } else {
            assert(text::text_lt(p[i - 1].0, p[j - 1].0));
        }
    }
}

/// Setting a variable keeps the names ordered and each name once.
pub proof fn set_keeps_order(p: Pairs, name: Seq<char>, value: Seq<char>)
    requires
        ordered(p),
    ensures
        ordered(with(p, name, value)),
        p.len() > 0 && text::text_lt(p[0].0, name) ==> with(p, name, value)[0] == p[0],
    decreases p.len(),
{
    if p.len() > 0 {
        lemma_ordered_tail(p);
        text::text_order_is_total(p[0].0, name);
        text::text_order_is_total(name, name);
        if p[0].0 == name {
            if p.skip(1).len() > 0 {
                assert(text::text_lt(p[0].0, p.skip(1)[0].0));
            }
            lemma_ordered_cons((name, value), p.skip(1));
        } else if text::text_lt(name, p[0].0) {
            lemma_ordered_cons((name, value), p);
        } else {
            set_keeps_order(p.skip(1), name, value);
            let r = with(p.skip(1), name, value);
            assert(text::text_lt(p[0].0, r[0].0)) by {
                if p.skip(1).len() > 0 {
                    assert(text::text_lt(p[0].0, p.skip(1)[0].0));
                    text::text_order_is_total(p.skip(1)[0].0, name);
                }
            }
            lemma_ordered_cons(p[0], r);
        }
    }
}

/// Removing a variable keeps the order, drops the name and nothing else.
pub proof fn unset_then_get(p: Pairs, name: Seq<char>, other: Seq<char>)
    requires
        ordered(p),
    ensures
        ordered(without(p, name)),
        value_of(without(p, name), name) is None,
        other != name ==> value_of(without(p, name), other) == value_of(p, other),
        without(p, name).len() > 0 ==> p.len() > 0 && (without(p, name)[0].0 == p[0].0
            || text::text_lt(p[0].0, without(p, name)[0].0)),
    decreases p.len(),
{
    if p.len() > 0 {
        lemma_ordered_tail(p);
        if p[0].0 == name {
            lemma_absent(p.skip(1), name);
            if p.skip(1).len() > 0 {
                assert(text::text_lt(p[0].0, p.skip(1)[0].0));
            }
        } else {
            let r = without(p.skip(1), name);
            unset_then_get(p.skip(1), name, other);
            if r.len() > 0 {
                assert(text::text_lt(p[0].0, p.skip(1)[0].0));
                if text::text_lt(p.skip(1)[0].0, r[0].0) {
                    text::text_order_is_transitive(p[0].0, p.skip(1)[0].0, r[0].0);
                }
            }
            lemma_ordered_cons(p[0], r);
            assert((seq![p[0]] + r).skip(1) =~= r);
        }
    }
}

proof fn lemma_absent(p: Pairs, name: Seq<char>)
    requires
        forall|j: int| 0 <= j < p.len() ==> text::text_lt(name, (#[trigger] p[j]).0),
    ensures
        value_of(p, name) is None,
    decreases p.len(),
{
    if p.len() > 0 {
        assert(text::text_lt(name, p[0].0));
        text::text_order_is_total(name, p[0].0);
        assert forall|j: int| 0 <= j < p.skip(1).len() implies text::text_lt(
            name,
            (#[trigger] p.skip(1)[j]).0,
        ) by {
            assert(p.skip(1)[j] == p[j + 1]);
        }
        lemma_absent(p.skip(1), name);
    }
}

/// Setting many variables keeps the order.
pub proof fn set_all_keeps_order(p: Pairs, q: Pairs)
    requires
        ordered(p),
    ensures
        ordered(with_all(p, q)),
    decreases q.len(),
{
    if q.len() > 0 {
        set_keeps_order(p, q[0].0, q[0].1);
        set_all_keeps_order(with(p, q[0].0, q[0].1), q.skip(1));
    }
}

/// After setting the variables of `q`, those of `q` have its values and the
/// others are as they were.
pub proof fn set_all_then_get(p: Pairs, q: Pairs, name: Seq<char>)
    requires
        ordered(q),
    ensures
        value_of(with_all(p, q), name) == match value_of(q, name) {
            Some(v) => Some(v),
            None => value_of(p, name),
        },
    decreases q.len(),
{
    if q.len() > 0 {
        let r = q.skip(1);
        assert(ordered(r)) by {
            assert forall|i: int, j: int| 0 <= i < j < r.len() implies text::text_lt(
                (#[trigger] r[i]).0,
                (#[trigger] r[j]).0,
            ) by {
                assert(text::text_lt(q[i + 1].0, q[j + 1].0));
            }
        }
        set_all_then_get(with(p, q[0].0, q[0].1), r, name);
        set_then_get(p, q[0].0, q[0].1, name);
        if q[0].0 == name {
            lemma_absent(r, name);
        }
    }
}

impl Env {
    pub fn new() -> (r: Env)
        ensures
            r@ == Seq::<(Seq<char>, Seq<char>)>::empty(),
            ordered(r@),
    {
        let e = Env { entries: Vec::new() };
        assert(e@ =~= Seq::<(Seq<char>, Seq<char>)>::empty());
        e
    }

    /// The value of `name`.
    pub fn get(&self, name: &str) -> (r: Option<String>)
        ensures
            match r {
                Some(v) => value_of(self@, name@) == Some(v@),
                None => value_of(self@, name@) is None,
            },
    {
        let mut i: usize = 0;
        assert(self@.skip(0) =~= self@);
        while i < self.entries.len()
            invariant
                i <= self.entries@.len(),
                value_of(self@, name@) == value_of(self@.skip(i as int), name@),
            decreases self.entries@.len() - i,
        {
            assert(self@.skip(i as int)[0] == (self.entries@[i as int].0@, self.entries@[i as int].1@));
            assert(self@.skip(i as int).skip(1) =~= self@.skip(i as int + 1));
            if text::same(self.entries[i].0.as_str(), name) {
                return Some(self.entries[i].1.clone());
            }
            i = i + 1;
        }
        None
    }

    /// Set `name` to `value`.
    pub fn set(&mut self, name: String, value: String)
        ensures
            final(self)@ == with(old(self)@, name@, value@),
            ordered(old(self)@) ==> ordered(final(self)@),
    {
        let ghost p = self@;
        let ghost whole = with(p, name@, value@);
        proof {
            if ordered(p) {
                set_keeps_order(p, name@, value@);
            }
        }
        let mut i: usize = 0;
        assert(p.skip(0) =~= p);
        assert(whole =~= p.take(0) + with(p.skip(0), name@, value@));
        while i < self.entries.len()
            invariant
                i <= self.entries@.len(),
                self@ == p,
                whole == with(p, name@, value@),
                whole == p.take(i as int) + with(p.skip(i as int), name@, value@),
                ordered(p) ==> ordered(whole),
                p == old(self)@,
            decreases self.entries@.len() - i,
        {
            assert(p.skip(i as int)[0] == p[i as int]);
            assert(p[i as int] == (self.entries@[i as int].0@, self.entries@[i as int].1@));
            assert(p.skip(i as int).skip(1) =~= p.skip(i as int + 1));
            if text::same(self.entries[i].0.as_str(), name.as_str()) {
                self.entries.set(i, (name, value));
                assert(self@ =~= whole);
                return ;
            }
            if text::before(name.as_str(), self.entries[i].0.as_str()) {
                self.entries.insert(i, (name, value));
                assert(self@ =~= whole);
                return ;
            }
            proof {
                assert(p.take(i as int) + (seq![p[i as int]] + with(
                    p.skip(i as int + 1),
                    name@,
                    value@,
                )) =~= p.take(i as int + 1) + with(p.skip(i as int + 1), name@, value@));
            }
            i = i + 1;
        }
        self.entries.push((name, value));
        assert(self@ =~= whole);
    }

    /// Drop `name`.
    pub fn remove(&mut self, name: &str)
        ensures
            final(self)@ == without(old(self)@, name@),
            ordered(old(self)@) ==> ordered(final(self)@),
    {
        let ghost p = self@;
        let ghost whole = without(p, name@);
        proof {
            if ordered(p) {
                unset_then_get(p, name@, name@);
            }
        }
        let mut i: usize = 0;
        assert(p.skip(0) =~= p);
        assert(whole =~= p.take(0) + without(p.skip(0), name@));
        while i < self.entries.len()
            invariant
                i <= self.entries@.len(),
                self@ == p,
                whole == without(p, name@),
                whole == p.take(i as int) + without(p.skip(i as int), name@),
                ordered(p) ==> ordered(whole),
                p == old(self)@,
            decreases self.entries@.len() - i,
        {
            assert(p.skip(i as int)[0] == p[i as int]);
            assert(p[i as int] == (self.entries@[i as int].0@, self.entries@[i as int].1@));
            assert(p.skip(i as int).skip(1) =~= p.skip(i as int + 1));
            if text::same(self.entries[i].0.as_str(), name) {
                self.entries.remove(i);
                assert(self@ =~= whole);
                return ;
            }
            proof {
                assert(p.take(i as int) + (seq![p[i as int]] + without(p.skip(i as int + 1), name@))
                    =~= p.take(i as int + 1) + without(p.skip(i as int + 1), name@));
            }
            i = i + 1;
        }
        assert(self@ =~= whole);
    }

    pub fn copy(&self) -> (r: Env)
        ensures
            r@ == self@,
    {
        let mut entries: Vec<(String, String)> = Vec::new();
        let mut i: usize = 0;
        while i < self.entries.len()
            invariant
                i <= self.entries@.len(),
                pairs_view(entries@) == self@.take(i as int),
            decreases self.entries@.len() - i,
        {
            let e = (self.entries[i].0.clone(), self.entries[i].1.clone());
            assert((e.0@, e.1@) == self@[i as int]);
            entries.push(e);
            i = i + 1;
            assert(pairs_view(entries@) =~= self@.take(i as int));
        }
        assert(self@.take(i as int) =~= self@);
        Env { entries }
    }

    /// Set every variable of `other`.
    pub fn set_all(&mut self, other: &Env)
        ensures
            final(self)@ == with_all(old(self)@, other@),
            ordered(old(self)@) ==> ordered(final(self)@),
    {
        let mut i: usize = 0;
        assert(other@.skip(0) =~= other@);
        proof {
            if ordered(self@) {
                set_all_keeps_order(self@, other@);
            }
        }
        let ghost whole = with_all(self@, other@);
        while i < other.entries.len()
            invariant
                i <= other.entries@.len(),
                whole == with_all(self@, other@.skip(i as int)),
            decreases other.entries@.len() - i,
        {
            assert(other@.skip(i as int)[0] == (
                other.entries@[i as int].0@,
                other.entries@[i as int].1@,
            ));
            assert(other@.skip(i as int).skip(1) =~= other@.skip(i as int + 1));
            self.set(other.entries[i].0.clone(), other.entries[i].1.clone());
            i = i + 1;
        }
    }

    /// The variables of a list of pairs; of pairs with one name the last counts.
    pub fn from_pairs(pairs: Vec<(String, String)>) -> (r: Env)
        ensures
            r@ == with_all(seq![], pairs_view(pairs@)),
            ordered(r@),
    {
        let mut e = Env::new();
        let other = Env { entries: pairs };
        assert(e@ =~= seq![]);
        e.set_all(&other);
        e
    }

    /// The `NAME=value` line of one variable.
    pub fn line(&self, i: usize) -> (r: String)
        requires
            i < self@.len(),
        ensures
            r@ == lines_of(self@)[i as int],
    {
        let k = &self.entries[i].0;
        let v = &self.entries[i].1;
        k.clone().concat("=").concat(v.as_str()).concat("\n")
    }
}

} // verus!

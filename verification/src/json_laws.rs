//! What holds of reading JSON values.
use crate::json;
use crate::json::{JsonV, NumberV};
use vstd::prelude::*;

verus! {

/// The first member of a key is the one that is read.
pub proof fn the_first_member_is_read(m: Seq<(Seq<char>, JsonV)>, i: int)
    requires
        0 <= i < m.len(),
        forall|k: int| 0 <= k < i ==> (#[trigger] m[k]).0 != m[i].0,
    ensures
        json::field(JsonV::Obj(m), m[i].0) == Some(m[i].1),
        json::field_of(Some(JsonV::Obj(m)), m[i].0) == Some(m[i].1),
    decreases i,
{
    if i > 0 {
        let t = m.skip(1);
        assert(m[0].0 != m[i].0);
        assert forall|k: int| 0 <= k < i - 1 implies (#[trigger] t[k]).0 != t[i - 1].0 by {
            assert(t[k] == m[k + 1]);
            assert(m[k + 1].0 != m[i].0);
        }
        assert(t[i - 1] == m[i]);
        the_first_member_is_read(t, i - 1);
    }
}

/// A key that no member has is not found, and neither is any in what is no object.
pub proof fn a_missing_member_is_not_read(m: Seq<(Seq<char>, JsonV)>, key: Seq<char>, j: JsonV)
    requires
        forall|k: int| 0 <= k < m.len() ==> (#[trigger] m[k]).0 != key,
        !(j is Obj),
    ensures
        json::field(JsonV::Obj(m), key) is None,
        json::field(j, key) is None,
        json::field_of(None, key) is None,
    decreases m.len(),
{
    if m.len() > 0 {
        assert(m[0].0 != key);
        let t = m.skip(1);
        assert forall|k: int| 0 <= k < t.len() implies (#[trigger] t[k]).0 != key by {
            assert(t[k] == m[k + 1]);
        }
        a_missing_member_is_not_read(t, key, j);
    }
}

/// A value is read as what it is, and as nothing else.
pub proof fn values_are_read_as_what_they_are(
    s: Seq<char>,
    n: u64,
    b: bool,
    v: Seq<JsonV>,
    j: JsonV,
)
    ensures
        json::str_of(Some(JsonV::Str(s))) == Some(s),
        json::u64_of(Some(JsonV::Num(NumberV::Unsigned(n)))) == Some(n),
        json::bool_of(Some(JsonV::Bool(b))) == Some(b),
        json::items_of(Some(JsonV::Arr(v))) == Some(v),
        !(j is Str) ==> json::str_of(Some(j)) is None,
        !(j is Bool) ==> json::bool_of(Some(j)) is None,
        !(j is Num) ==> json::u64_of(Some(j)) is None,
        !(j is Arr) ==> json::items_of(Some(j)) is None,
        json::str_of(None) is None,
        json::bool_of(None) is None,
        json::u64_of(None) is None,
        json::items_of(None) is None,
        json::opt_string(Some(s)) == JsonV::Str(s),
        json::opt_string(None) == JsonV::Null,
{
}

} // verus!

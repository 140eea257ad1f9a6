//! The texts that an agent writes: payloads of events and blocks, and explanations.
use crate::host::drivers::{CallV, DriverToolCall};
use crate::host::state::{LlmError, LlmErrorV};
use crate::json::{self, Json, JsonV, NumberV};
use crate::text;
use vstd::prelude::*;

verus! {

broadcast use crate::text::views_push;

/// What is told when a tool call begins; its arguments follow when it ends.
pub open spec fn use_value(c: CallV) -> JsonV {
    JsonV::Obj(seq![("id"@, JsonV::Str(c.id)), ("name"@, JsonV::Str(c.name))])
}

pub open spec fn args_value(id: Seq<char>, arguments: Seq<char>) -> JsonV {
    JsonV::Obj(seq![("arguments"@, JsonV::Str(arguments)), ("id"@, JsonV::Str(id))])
}

/// What is told of a tool's result.
pub open spec fn result_value(
    c: CallV,
    preview: Seq<char>,
    is_error: bool,
    created: u64,
    finished: u64,
) -> JsonV {
    JsonV::Obj(
        seq![
            ("created_at_ms"@, JsonV::Num(NumberV::Unsigned(created))),
            ("finished_at_ms"@, JsonV::Num(NumberV::Unsigned(finished))),
            ("id"@, JsonV::Str(c.id)),
            ("is_error"@, JsonV::Bool(is_error)),
            ("name"@, JsonV::Str(c.name)),
            ("result_preview"@, JsonV::Str(preview)),
        ],
    )
}

/// A tool call as it is kept in the log.
pub open spec fn kept_call(c: CallV) -> JsonV {
    JsonV::Obj(
        seq![
            ("arguments"@, JsonV::Str(c.arguments)),
            ("id"@, JsonV::Str(c.id)),
            ("name"@, JsonV::Str(c.name)),
        ],
    )
}

/// A tool's result as it is kept in the log.
pub open spec fn kept_result(c: CallV, output: Seq<char>, is_error: bool) -> JsonV {
    JsonV::Obj(
        seq![
            ("id"@, JsonV::Str(c.id)),
            ("is_error"@, JsonV::Bool(is_error)),
            ("name"@, JsonV::Str(c.name)),
            ("output"@, JsonV::Str(output)),
        ],
    )
}

pub fn tool_use_json(c: &DriverToolCall) -> (r: String)
    ensures
        r@ == json::json_text(use_value(c@)),
{
    let mut o = json::object();
    json::put(&mut o, "id", json::string(c.id.as_str()));
    json::put(&mut o, "name", json::string(c.name.as_str()));
    let j = Json::Obj(o);
    assert(json::members_view(o@) =~= seq![
        ("id"@, JsonV::Str(c@.id)),
        ("name"@, JsonV::Str(c@.name)),
    ]);
    json::render(&j)
}

pub fn tool_args_json(id: &str, arguments: &str) -> (r: String)
    ensures
        r@ == json::json_text(args_value(id@, arguments@)),
{
    let mut o = json::object();
    json::put(&mut o, "arguments", json::string(arguments));
    json::put(&mut o, "id", json::string(id));
    let j = Json::Obj(o);
    assert(json::members_view(o@) =~= seq![
        ("arguments"@, JsonV::Str(arguments@)),
        ("id"@, JsonV::Str(id@)),
    ]);
    json::render(&j)
}

pub fn tool_result_json(
    c: &DriverToolCall,
    preview: &str,
    is_error: bool,
    created: u64,
    finished: u64,
) -> (r: String)
    ensures
        r@ == json::json_text(result_value(c@, preview@, is_error, created, finished)),
{
    let mut o = json::object();
    json::put(&mut o, "created_at_ms", json::unsigned(created));
    json::put(&mut o, "finished_at_ms", json::unsigned(finished));
    json::put(&mut o, "id", json::string(c.id.as_str()));
    json::put(&mut o, "is_error", Json::Bool(is_error));
    json::put(&mut o, "name", json::string(c.name.as_str()));
    json::put(&mut o, "result_preview", json::string(preview));
    let j = Json::Obj(o);
    assert(json::members_view(o@) =~= seq![
        ("created_at_ms"@, JsonV::Num(NumberV::Unsigned(created))),
        ("finished_at_ms"@, JsonV::Num(NumberV::Unsigned(finished))),
        ("id"@, JsonV::Str(c@.id)),
        ("is_error"@, JsonV::Bool(is_error)),
        ("name"@, JsonV::Str(c@.name)),
        ("result_preview"@, JsonV::Str(preview@)),
    ]);
    json::render(&j)
}

proof fn lemma_keys()
    ensures
        text::text_lt("arguments"@, "id"@),
        text::text_lt("arguments"@, "name"@),
        text::text_lt("id"@, "name"@),
        text::text_lt("id"@, "is_error"@),
        text::text_lt("id"@, "output"@),
        text::text_lt("is_error"@, "name"@),
        text::text_lt("is_error"@, "output"@),
        text::text_lt("name"@, "output"@),
{
    reveal_strlit("arguments");
    reveal_strlit("id");
    reveal_strlit("name");
    reveal_strlit("is_error");
    reveal_strlit("output");
    assert(text::text_lt("id"@, "is_error"@)) by {
        let a = "id"@;
        let b = "is_error"@;
        assert(a.skip(1)[0] == 'd');
        assert(b.skip(1)[0] == 's');
        reveal_with_fuel(text::text_lt, 2);
    }
}

/// A tool call for the log. The text is read back as the call.
pub fn kept_call_text(c: &DriverToolCall) -> (r: String)
    ensures
        r@ == json::json_text(kept_call(c@)),
        json::json_value(r@) == Some(kept_call(c@)),
{
    let mut o = json::object();
    json::put(&mut o, "arguments", json::string(c.arguments.as_str()));
    json::put(&mut o, "id", json::string(c.id.as_str()));
    json::put(&mut o, "name", json::string(c.name.as_str()));
    let j = Json::Obj(o);
    assert(json::members_view(o@) =~= seq![
        ("arguments"@, JsonV::Str(c@.arguments)),
        ("id"@, JsonV::Str(c@.id)),
        ("name"@, JsonV::Str(c@.name)),
    ]);
    proof {
        assert(j@ == kept_call(c@));
        lemma_keys();
        reveal_strlit("arguments");
        json::lemma_short_key("arguments"@);
    }
    json::render(&j)
}

/// A tool's result for the log. The text is read back as the result.
pub fn kept_result_text(c: &DriverToolCall, output: &str, is_error: bool) -> (r: String)
    ensures
        r@ == json::json_text(kept_result(c@, output@, is_error)),
        json::json_value(r@) == Some(kept_result(c@, output@, is_error)),
{
    let mut o = json::object();
    json::put(&mut o, "id", json::string(c.id.as_str()));
    json::put(&mut o, "is_error", Json::Bool(is_error));
    json::put(&mut o, "name", json::string(c.name.as_str()));
    json::put(&mut o, "output", json::string(output));
    let j = Json::Obj(o);
    assert(json::members_view(o@) =~= seq![
        ("id"@, JsonV::Str(c@.id)),
        ("is_error"@, JsonV::Bool(is_error)),
        ("name"@, JsonV::Str(c@.name)),
        ("output"@, JsonV::Str(output@)),
    ]);
    proof {
        assert(j@ == kept_result(c@, output@, is_error));
        lemma_keys();
        reveal_strlit("id");
        json::lemma_short_key("id"@);
    }
    json::render(&j)
}

/// An explanation of a failure for people.
pub open spec fn explanation(e: LlmErrorV) -> Seq<char> {
    match e {
        LlmErrorV::Network => "network error reaching the provider"@,
        LlmErrorV::Auth => "authentication failed (check the provider API key)"@,
        LlmErrorV::RateLimited => "rate limited by the provider"@,
        LlmErrorV::Timeout => "request timed out"@,
        LlmErrorV::Cancelled => "cancelled"@,
        LlmErrorV::Internal(m) => m,
    }
}

pub fn describe_llm_error(err: &LlmError) -> (r: String)
    ensures
        r@ == explanation(err@),
{
    match err {
        LlmError::Network => text::owned("network error reaching the provider"),
        LlmError::Auth => text::owned("authentication failed (check the provider API key)"),
        LlmError::RateLimited => text::owned("rate limited by the provider"),
        LlmError::Timeout => text::owned("request timed out"),
        LlmError::Cancelled => text::owned("cancelled"),
        LlmError::Internal(m) => m.clone(),
    }
}

// ---- previews ----

/// How many characters, from the start, take at most `limit` bytes.
pub open spec fn fitting(s: Seq<char>, limit: int) -> int
    decreases s.len(),
{
    if s.len() == 0 || char_bytes(s[0]) > limit {
        0
    } else {
        1 + fitting(s.skip(1), limit - char_bytes(s[0]))
    }
}

/// How many bytes a character takes in UTF-8.
pub open spec fn char_bytes(c: char) -> int {
    let n = c as u32;
    if n < 0x80 {
        1
    } else if n < 0x800 {
        2
    } else if n < 0x10000 {
        3
    } else {
        4
    }
}

/// A text, cut before the first character that ends beyond `limit` bytes, with a
/// mark where it was cut.
pub open spec fn shortened(s: Seq<char>, limit: nat) -> Seq<char> {
    if fitting(s, limit as int) >= s.len() {
        s
    } else {
        s.take(fitting(s, limit as int)) + "\n…"@
    }
}

/// How many characters take at most `limit` bytes.
pub fn fit(v: &[char], limit: usize) -> (r: usize)
    ensures
        r == fitting(v@, limit as int),
        r <= v@.len(),
{
    let n: usize = v.len();
    let mut i: usize = 0;
    let mut left: usize = limit;
    assert(v@.skip(0) =~= v@);
    while i < n
        invariant_except_break
            fitting(v@, limit as int) == i + fitting(v@.skip(i as int), left as int),
        invariant
            n == v@.len(),
            i <= n,
        ensures
            i <= n,
            fitting(v@, limit as int) == i,
        decreases n - i,
    {
        let c: u32 = v[i] as u32;
        let w: usize = if c < 0x80 {
            1
        } else if c < 0x800 {
            2
        } else if c < 0x10000 {
            3
        } else {
            4
        };
        assert(v@.skip(i as int)[0] == v@[i as int]);
        assert(v@.skip(i as int).skip(1) =~= v@.skip(i as int + 1));
        if w > left {
            break;
        }
        left = left - w;
        i = i + 1;
    }
    i
}

pub fn truncate(s: &str, limit: usize) -> (r: String)
    ensures
        r@ == shortened(s@, limit as nat),
{
    let v = text::chars_of(s);
    let n: usize = v.len();
    let i: usize = fit(&v, limit);
    if i >= n {
        text::owned(s)
    } else {
        let head = text::string_of(&v, 0, i);
        assert(head@ =~= s@.take(i as int));
        head.concat("\n…")
    }
}

/// A cut text is a prefix of the whole and takes no more bytes than the limit.
pub proof fn a_preview_fits(s: Seq<char>, limit: nat)
    ensures
        0 <= fitting(s, limit as int) <= s.len(),
        width(s.take(fitting(s, limit as int))) <= limit,
        width(s) <= limit ==> shortened(s, limit) == s,
{
    lemma_fitting(s, limit as int);
}

pub open spec fn width(s: Seq<char>) -> int
    decreases s.len(),
{
    if s.len() == 0 {
        0
    } else {
        char_bytes(s[0]) + width(s.skip(1))
    }
}

proof fn lemma_fitting(s: Seq<char>, limit: int)
    requires
        limit >= 0,
    ensures
        0 <= fitting(s, limit) <= s.len(),
        width(s.take(fitting(s, limit))) <= limit,
        width(s) <= limit ==> fitting(s, limit) == s.len(),
        width(s) >= 0,
    decreases s.len(),
{
    if s.len() > 0 {
        let t = s.skip(1);
        if char_bytes(s[0]) <= limit {
            lemma_fitting(t, limit - char_bytes(s[0]));
            let k = fitting(s, limit);
            assert(s.take(k).skip(1) =~= t.take(k - 1));
        } else {
            lemma_fitting(t, 0);
        }
    }
}

} // verus!

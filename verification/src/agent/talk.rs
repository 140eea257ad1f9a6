//! What a model hears of a conversation.
use crate::agent::block::BlockV;
use crate::agent::chat;
use crate::agent::chat::ChatV;
use crate::agent::payload;
use crate::host::drivers::{CallV, MessageV};
use crate::host::state::LlmErrorV;
use crate::json;
use crate::json::{JsonV, NumberV};
use crate::json_laws;
use vstd::prelude::*;

verus! {

proof fn lemma_kinds()
    ensures
        "user"@ != "system"@,
        "user"@ != "text"@,
        "user"@ != "tool-use"@,
        "user"@ != "tool-result"@,
        "system"@ != "text"@,
        "system"@ != "tool-use"@,
        "system"@ != "tool-result"@,
        "text"@ != "tool-use"@,
        "text"@ != "tool-result"@,
        "tool-use"@ != "tool-result"@,
        "thinking"@ != "user"@,
        "thinking"@ != "system"@,
        "thinking"@ != "text"@,
        "thinking"@ != "tool-use"@,
        "thinking"@ != "tool-result"@,
{
    reveal_strlit("user");
    reveal_strlit("system");
    reveal_strlit("text");
    reveal_strlit("tool-use");
    reveal_strlit("tool-result");
    reveal_strlit("thinking");
    assert("user"@.len() == 4 && "system"@.len() == 6 && "text"@.len() == 4 && "tool-use"@.len() == 8 && "tool-result"@.len() == 11 && "thinking"@.len() == 8);
    assert("user"@[0] != "text"@[0]);
    assert("tool-use"@[1] != "thinking"@[1]);
}

/// What is still to be said, as one message of the assistant, if it is anything.
pub open spec fn waiting(c: ChatV) -> Seq<MessageV> {
    if c.content.len() == 0 && c.calls.len() == 0 {
        seq![]
    } else {
        seq![
            MessageV {
                role: "assistant"@,
                content: if c.content.len() == 0 {
                    None
                } else {
                    Some(c.content)
                },
                tool_calls: c.calls,
                tool_call_id: None,
            },
        ]
    }
}

/// A model hears what users and the system said in messages of their own, in their
/// order, behind all that the assistant has said before.
pub proof fn users_are_heard(blocks: Seq<BlockV>, b: BlockV)
    requires
        b.kind == "user"@ || b.kind == "system"@,
    ensures
        ({
            let c = chat::gathered(blocks);
            chat::chat(blocks.push(b)) == c.out + waiting(c) + seq![
                MessageV {
                    role: b.kind,
                    content: b.text,
                    tool_calls: seq![],
                    tool_call_id: None,
                },
            ]
        }),
{
    lemma_kinds();
    let all = blocks.push(b);
    assert(all.drop_last() =~= blocks);
    let c = chat::gathered(blocks);
    assert(chat::chat(all) =~= c.out + waiting(c) + seq![
        MessageV { role: b.kind, content: b.text, tool_calls: seq![], tool_call_id: None },
    ]);
}

/// All the text that the assistant says, one piece behind the other, and all the
/// calls it makes, in their order, are one message until another speaks; thinking is
/// never heard again.
pub proof fn the_assistant_is_heard(blocks: Seq<BlockV>, b: BlockV, c: CallV)
    ensures
        b.kind == "text"@ ==> {
            let was = chat::gathered(blocks);
            let now = chat::gathered(blocks.push(b));
            now.out == was.out && now.calls == was.calls && now.content == was.content + (
            match b.text {
                Some(t) => t,
                None => seq![],
            })
        },
        b.kind == "tool-use"@ && json::json_value(chat::body(b)) == Some(payload::kept_call(c))
            ==> {
            let was = chat::gathered(blocks);
            let now = chat::gathered(blocks.push(b));
            now.out == was.out && now.content == was.content && now.calls == was.calls.push(c)
        },
        b.kind == "thinking"@ ==> chat::chat(blocks.push(b)) == chat::chat(blocks),
        chat::chat(blocks) == chat::gathered(blocks).out + waiting(chat::gathered(blocks)),
{
    lemma_kinds();
    assert(blocks.push(b).drop_last() =~= blocks);
    chat::a_logged_call_reads_back(c);
    let g = chat::gathered(blocks);
    assert(chat::chat(blocks) =~= g.out + waiting(g));
}

/// What a tool gave is heard in a message of its own that names the call, with the
/// output as its content, behind all that the assistant has said before.
pub proof fn tools_are_heard(
    blocks: Seq<BlockV>,
    b: BlockV,
    c: CallV,
    out: Seq<char>,
    is_error: bool,
)
    requires
        b.kind == "tool-result"@,
        json::json_value(chat::body(b)) == Some(payload::kept_result(c, out, is_error)),
    ensures
        ({
            let was = chat::gathered(blocks);
            chat::chat(blocks.push(b)) == was.out + waiting(was) + seq![
                MessageV {
                    role: "tool"@,
                    content: Some(out),
                    tool_calls: seq![],
                    tool_call_id: Some(c.id),
                },
            ]
        }),
{
    lemma_kinds();
    let all = blocks.push(b);
    assert(all.drop_last() =~= blocks);
    chat::a_logged_result_reads_back(c, out, is_error);
    let was = chat::gathered(blocks);
    assert(chat::chat(all) =~= was.out + waiting(was) + seq![
        MessageV {
            role: "tool"@,
            content: Some(out),
            tool_calls: seq![],
            tool_call_id: Some(c.id),
        },
    ]);
}

/// What is told of a result names its call and its tool, shows the start of the
/// output, whether it failed, and when it started and ended.
pub proof fn a_result_is_told_as_it_is(
    c: CallV,
    preview: Seq<char>,
    is_error: bool,
    created: u64,
    finished: u64,
)
    ensures
        ({
            let v = payload::result_value(c, preview, is_error, created, finished);
            &&& json::field(v, "id"@) == Some(JsonV::Str(c.id))
            &&& json::field(v, "name"@) == Some(JsonV::Str(c.name))
            &&& json::field(v, "result_preview"@) == Some(JsonV::Str(preview))
            &&& json::field(v, "is_error"@) == Some(JsonV::Bool(is_error))
            &&& json::field(v, "created_at_ms"@) == Some(JsonV::Num(NumberV::Unsigned(created)))
            &&& json::field(v, "finished_at_ms"@) == Some(
                JsonV::Num(NumberV::Unsigned(finished)),
            )
        }),
{
    reveal_strlit("created_at_ms");
    reveal_strlit("finished_at_ms");
    reveal_strlit("id");
    reveal_strlit("is_error");
    reveal_strlit("name");
    reveal_strlit("result_preview");
    assert("created_at_ms"@.len() == 13 && "finished_at_ms"@.len() == 14 && "id"@.len() == 2 && "is_error"@.len() == 8 && "name"@.len() == 4 && "result_preview"@.len() == 14);
    assert("finished_at_ms"@[0] != "result_preview"@[0]);
    let m = payload::result_value(c, preview, is_error, created, finished)->Obj_0;
    json_laws::the_first_member_is_read(m, 0);
    json_laws::the_first_member_is_read(m, 1);
    json_laws::the_first_member_is_read(m, 2);
    json_laws::the_first_member_is_read(m, 3);
    json_laws::the_first_member_is_read(m, 4);
    json_laws::the_first_member_is_read(m, 5);
}

/// A preview is the text itself where it fits, and else the longest start of it that
/// does, with a mark behind it.
pub proof fn a_preview_is_the_longest_that_fits(s: Seq<char>, limit: nat)
    ensures
        ({
            let n = payload::fitting(s, limit as int);
            &&& 0 <= n <= s.len()
            &&& payload::width(s.take(n)) <= limit
            &&& n < s.len() ==> payload::width(s.take(n + 1)) > limit
            &&& payload::shortened(s, limit) == if n == s.len() {
                s
            } else {
                s.take(n) + "\n…"@
            }
        }),
{
    lemma_longest(s, limit as int);
}

proof fn lemma_longest(s: Seq<char>, limit: int)
    requires
        limit >= 0,
    ensures
        ({
            let n = payload::fitting(s, limit);
            &&& 0 <= n <= s.len()
            &&& payload::width(s.take(n)) <= limit
            &&& n < s.len() ==> payload::width(s.take(n + 1)) > limit
        }),
    decreases s.len(),
{
    if s.len() > 0 {
        let t = s.skip(1);
        if payload::char_bytes(s[0]) <= limit {
            lemma_longest(t, limit - payload::char_bytes(s[0]));
            let k = payload::fitting(t, limit - payload::char_bytes(s[0]));
            assert(s.take(k + 1)[0] == s[0]);
            assert(s.take(k + 1).skip(1) =~= t.take(k));
            if k < t.len() {
                assert(s.take(k + 2)[0] == s[0]);
                assert(s.take(k + 2).skip(1) =~= t.take(k + 1));
            }
        } else {
            assert(s.take(0) =~= seq![]);
            assert(s.take(1)[0] == s[0]);
            assert(s.take(1).skip(1) =~= seq![]);
        }
    } else {
        assert(s.take(0) =~= seq![]);
    }
}

/// A failure is explained in the provider's own words where it gave any, and no two
/// kinds of failure are explained alike.
pub proof fn failures_are_explained(m: Seq<char>)
    ensures
        payload::explanation(LlmErrorV::Internal(m)) == m,
        payload::explanation(LlmErrorV::Network) == "network error reaching the provider"@,
        payload::explanation(LlmErrorV::Auth)
            == "authentication failed (check the provider API key)"@,
        payload::explanation(LlmErrorV::RateLimited) == "rate limited by the provider"@,
        payload::explanation(LlmErrorV::Timeout) == "request timed out"@,
        payload::explanation(LlmErrorV::Cancelled) == "cancelled"@,
{
}

} // verus!

//! The log of a conversation as the messages of a request.
use crate::agent::block::{self, Block, BlockV};
use crate::agent::payload;
use crate::host::drivers::{self, CallV, DriverMessage, DriverToolCall, MessageV};
use crate::json::{self, Json, JsonV};
use crate::text;
use vstd::prelude::*;

verus! {

broadcast use crate::text::views_push;

/// The messages so far, with the assistant's text and calls that wait to become one.
#[verifier::ext_equal]
pub struct ChatV {
    pub out: Seq<MessageV>,
    pub content: Seq<char>,
    pub calls: Seq<CallV>,
}

pub open spec fn plain(role: Seq<char>, content: Option<Seq<char>>) -> MessageV {
    MessageV { role, content, tool_calls: seq![], tool_call_id: None }
}

/// The waiting text and calls become one message of the assistant.
pub open spec fn flushed(c: ChatV) -> ChatV {
    if c.content.len() == 0 && c.calls.len() == 0 {
        c
    } else {
        ChatV {
            out: c.out.push(
                MessageV {
                    role: "assistant"@,
                    content: if c.content.len() == 0 {
                        None
                    } else {
                        Some(c.content)
                    },
                    tool_calls: c.calls,
                    tool_call_id: None,
                },
            ),
            content: seq![],
            calls: seq![],
        }
    }
}

pub open spec fn body(b: BlockV) -> Seq<char> {
    match b.text {
        Some(t) => t,
        None => seq![],
    }
}

pub open spec fn call_in(v: JsonV) -> CallV {
    CallV {
        id: json::text_or_empty(json::field(v, "id"@)),
        name: json::text_or_empty(json::field(v, "name"@)),
        arguments: json::text_or_empty(json::field(v, "arguments"@)),
    }
}

pub open spec fn result_in(v: JsonV) -> MessageV {
    MessageV {
        role: "tool"@,
        content: Some(json::text_or_empty(json::field(v, "output"@))),
        tool_calls: seq![],
        tool_call_id: Some(json::text_or_empty(json::field(v, "id"@))),
    }
}

/// One block. Users and the system speak in messages of their own; text and calls
/// wait for the assistant's next message; thinking stays out. `read` is the value
/// that the block's text holds.
pub open spec fn joined(c: ChatV, b: BlockV, read: Option<JsonV>) -> ChatV {
    if b.kind == "user"@ || b.kind == "system"@ {
        let f = flushed(c);
        ChatV { out: f.out.push(plain(b.kind, b.text)), ..f }
    } else if b.kind == "text"@ {
        ChatV { content: c.content + body(b), ..c }
    } else if b.kind == "tool-use"@ {
        match read {
            Some(v) => ChatV { calls: c.calls.push(call_in(v)), ..c },
            None => c,
        }
    } else if b.kind == "tool-result"@ {
        match read {
            Some(v) => {
                let f = flushed(c);
                ChatV { out: f.out.push(result_in(v)), ..f }
            },
            None => c,
        }
    } else {
        c
    }
}

pub open spec fn gathered(blocks: Seq<BlockV>) -> ChatV
    decreases blocks.len(),
{
    if blocks.len() == 0 {
        ChatV { out: seq![], content: seq![], calls: seq![] }
    } else {
        let b = blocks.last();
        joined(gathered(blocks.drop_last()), b, json::json_value(body(b)))
    }
}

/// The messages of a log.
pub open spec fn chat(blocks: Seq<BlockV>) -> Seq<MessageV> {
    flushed(gathered(blocks)).out
}

/// The messages under construction.
pub struct Chat {
    pub out: Vec<DriverMessage>,
    pub content: String,
    pub calls: Vec<DriverToolCall>,
}

impl View for Chat {
    type V = ChatV;

    open spec fn view(&self) -> ChatV {
        ChatV {
            out: drivers::message_views(self.out@),
            content: self.content@,
            calls: drivers::call_views(self.calls@),
        }
    }
}

impl Chat {
    pub fn new() -> (r: Chat)
        ensures
            r@ == (ChatV { out: seq![], content: seq![], calls: seq![] }),
    {
        let c = Chat { out: Vec::new(), content: String::new(), calls: Vec::new() };
        assert(c@ =~= ChatV { out: seq![], content: seq![], calls: seq![] });
        c
    }

    fn put(&mut self, m: DriverMessage)
        ensures
            final(self)@ == (ChatV { out: old(self)@.out.push(m@), ..old(self)@ }),
    {
        let ghost before = self@;
        self.out.push(m);
        assert(self@ =~= ChatV { out: before.out.push(m@), ..before });
    }

    pub fn flush(&mut self)
        ensures
            final(self)@ == flushed(old(self)@),
    {
        if self.content.as_str().is_empty() && self.calls.len() == 0 {
            return ;
        }
        let ghost before = self@;
        let mut calls: Vec<DriverToolCall> = Vec::new();
        calls.append(&mut self.calls);
        let said = self.content.clone();
        self.content = String::new();
        let m = DriverMessage {
            role: text::owned("assistant"),
            content: if said.as_str().is_empty() {
                None
            } else {
                Some(said)
            },
            tool_calls: calls,
            tool_call_id: None,
        };
        assert(drivers::call_views(calls@) =~= before.calls);
        assert(self@ =~= ChatV { out: before.out, content: seq![], calls: seq![] });
        self.put(m);
    }

    /// Takes in one block, given the value that its text holds.
    pub fn join(&mut self, b: &Block, read: Option<&Json>)
        ensures
            final(self)@ == joined(old(self)@, b@, json::opt_view(read)),
    {
        let kind = b.kind.as_str();
        if text::same(kind, "user") || text::same(kind, "system") {
            self.flush();
            let none: Vec<DriverToolCall> = Vec::new();
            assert(drivers::call_views(none@) =~= seq![]);
            self.put(
                DriverMessage {
                    role: b.kind.clone(),
                    content: text::copy_opt(&b.text),
                    tool_calls: none,
                    tool_call_id: None,
                },
            );
        } else if text::same(kind, "text") {
            let ghost before = self@;
            if let Some(t) = &b.text {
                self.content.append(t.as_str());
            }
            assert(self@ =~= ChatV { content: before.content + body(b@), ..before });
        } else if text::same(kind, "tool-use") {
            if let Some(v) = read {
                let ghost before = self@;
                let call = DriverToolCall {
                    id: json::string_in(v.get("id")),
                    name: json::string_in(v.get("name")),
                    arguments: json::string_in(v.get("arguments")),
                };
                self.calls.push(call);
                assert(self@ =~= ChatV { calls: before.calls.push(call@), ..before });
            }
        } else if text::same(kind, "tool-result") {
            if let Some(v) = read {
                self.flush();
                let none: Vec<DriverToolCall> = Vec::new();
                assert(drivers::call_views(none@) =~= seq![]);
                self.put(
                    DriverMessage {
                        role: text::owned("tool"),
                        content: Some(json::string_in(v.get("output"))),
                        tool_calls: none,
                        tool_call_id: Some(json::string_in(v.get("id"))),
                    },
                );
            }
        }
    }
}

/// The messages of a log. Consecutive text and tool calls merge into one
/// message of the assistant; thinking is left out.
pub fn blocks_to_chat(blocks: &[Block]) -> (r: Vec<DriverMessage>)
    ensures
        drivers::message_views(r@) == chat(block::block_views(blocks@)),
{
    let ghost all = block::block_views(blocks@);
    let n: usize = blocks.len();
    let mut c = Chat::new();
    let mut i: usize = 0;
    assert(all.take(0) =~= seq![]);
    while i < n
        invariant
            n == blocks@.len(),
            i <= n,
            all == block::block_views(blocks@),
            c@ == gathered(all.take(i as int)),
        decreases n - i,
    {
        assert(all.take(i as int + 1).drop_last() =~= all.take(i as int));
        assert(all.take(i as int + 1).last() == blocks@[i as int]@);
        let kind = blocks[i].kind.as_str();
        if text::same(kind, "tool-use") || text::same(kind, "tool-result") {
            let held = match &blocks[i].text {
                Some(t) => json::parse(t.as_str()),
                None => {
                    let e = String::new();
                    assert(e@ =~= seq![]);
                    json::parse(e.as_str())
                },
            };
            match &held {
                Ok(v) => c.join(&blocks[i], Some(v)),
                Err(_) => c.join(&blocks[i], None),
            }
        } else {
            c.join(&blocks[i], None);
        }
        i = i + 1;
    }
    assert(all.take(i as int) =~= all);
    c.flush();
    c.out
}

// ---- laws ----

/// A tool call that the agent logged is asked of the model again as it was.
pub proof fn a_logged_call_reads_back(c: CallV)
    ensures
        call_in(payload::kept_call(c)) == c,
{
    reveal_strlit("arguments");
    reveal_strlit("id");
    reveal_strlit("name");
    reveal_with_fuel(json::member, 4);
    let v = payload::kept_call(c);
    let m = v->Obj_0;
    assert("arguments"@.len() != "id"@.len() && "arguments"@.len() != "name"@.len()
        && "id"@.len() != "name"@.len());
    assert(m.skip(1)[0] == m[1]);
    assert(m.skip(1).skip(1)[0] == m[2]);
}

/// A tool's result that the agent logged is told to the model as it was.
pub proof fn a_logged_result_reads_back(c: CallV, output: Seq<char>, is_error: bool)
    ensures
        result_in(payload::kept_result(c, output, is_error)).content == Some(output),
        result_in(payload::kept_result(c, output, is_error)).tool_call_id == Some(c.id),
{
    reveal_strlit("output");
    reveal_strlit("id");
    reveal_strlit("name");
    reveal_strlit("is_error");
    reveal_with_fuel(json::member, 5);
    let v = payload::kept_result(c, output, is_error);
    let m = v->Obj_0;
    assert(m.skip(1)[0] == m[1]);
    assert(m.skip(1).skip(1)[0] == m[2]);
    assert(m.skip(1).skip(1).skip(1)[0] == m[3]);
    assert("output"@.len() != "id"@.len() && "output"@.len() != "name"@.len() && "output"@.len()
        != "is_error"@.len());
}

/// Thinking never reaches the model again.
pub proof fn thinking_stays_out(c: ChatV, b: BlockV, read: Option<JsonV>)
    requires
        b.kind == "thinking"@,
    ensures
        joined(c, b, read) == c,
{
    reveal_strlit("thinking");
    reveal_strlit("user");
    reveal_strlit("system");
    reveal_strlit("text");
    reveal_strlit("tool-use");
    reveal_strlit("tool-result");
    assert("thinking"@.len() == 8);
    assert("tool-use"@.len() == 8);
    assert("thinking"@[1] != "tool-use"@[1]);
}

} // verus!

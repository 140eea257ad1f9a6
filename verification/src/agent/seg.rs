//! Segments: what one stream of a model brings, piece by piece.
use crate::agent::block::{self, Block, BlockV};
use crate::agent::payload;
use crate::host::drivers::{self, CallV, DriverToolCall, Usage};
use crate::json;
use crate::text;
use vstd::prelude::*;

verus! {

broadcast use crate::text::views_push;

pub enum What {
    Thinking(String),
    Text(String),
    ToolUse(DriverToolCall),
}

pub enum WhatV {
    Thinking(Seq<char>),
    Text(Seq<char>),
    ToolUse(CallV),
}

impl View for What {
    type V = WhatV;

    open spec fn view(&self) -> WhatV {
        match self {
            What::Thinking(t) => WhatV::Thinking(t@),
            What::Text(t) => WhatV::Text(t@),
            What::ToolUse(c) => WhatV::ToolUse(c@),
        }
    }
}

/// One segment with the moments it began and ended; 0 while it is open.
pub struct Seg {
    pub what: What,
    pub created: u64,
    pub finished: u64,
}

pub struct SegV {
    pub what: WhatV,
    pub created: u64,
    pub finished: u64,
}

impl View for Seg {
    type V = SegV;

    open spec fn view(&self) -> SegV {
        SegV { what: self.what@, created: self.created, finished: self.finished }
    }
}

pub open spec fn seg_views(v: Seq<Seg>) -> Seq<SegV> {
    v.map_values(|s: Seg| s@)
}

/// The last segment, if it is open, ends at `at`.
pub open spec fn closed_last(s: Seq<SegV>, at: u64) -> Seq<SegV> {
    if s.len() > 0 && s.last().finished == 0 {
        s.drop_last().push(SegV { finished: at, ..s.last() })
    } else {
        s
    }
}

/// Text goes on in a last segment of text, and else begins a new one.
pub open spec fn with_text(s: Seq<SegV>, t: Seq<char>, at: u64) -> Seq<SegV> {
    if s.len() > 0 && s.last().what is Text {
        s.drop_last().push(SegV { what: WhatV::Text(s.last().what->Text_0 + t), ..s.last() })
    } else {
        closed_last(s, at).push(SegV { what: WhatV::Text(t), created: at, finished: 0 })
    }
}

pub open spec fn with_thinking(s: Seq<SegV>, t: Seq<char>, at: u64) -> Seq<SegV> {
    if s.len() > 0 && s.last().what is Thinking {
        s.drop_last().push(
            SegV { what: WhatV::Thinking(s.last().what->Thinking_0 + t), ..s.last() },
        )
    } else {
        closed_last(s, at).push(SegV { what: WhatV::Thinking(t), created: at, finished: 0 })
    }
}

pub fn close_last(segs: &mut Vec<Seg>, at: u64)
    ensures
        seg_views(final(segs)@) == closed_last(seg_views(old(segs)@), at),
{
    let ghost before = seg_views(segs@);
    match segs.pop() {
        Some(s) => {
            let mut s = s;
            assert(seg_views(segs@) =~= before.drop_last());
            if s.finished == 0 {
                s.finished = at;
            }
            segs.push(s);
            assert(seg_views(segs@) =~= before.drop_last().push(s@));
            assert(before =~= before.drop_last().push(before.last()));
        },
        None => {},
    }
}

pub fn push_text(segs: &mut Vec<Seg>, t: &str, at: u64)
    ensures
        seg_views(final(segs)@) == with_text(seg_views(old(segs)@), t@, at),
{
    let ghost before = seg_views(segs@);
    match segs.pop() {
        Some(s) => {
            assert(seg_views(segs@) =~= before.drop_last());
            assert(s@ == before.last());
            match s.what {
                What::Text(buf) => {
                    let grown = Seg {
                        what: What::Text(buf.concat(t)),
                        created: s.created,
                        finished: s.finished,
                    };
                    segs.push(grown);
                    assert(seg_views(segs@) =~= before.drop_last().push(grown@));
                    return ;
                },
                other => {
                    let same = Seg { what: other, created: s.created, finished: s.finished };
                    segs.push(same);
                    assert(seg_views(segs@) =~= before.drop_last().push(same@));
                    assert(before =~= before.drop_last().push(before.last()));
                },
            }
        },
        None => {},
    }
    close_last(segs, at);
    let ghost mid = seg_views(segs@);
    let new = Seg { what: What::Text(text::owned(t)), created: at, finished: 0 };
    segs.push(new);
    assert(seg_views(segs@) =~= mid.push(new@));
}

pub fn push_thinking(segs: &mut Vec<Seg>, t: &str, at: u64)
    ensures
        seg_views(final(segs)@) == with_thinking(seg_views(old(segs)@), t@, at),
{
    let ghost before = seg_views(segs@);
    match segs.pop() {
        Some(s) => {
            assert(seg_views(segs@) =~= before.drop_last());
            assert(s@ == before.last());
            match s.what {
                What::Thinking(buf) => {
                    let grown = Seg {
                        what: What::Thinking(buf.concat(t)),
                        created: s.created,
                        finished: s.finished,
                    };
                    segs.push(grown);
                    assert(seg_views(segs@) =~= before.drop_last().push(grown@));
                    return ;
                },
                other => {
                    let same = Seg { what: other, created: s.created, finished: s.finished };
                    segs.push(same);
                    assert(seg_views(segs@) =~= before.drop_last().push(same@));
                    assert(before =~= before.drop_last().push(before.last()));
                },
            }
        },
        None => {},
    }
    close_last(segs, at);
    let ghost mid = seg_views(segs@);
    let new = Seg { what: What::Thinking(text::owned(t)), created: at, finished: 0 };
    segs.push(new);
    assert(seg_views(segs@) =~= mid.push(new@));
}

/// The block of a segment. One still open ends with the stream.
pub open spec fn block_of(s: SegV, version: Seq<char>, end: u64, usage: Usage) -> BlockV {
    BlockV {
        agent_version_id: version,
        kind: match s.what {
            WhatV::Thinking(_) => "thinking"@,
            WhatV::Text(_) => "text"@,
            WhatV::ToolUse(_) => "tool-use"@,
        },
        text: Some(
            match s.what {
                WhatV::Thinking(t) => t,
                WhatV::Text(t) => t,
                WhatV::ToolUse(c) => json::json_text(payload::kept_call(c)),
            },
        ),
        usage,
        created_at_ms: s.created,
        finished_at_ms: if s.finished == 0 {
            end
        } else {
            s.finished
        },
    }
}

/// The text of a tool call's block is read back as the call.
pub open spec fn reads_back(s: SegV) -> bool {
    match s.what {
        WhatV::ToolUse(c) => json::json_value(json::json_text(payload::kept_call(c))) == Some(
            payload::kept_call(c),
        ),
        _ => true,
    }
}

impl Seg {
    pub fn into_block(self, version: &str, end: u64, usage: &Usage) -> (r: Block)
        ensures
            r@ == block_of(self@, version@, end, *usage),
            reads_back(self@),
    {
        let (kind, body) = match self.what {
            What::Thinking(t) => (text::owned("thinking"), t),
            What::Text(t) => (text::owned("text"), t),
            What::ToolUse(c) => {
                let body = payload::kept_call_text(&c);
                (text::owned("tool-use"), body)
            },
        };
        Block {
            agent_version_id: text::owned(version),
            kind,
            text: Some(body),
            usage: *usage,
            created_at_ms: self.created,
            finished_at_ms: if self.finished == 0 {
                end
            } else {
                self.finished
            },
        }
    }
}

/// The block of a tool's result.
pub open spec fn result_of(
    version: Seq<char>,
    c: CallV,
    output: Seq<char>,
    is_error: bool,
    created: u64,
    finished: u64,
) -> BlockV {
    BlockV {
        agent_version_id: version,
        kind: "tool-result"@,
        text: Some(json::json_text(payload::kept_result(c, output, is_error))),
        usage: drivers::no_usage(),
        created_at_ms: created,
        finished_at_ms: finished,
    }
}

pub fn tool_result_block(
    version: &str,
    c: &DriverToolCall,
    output: &str,
    is_error: bool,
    created: u64,
    finished: u64,
) -> (r: Block)
    ensures
        r@ == result_of(version@, c@, output@, is_error, created, finished),
        json::json_value(json::json_text(payload::kept_result(c@, output@, is_error))) == Some(
            payload::kept_result(c@, output@, is_error),
        ),
{
    Block {
        agent_version_id: text::owned(version),
        kind: text::owned("tool-result"),
        text: Some(payload::kept_result_text(c, output, is_error)),
        usage: Usage::default(),
        created_at_ms: created,
        finished_at_ms: finished,
    }
}

// ---- laws ----

/// The text of all text segments, in their order.
pub open spec fn all_text(s: Seq<SegV>) -> Seq<char>
    decreases s.len(),
{
    if s.len() == 0 {
        seq![]
    } else {
        all_text(s.drop_last()) + match s.last().what {
            WhatV::Text(t) => t,
            _ => seq![],
        }
    }
}

proof fn lemma_closed_text(s: Seq<SegV>, at: u64)
    ensures
        all_text(closed_last(s, at)) == all_text(s),
{
    if s.len() > 0 && s.last().finished == 0 {
        let t = closed_last(s, at);
        assert(t.drop_last() =~= s.drop_last());
    }
}

/// No text is lost or moved: a piece of text goes behind all the text so far,
/// and thinking leaves the text alone.
pub proof fn text_accumulates(s: Seq<SegV>, t: Seq<char>, at: u64)
    ensures
        all_text(with_text(s, t, at)) == all_text(s) + t,
        all_text(with_thinking(s, t, at)) == all_text(s),
{
    let a = with_text(s, t, at);
    let b = with_thinking(s, t, at);
    lemma_closed_text(s, at);
    if s.len() > 0 && s.last().what is Text {
        assert(a.drop_last() =~= s.drop_last());
        assert(all_text(s.drop_last()) + (s.last().what->Text_0 + t) =~= all_text(s) + t);
    } else {
        assert(a.drop_last() =~= closed_last(s, at));
    }
    if s.len() > 0 && s.last().what is Thinking {
        assert(b.drop_last() =~= s.drop_last());
    } else {
        assert(b.drop_last() =~= closed_last(s, at));
        assert(all_text(s) + seq![] =~= all_text(s));
    }
}

} // verus!

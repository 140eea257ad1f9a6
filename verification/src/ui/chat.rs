//! The conversation as it is shown, and how a stream changes it.
use crate::agent::payload;
use crate::json::{self, Json, JsonV};
use crate::text;
use crate::ui::sse::SseEvent;
use vstd::prelude::*;

verus! {

broadcast use crate::text::views_push;

/// One block of a conversation. A tool's call and its result are shown as text.
#[derive(Debug, PartialEq)]
pub enum UiBlock {
    User(String),
    Thinking(String),
    Text(String),
    Tool(String),
}

pub enum UiBlockV {
    User(Seq<char>),
    Thinking(Seq<char>),
    Text(Seq<char>),
    Tool(Seq<char>),
}

impl View for UiBlock {
    type V = UiBlockV;

    open spec fn view(&self) -> UiBlockV {
        match self {
            UiBlock::User(t) => UiBlockV::User(t@),
            UiBlock::Thinking(t) => UiBlockV::Thinking(t@),
            UiBlock::Text(t) => UiBlockV::Text(t@),
            UiBlock::Tool(t) => UiBlockV::Tool(t@),
        }
    }
}

/// A block with its number and the moments it began and ended; 0 while it is open.
#[derive(Debug, PartialEq)]
pub struct MsgEntry {
    pub id: u64,
    pub created: u64,
    pub finished: u64,
    pub block: UiBlock,
}

pub struct EntryV {
    pub id: u64,
    pub created: u64,
    pub finished: u64,
    pub block: UiBlockV,
}

impl View for MsgEntry {
    type V = EntryV;

    open spec fn view(&self) -> EntryV {
        EntryV {
            id: self.id,
            created: self.created,
            finished: self.finished,
            block: self.block@,
        }
    }
}

pub open spec fn entry_views(v: Seq<MsgEntry>) -> Seq<EntryV> {
    v.map_values(|e: MsgEntry| e@)
}

// ---- texts ----

/// A text cut before the first character that ends beyond `limit` bytes, with an
/// ellipsis where it was cut.
pub open spec fn clipped(s: Seq<char>, limit: nat) -> Seq<char> {
    if payload::fitting(s, limit as int) >= s.len() {
        s
    } else {
        s.take(payload::fitting(s, limit as int)) + "…"@
    }
}

pub fn truncate(s: &str, limit: usize) -> (r: String)
    ensures
        r@ == clipped(s@, limit as nat),
{
    let v = text::chars_of(s);
    let n: usize = v.len();
    let at: usize = payload::fit(&v, limit);
    if at >= n {
        text::owned(s)
    } else {
        let head = text::string_of(&v, 0, at);
        assert(head@ =~= s@.take(at as int));
        head.concat("…")
    }
}

/// The first eight characters of an id.
pub open spec fn short(id: Seq<char>) -> Seq<char> {
    if id.len() > 8 {
        id.take(8)
    } else {
        id
    }
}

pub fn short_id(id: &str) -> (r: String)
    ensures
        r@ == short(id@),
{
    let v = text::chars_of(id);
    if v.len() > 8 {
        let head = text::string_of(&v, 0, 8);
        assert(head@ =~= id@.take(8));
        head
    } else {
        text::owned(id)
    }
}

pub open spec fn token_count(u: JsonV, key: Seq<char>) -> u64 {
    match json::u64_of(json::field(u, key)) {
        Some(n) => n,
        None => 0,
    }
}

pub open spec fn usage_line(u: JsonV) -> Seq<char> {
    "in "@ + text::decimal(token_count(u, "input_tokens"@) as int) + " | cache read "@
        + text::decimal(token_count(u, "cache_read_tokens"@) as int) + " + write "@
        + text::decimal(token_count(u, "cache_creation_tokens"@) as int) + " | out "@
        + text::decimal(token_count(u, "output_tokens"@) as int)
}

fn count_in(u: &Json, key: &str) -> (r: u64)
    ensures
        r == token_count(u@, key@),
{
    match json::u64_in(u.get(key)) {
        Some(n) => n,
        None => 0,
    }
}

pub fn fmt_usage(u: &Json) -> (r: String)
    ensures
        r@ == usage_line(u@),
{
    text::owned("in ").concat(text::u64_text(count_in(u, "input_tokens")).as_str()).concat(
        " | cache read ",
    ).concat(text::u64_text(count_in(u, "cache_read_tokens")).as_str()).concat(
        " + write ",
    ).concat(text::u64_text(count_in(u, "cache_creation_tokens")).as_str()).concat(
        " | out ",
    ).concat(text::u64_text(count_in(u, "output_tokens")).as_str())
}

/// Three digits.
pub open spec fn three(n: int) -> Seq<char> {
    seq![
        text::digit_char(n / 100 % 10),
        text::digit_char(n / 10 % 10),
        text::digit_char(n % 10),
    ]
}

/// How long something took, in seconds to the millisecond; nothing takes less than none.
pub open spec fn duration_text(created: u64, finished: u64) -> Seq<char> {
    let ms = if finished > created {
        finished - created
    } else {
        0
    };
    text::decimal(ms / 1000) + "."@ + three(ms % 1000) + "s"@
}

fn digit_of(d: u64) -> (c: char)
    requires
        d < 10,
    ensures
        c == text::digit_char(d as int),
{
    (48u8 + d as u8) as char
}

pub fn fmt_duration(created: u64, finished: u64) -> (r: String)
    ensures
        r@ == duration_text(created, finished),
{
    let ms: u64 = finished.saturating_sub(created);
    let f: u64 = ms % 1000;
    let mut s = text::u64_text(ms / 1000).concat(".");
    s.push(digit_of(f / 100 % 10));
    s.push(digit_of(f / 10 % 10));
    s.push(digit_of(f % 10));
    s.push('s');
    proof {
        reveal_strlit("s");
        assert(s@ =~= duration_text(created, finished));
    }
    s
}

// ---- history ----

pub open spec fn time_in(m: JsonV, key: Seq<char>) -> u64 {
    match json::u64_of(json::field(m, key)) {
        Some(n) => n,
        None => 0,
    }
}

pub open spec fn member_text(m: JsonV, key: Seq<char>) -> Seq<char> {
    json::text_or_empty(json::field(m, key))
}

/// How a tool's call is shown: its name, then its arguments.
pub open spec fn call_text(name: Seq<char>, args: Seq<char>) -> Seq<char> {
    if args.len() == 0 {
        name
    } else {
        name + " "@ + args
    }
}

/// How a tool's result is shown.
pub open spec fn result_text(is_error: bool, preview: Seq<char>) -> Seq<char> {
    if is_error {
        "→ error: "@ + preview
    } else {
        "→ "@ + preview
    }
}

pub open spec fn told_error(m: JsonV) -> bool {
    json::bool_of(json::field(m, "is_error"@)) == Some(true)
}

/// The block of one message of a session's log; none for a kind that is not shown.
pub open spec fn shown(m: JsonV) -> Option<UiBlockV> {
    let kind = member_text(m, "kind"@);
    if kind == "user"@ {
        Some(UiBlockV::User(member_text(m, "text"@)))
    } else if kind == "thinking"@ {
        Some(UiBlockV::Thinking(member_text(m, "text"@)))
    } else if kind == "text"@ {
        Some(UiBlockV::Text(member_text(m, "text"@)))
    } else if kind == "tool-use"@ {
        Some(
            UiBlockV::Tool(
                call_text(member_text(m, "tool_name"@), member_text(m, "arguments"@)),
            ),
        )
    } else if kind == "tool-result"@ {
        Some(UiBlockV::Tool(result_text(told_error(m), clipped(member_text(m, "text"@), 500))))
    } else {
        None
    }
}

/// The entries of a session's log, numbered from `next` on.
pub open spec fn history(v: Seq<JsonV>, next: int) -> Seq<EntryV>
    decreases v.len(),
{
    if v.len() == 0 {
        seq![]
    } else {
        let done = history(v.drop_last(), next);
        match shown(v.last()) {
            Some(block) => done.push(
                EntryV {
                    id: (next + done.len() + 1) as u64,
                    created: time_in(v.last(), "created_at_ms"@),
                    finished: time_in(v.last(), "finished_at_ms"@),
                    block,
                },
            ),
            None => done,
        }
    }
}

pub open spec fn messages_in(v: JsonV) -> Seq<JsonV> {
    match json::items_of(json::field(v, "messages"@)) {
        Some(items) => items,
        None => seq![],
    }
}

fn time_of(m: &Json, key: &str) -> (r: u64)
    ensures
        r == time_in(m@, key@),
{
    match json::u64_in(m.get(key)) {
        Some(n) => n,
        None => 0,
    }
}

fn str_of(m: &Json, key: &str) -> (r: String)
    ensures
        r@ == member_text(m@, key@),
{
    json::string_in(m.get(key))
}

fn error_told(m: &Json) -> (r: bool)
    ensures
        r == told_error(m@),
{
    match json::bool_in(m.get("is_error")) {
        Some(b) => b,
        None => false,
    }
}

fn result_line(is_error: bool, preview: &str) -> (r: String)
    ensures
        r@ == result_text(is_error, preview@),
{
    if is_error {
        text::owned("→ error: ").concat(preview)
    } else {
        text::owned("→ ").concat(preview)
    }
}

pub open spec fn block_view(b: Option<UiBlock>) -> Option<UiBlockV> {
    match b {
        Some(x) => Some(x@),
        None => None,
    }
}

fn show(m: &Json) -> (r: Option<UiBlock>)
    ensures
        block_view(r) == shown(m@),
{
    let kind = str_of(m, "kind");
    let k = kind.as_str();
    if text::same(k, "user") {
        Some(UiBlock::User(str_of(m, "text")))
    } else if text::same(k, "thinking") {
        Some(UiBlock::Thinking(str_of(m, "text")))
    } else if text::same(k, "text") {
        Some(UiBlock::Text(str_of(m, "text")))
    } else if text::same(k, "tool-use") {
        let name = str_of(m, "tool_name");
        let args = str_of(m, "arguments");
        if args.as_str().is_empty() {
            Some(UiBlock::Tool(name))
        } else {
            Some(UiBlock::Tool(name.concat(" ").concat(args.as_str())))
        }
    } else if text::same(k, "tool-result") {
        let preview = truncate(str_of(m, "text").as_str(), 500);
        Some(UiBlock::Tool(result_line(error_told(m), preview.as_str())))
    } else {
        None
    }
}

pub proof fn lemma_history_len(v: Seq<JsonV>, next: int)
    ensures
        history(v, next).len() <= v.len(),
    decreases v.len(),
{
    if v.len() > 0 {
        lemma_history_len(v.drop_last(), next);
    }
}

/// Rebuilds the entries from a session's log. The numbers go on from `next_id`,
/// which is the last one taken.
pub fn build_history(v: &Json, next_id: &mut u64) -> (r: Vec<MsgEntry>)
    requires
        *old(next_id) + messages_in(v@).len() <= u64::MAX,
    ensures
        entry_views(r@) == history(messages_in(v@), *old(next_id) as int),
        *final(next_id) == *old(next_id) + r@.len(),
{
    let mut out: Vec<MsgEntry> = Vec::new();
    let ghost first = *next_id as int;
    let ghost all = messages_in(v@);
    assert(entry_views(out@) =~= seq![]);
    let items = match v.get("messages") {
        Some(j) => match j.as_array() {
            Some(items) => items,
            None => {
                return out;
            },
        },
        None => {
            return out;
        },
    };
    proof {
        json::lemma_items(items@);
    }
    let mut i: usize = 0;
    assert(all.take(0) =~= seq![]);
    while i < items.len()
        invariant
            i <= items@.len(),
            all == json::items_view(items@),
            all.len() == items@.len(),
            forall|k: int| 0 <= k < all.len() ==> #[trigger] all[k] == json::json_view(items@[k]),
            first + all.len() <= u64::MAX,
            entry_views(out@) == history(all.take(i as int), first),
            *next_id == first + out@.len(),
            out@.len() <= i,
        decreases items@.len() - i,
    {
        let m = &items[i];
        assert(all.take(i as int + 1).drop_last() =~= all.take(i as int));
        assert(all.take(i as int + 1).last() == m@);
        if let Some(block) = show(m) {
            let ghost had = out@;
            *next_id = *next_id + 1;
            let e = MsgEntry {
                id: *next_id,
                created: time_of(m, "created_at_ms"),
                finished: time_of(m, "finished_at_ms"),
                block,
            };
            out.push(e);
            assert(entry_views(had).len() == had.len());
            assert(entry_views(out@) =~= entry_views(had).push(e@));
        }
        i = i + 1;
    }
    assert(all.take(i as int) =~= all);
    out
}

// ---- the stream ----

pub open spec fn is_user(b: UiBlockV) -> bool {
    b is User
}

/// The last open block of a user, or of anyone else, ends at `at`.
pub open spec fn stamped(s: Seq<EntryV>, user: bool, at: u64) -> Seq<EntryV>
    decreases s.len(),
{
    if s.len() == 0 {
        s
    } else if s.last().finished == 0 && is_user(s.last().block) == user {
        s.drop_last().push(EntryV { finished: at, ..s.last() })
    } else {
        stamped(s.drop_last(), user, at).push(s.last())
    }
}

/// The last block of a tool goes on with `more`.
pub open spec fn tool_grown(s: Seq<EntryV>, more: Seq<char>) -> Seq<EntryV>
    decreases s.len(),
{
    if s.len() == 0 {
        s
    } else {
        match s.last().block {
            UiBlockV::Tool(t) => s.drop_last().push(
                EntryV { block: UiBlockV::Tool(t + more), ..s.last() },
            ),
            _ => tool_grown(s.drop_last(), more).push(s.last()),
        }
    }
}

/// The two kinds of text that are streamed.
#[derive(Debug, Clone, Copy, PartialEq, Eq, Structural)]
pub enum Streamed {
    Thinking,
    Text,
}

pub open spec fn streamed_block(kind: Streamed, t: Seq<char>) -> UiBlockV {
    match kind {
        Streamed::Thinking => UiBlockV::Thinking(t),
        Streamed::Text => UiBlockV::Text(t),
    }
}

/// The text of a block of that kind.
pub open spec fn streamed_text(kind: Streamed, b: UiBlockV) -> Option<Seq<char>> {
    match (kind, b) {
        (Streamed::Thinking, UiBlockV::Thinking(t)) => Some(t),
        (Streamed::Text, UiBlockV::Text(t)) => Some(t),
        _ => None,
    }
}

/// The last block is of that kind.
pub open spec fn goes_on(s: Seq<EntryV>, kind: Streamed) -> bool {
    s.len() > 0 && streamed_text(kind, s.last().block) is Some
}

/// Text goes on in a last block of its kind; else the block before it ends and a
/// new one begins.
pub open spec fn streamed(s: Seq<EntryV>, next: u64, now: u64, kind: Streamed, t: Seq<char>) -> Seq<
    EntryV,
> {
    if goes_on(s, kind) {
        let was = streamed_text(kind, s.last().block)->0;
        s.drop_last().push(EntryV { block: streamed_block(kind, was + t), ..s.last() })
    } else {
        stamped(s, false, now).push(
            EntryV {
                id: (next + 1) as u64,
                created: now,
                finished: 0,
                block: streamed_block(kind, t),
            },
        )
    }
}

fn same_side(b: &UiBlock, user: bool) -> (r: bool)
    ensures
        r == (is_user(b@) == user),
{
    match b {
        UiBlock::User(_) => user,
        _ => !user,
    }
}

fn stamp(messages: &mut Vec<MsgEntry>, user: bool, at: u64)
    ensures
        entry_views(final(messages)@) == stamped(entry_views(old(messages)@), user, at),
{
    let ghost all = entry_views(messages@);
    let n: usize = messages.len();
    let mut i: usize = n;
    assert(all.take(n as int) =~= all);
    assert(stamped(all, user, at) =~= stamped(all.take(n as int), user, at) + all.skip(n as int));
    while i > 0
        invariant
            i <= n,
            n == all.len(),
            all == entry_views(old(messages)@),
            messages@ == old(messages)@,
            stamped(all, user, at) == stamped(all.take(i as int), user, at) + all.skip(i as int),
        decreases i,
    {
        let ghost head = all.take(i as int);
        assert(head.last() == messages@[i - 1]@);
        assert(head.drop_last() =~= all.take(i - 1));
        if messages[i - 1].finished == 0 && same_side(&messages[i - 1].block, user) {
            let mut e = messages.remove(i - 1);
            assert(e@ == all[i - 1]);
            e.finished = at;
            messages.insert(i - 1, e);
            assert(entry_views(messages@) =~= stamped(all, user, at));
            return ;
        }
        i = i - 1;
        assert(stamped(all.take(i as int), user, at).push(all[i as int]) + all.skip(i + 1)
            =~= stamped(all.take(i as int), user, at) + all.skip(i as int));
    }
    assert(entry_views(messages@) =~= stamped(all, user, at));
}

/// Ends the last open block that is not the user's, so that each block lasts
/// until the next begins.
pub fn close_open_assistant(messages: &mut Vec<MsgEntry>, at: u64)
    ensures
        entry_views(final(messages)@) == stamped(entry_views(old(messages)@), false, at),
{
    stamp(messages, false, at);
}

/// Ends the user's block, which lasts for the whole turn.
pub fn finish_user(messages: &mut Vec<MsgEntry>, at: u64)
    ensures
        entry_views(final(messages)@) == stamped(entry_views(old(messages)@), true, at),
{
    stamp(messages, true, at);
}

fn append_last_tool(messages: &mut Vec<MsgEntry>, more: &str)
    ensures
        entry_views(final(messages)@) == tool_grown(entry_views(old(messages)@), more@),
{
    let ghost all = entry_views(messages@);
    let n: usize = messages.len();
    let mut i: usize = n;
    assert(all.take(n as int) =~= all);
    assert(tool_grown(all, more@) =~= tool_grown(all.take(n as int), more@) + all.skip(n as int));
    while i > 0
        invariant
            i <= n,
            n == all.len(),
            all == entry_views(old(messages)@),
            messages@ == old(messages)@,
            tool_grown(all, more@) == tool_grown(all.take(i as int), more@) + all.skip(i as int),
        decreases i,
    {
        let ghost head = all.take(i as int);
        assert(head.last() == messages@[i - 1]@);
        assert(head.drop_last() =~= all.take(i - 1));
        if matches!(messages[i - 1].block, UiBlock::Tool(_)) {
            let e = messages.remove(i - 1);
            assert(e@ == all[i - 1]);
            let block = match e.block {
                UiBlock::Tool(t) => UiBlock::Tool(t.concat(more)),
                other => other,
            };
            let grown = MsgEntry { id: e.id, created: e.created, finished: e.finished, block };
            messages.insert(i - 1, grown);
            assert(entry_views(messages@) =~= tool_grown(all, more@));
            return ;
        }
        i = i - 1;
        assert(tool_grown(all.take(i as int), more@).push(all[i as int]) + all.skip(i + 1)
            =~= tool_grown(all.take(i as int), more@) + all.skip(i as int));
    }
    assert(entry_views(messages@) =~= tool_grown(all, more@));
}

/// Adds streamed text.
pub fn stream_text(
    messages: &mut Vec<MsgEntry>,
    next_id: &mut u64,
    now: u64,
    kind: Streamed,
    t: &str,
)
    requires
        *old(next_id) < u64::MAX,
    ensures
        entry_views(final(messages)@) == streamed(
            entry_views(old(messages)@),
            *old(next_id),
            now,
            kind,
            t@,
        ),
        *final(next_id) == if goes_on(entry_views(old(messages)@), kind) {
            *old(next_id)
        } else {
            (*old(next_id) + 1) as u64
        },
{
    let ghost before = entry_views(messages@);
    if let Some(e) = messages.pop() {
        assert(entry_views(messages@) =~= before.drop_last());
        assert(e@ == before.last());
        let MsgEntry { id, created, finished, block } = e;
        match (kind, block) {
            (Streamed::Thinking, UiBlock::Thinking(buf)) => {
                let grown = MsgEntry {
                    id,
                    created,
                    finished,
                    block: UiBlock::Thinking(buf.concat(t)),
                };
                messages.push(grown);
                assert(entry_views(messages@) =~= before.drop_last().push(grown@));
                return ;
            },
            (Streamed::Text, UiBlock::Text(buf)) => {
                let grown = MsgEntry {
                    id,
                    created,
                    finished,
                    block: UiBlock::Text(buf.concat(t)),
                };
                messages.push(grown);
                assert(entry_views(messages@) =~= before.drop_last().push(grown@));
                return ;
            },
            (_, block) => {
                let same = MsgEntry { id, created, finished, block };
                messages.push(same);
                assert(entry_views(messages@) =~= before.drop_last().push(same@));
                assert(before =~= before.drop_last().push(before.last()));
            },
        }
    }
    assert(entry_views(messages@) =~= before);
    close_open_assistant(messages, now);
    let ghost mid = entry_views(messages@);
    *next_id = *next_id + 1;
    let new = MsgEntry {
        id: *next_id,
        created: now,
        finished: 0,
        block: match kind {
            Streamed::Thinking => UiBlock::Thinking(text::owned(t)),
            Streamed::Text => UiBlock::Text(text::owned(t)),
        },
    };
    messages.push(new);
    assert(entry_views(messages@) =~= mid.push(new@));
}

// ---- the page ----

/// What an event asks for besides changing blocks.
#[derive(Debug, PartialEq)]
pub enum EventOutcome {
    Silent,
    Status(String),
    Error(String),
    Done { finished_ms: u64, usage_text: Option<String> },
}

pub enum OutcomeV {
    Silent,
    Status(Seq<char>),
    Error(Seq<char>),
    Done { finished_ms: u64, usage_text: Option<Seq<char>> },
}

impl View for EventOutcome {
    type V = OutcomeV;

    open spec fn view(&self) -> OutcomeV {
        match self {
            EventOutcome::Silent => OutcomeV::Silent,
            EventOutcome::Status(t) => OutcomeV::Status(t@),
            EventOutcome::Error(t) => OutcomeV::Error(t@),
            EventOutcome::Done { finished_ms, usage_text } => OutcomeV::Done {
                finished_ms: *finished_ms,
                usage_text: text::opt_text(*usage_text),
            },
        }
    }
}

/// What a chat page shows.
pub struct Chat {
    pub messages: Vec<MsgEntry>,
    pub next_id: u64,
    pub running: bool,
    pub usage: Option<String>,
    pub error: Option<String>,
    pub status_line: Option<String>,
    pub scroll_tick: u64,
    pub follow: bool,
    pub at_latest: bool,
}

#[verifier::ext_equal]
pub struct ChatV {
    pub messages: Seq<EntryV>,
    pub next_id: u64,
    pub running: bool,
    pub usage: Option<Seq<char>>,
    pub error: Option<Seq<char>>,
    pub status_line: Option<Seq<char>>,
    pub scroll_tick: u64,
    pub follow: bool,
    pub at_latest: bool,
}

impl View for Chat {
    type V = ChatV;

    open spec fn view(&self) -> ChatV {
        ChatV {
            messages: entry_views(self.messages@),
            next_id: self.next_id,
            running: self.running,
            usage: text::opt_text(self.usage),
            error: text::opt_text(self.error),
            status_line: text::opt_text(self.status_line),
            scroll_tick: self.scroll_tick,
            follow: self.follow,
            at_latest: self.at_latest,
        }
    }
}

/// One more number and one more tick are to be had.
pub open spec fn roomy(c: ChatV) -> bool {
    c.next_id < u64::MAX && c.scroll_tick < u64::MAX
}

/// The text that a payload holds: a JSON text, or else the payload as it is.
pub open spec fn payload_text(data: Seq<char>, outer: Option<JsonV>) -> Seq<char> {
    match outer {
        Some(JsonV::Str(s)) => s,
        _ => data,
    }
}

/// The object that a payload holds, directly or as a text that holds it.
pub open spec fn payload_object(outer: Option<JsonV>, inner: Option<JsonV>) -> JsonV {
    match outer {
        Some(JsonV::Str(_)) => match inner {
            Some(v) => v,
            None => JsonV::Null,
        },
        Some(v) => v,
        None => JsonV::Null,
    }
}

pub open spec fn ticked(c: ChatV) -> ChatV {
    ChatV { scroll_tick: (c.scroll_tick + 1) as u64, ..c }
}

pub open spec fn with_stream(c: ChatV, now: u64, kind: Streamed, t: Seq<char>) -> ChatV {
    ChatV {
        messages: streamed(c.messages, c.next_id, now, kind, t),
        next_id: if goes_on(c.messages, kind) {
            c.next_id
        } else {
            (c.next_id + 1) as u64
        },
        ..c
    }
}

/// A tool is called: what was open ends and its block begins.
pub open spec fn with_tool(c: ChatV, now: u64, name: Seq<char>) -> ChatV {
    ChatV {
        messages: stamped(c.messages, false, now).push(
            EntryV {
                id: (c.next_id + 1) as u64,
                created: now,
                finished: 0,
                block: UiBlockV::Tool(name),
            },
        ),
        next_id: (c.next_id + 1) as u64,
        ..c
    }
}

/// The arguments of a tool's call go behind its name, and the call is complete.
pub open spec fn with_args(c: ChatV, now: u64, args: Seq<char>) -> ChatV {
    let grown = if args.len() == 0 {
        c.messages
    } else {
        tool_grown(c.messages, " "@ + args)
    };
    ChatV { messages: stamped(grown, false, now), ..c }
}

pub open spec fn moment_in(v: JsonV, key: Seq<char>, now: u64) -> u64 {
    match json::u64_of(json::field(v, key)) {
        Some(n) => n,
        None => now,
    }
}

/// A tool's result gets a block of its own, with the moments that were measured.
pub open spec fn with_result(c: ChatV, now: u64, v: JsonV) -> ChatV {
    ChatV {
        messages: c.messages.push(
            EntryV {
                id: (c.next_id + 1) as u64,
                created: moment_in(v, "created_at_ms"@, now),
                finished: moment_in(v, "finished_at_ms"@, now),
                block: UiBlockV::Tool(
                    result_text(told_error(v), member_text(v, "result_preview"@)),
                ),
            },
        ),
        next_id: (c.next_id + 1) as u64,
        ..c
    }
}

/// The page after an event whose data holds the value `outer`, and `inner` where
/// that is a text that holds a value itself.
pub open spec fn applied(
    c: ChatV,
    now: u64,
    event: Seq<char>,
    data: Seq<char>,
    outer: Option<JsonV>,
    inner: Option<JsonV>,
) -> ChatV {
    let v = payload_object(outer, inner);
    if event == "chunk"@ {
        ticked(with_stream(c, now, Streamed::Text, payload_text(data, outer)))
    } else if event == "thinking"@ {
        ticked(with_stream(c, now, Streamed::Thinking, payload_text(data, outer)))
    } else if event == "tool_use"@ {
        let name = member_text(v, "name"@);
        if name.len() == 0 {
            ticked(c)
        } else {
            ticked(with_tool(c, now, name))
        }
    } else if event == "tool_args"@ {
        with_args(c, now, member_text(v, "arguments"@))
    } else if event == "tool_result"@ {
        with_result(c, now, v)
    } else {
        c
    }
}

pub open spec fn outcome(
    now: u64,
    event: Seq<char>,
    data: Seq<char>,
    outer: Option<JsonV>,
) -> OutcomeV {
    if event == "status"@ {
        OutcomeV::Status(payload_text(data, outer))
    } else if event == "error"@ {
        OutcomeV::Error(
            match json::str_of(json::field_of(outer, "message"@)) {
                Some(m) => m,
                None => data,
            },
        )
    } else if event == "done"@ {
        OutcomeV::Done {
            finished_ms: now,
            usage_text: match json::field_of(outer, "usage"@) {
                Some(u) => Some(usage_line(u)),
                None => None,
            },
        }
    } else {
        OutcomeV::Silent
    }
}

/// The value that a text inside the data holds.
pub open spec fn inner_value(outer: Option<JsonV>) -> Option<JsonV> {
    match outer {
        Some(JsonV::Str(s)) => json::json_value(s),
        _ => None,
    }
}

fn text_payload(data: &str, outer: Option<&Json>) -> (r: String)
    ensures
        r@ == payload_text(data@, json::opt_view(outer)),
{
    match json::str_in(outer) {
        Some(s) => text::owned(s),
        None => text::owned(data),
    }
}

fn object_payload(outer: Option<&Json>, inner: Option<&Json>) -> (r: Json)
    ensures
        r@ == payload_object(json::opt_view(outer), json::opt_view(inner)),
{
    match outer {
        Some(v) => match v {
            Json::Str(_) => match inner {
                Some(i) => i.copy(),
                None => Json::Null,
            },
            _ => v.copy(),
        },
        None => Json::Null,
    }
}

impl Chat {
    pub fn new() -> (r: Chat)
        ensures
            r@ == (ChatV {
                messages: seq![],
                next_id: 1,
                running: false,
                usage: None,
                error: None,
                status_line: None,
                scroll_tick: 0,
                follow: true,
                at_latest: true,
            }),
    {
        let c = Chat {
            messages: Vec::new(),
            next_id: 1,
            running: false,
            usage: None,
            error: None,
            status_line: None,
            scroll_tick: 0,
            follow: true,
            at_latest: true,
        };
        assert(c@.messages =~= seq![]);
        c
    }

    /// Applies an event, given the values that its data holds.
    pub fn apply_payload(
        &mut self,
        now: u64,
        event: &str,
        data: &str,
        outer: Option<&Json>,
        inner: Option<&Json>,
    ) -> (r: EventOutcome)
        requires
            roomy(old(self)@),
        ensures
            final(self)@ == applied(
                old(self)@,
                now,
                event@,
                data@,
                json::opt_view(outer),
                json::opt_view(inner),
            ),
            r@ == outcome(now, event@, data@, json::opt_view(outer)),
    {
        let ghost before = self@;
        proof {
            lemma_event_names();
        }
        if text::same(event, "chunk") {
            let t = text_payload(data, outer);
            stream_text(&mut self.messages, &mut self.next_id, now, Streamed::Text, t.as_str());
            self.scroll_tick = self.scroll_tick + 1;
            EventOutcome::Silent
        } else if text::same(event, "thinking") {
            let t = text_payload(data, outer);
            stream_text(
                &mut self.messages,
                &mut self.next_id,
                now,
                Streamed::Thinking,
                t.as_str(),
            );
            self.scroll_tick = self.scroll_tick + 1;
            EventOutcome::Silent
        } else if text::same(event, "tool_use") {
            let v = object_payload(outer, inner);
            let name = str_of(&v, "name");
            if !name.as_str().is_empty() {
                close_open_assistant(&mut self.messages, now);
                let ghost mid = self@.messages;
                self.next_id = self.next_id + 1;
                let e = MsgEntry {
                    id: self.next_id,
                    created: now,
                    finished: 0,
                    block: UiBlock::Tool(name),
                };
                self.messages.push(e);
                assert(self@.messages =~= mid.push(e@));
            }
            self.scroll_tick = self.scroll_tick + 1;
            EventOutcome::Silent
        } else if text::same(event, "tool_args") {
            let v = object_payload(outer, inner);
            let args = str_of(&v, "arguments");
            if !args.as_str().is_empty() {
                let more = text::owned(" ").concat(args.as_str());
                append_last_tool(&mut self.messages, more.as_str());
            }
            close_open_assistant(&mut self.messages, now);
            EventOutcome::Silent
        } else if text::same(event, "tool_result") {
            let v = object_payload(outer, inner);
            let preview = str_of(&v, "result_preview");
            let line = result_line(error_told(&v), preview.as_str());
            let created: u64 = match json::u64_in(v.get("created_at_ms")) {
                Some(n) => n,
                None => now,
            };
            let finished: u64 = match json::u64_in(v.get("finished_at_ms")) {
                Some(n) => n,
                None => now,
            };
            self.next_id = self.next_id + 1;
            let e = MsgEntry { id: self.next_id, created, finished, block: UiBlock::Tool(line) };
            self.messages.push(e);
            assert(self@.messages =~= before.messages.push(e@));
            EventOutcome::Silent
        } else if text::same(event, "status") {
            EventOutcome::Status(text_payload(data, outer))
        } else if text::same(event, "error") {
            let message = match json::str_in(json::get_in(outer, "message")) {
                Some(m) => text::owned(m),
                None => text::owned(data),
            };
            EventOutcome::Error(message)
        } else if text::same(event, "done") {
            let usage_text = match json::get_in(outer, "usage") {
                Some(u) => Some(fmt_usage(u)),
                None => None,
            };
            EventOutcome::Done { finished_ms: now, usage_text }
        } else {
            EventOutcome::Silent
        }
    }

    /// Applies one event of the stream.
    pub fn apply_stream_event(&mut self, now: u64, ev: &SseEvent) -> (r: EventOutcome)
        requires
            roomy(old(self)@),
        ensures
            final(self)@ == applied(
                old(self)@,
                now,
                ev.event@,
                ev.data@,
                json::json_value(ev.data@),
                inner_value(json::json_value(ev.data@)),
            ),
            r@ == outcome(now, ev.event@, ev.data@, json::json_value(ev.data@)),
    {
        match json::parse(ev.data.as_str()) {
            Ok(outer) => {
                let inner = match outer.as_str() {
                    Some(s) => match json::parse(s) {
                        Ok(i) => Some(i),
                        Err(_) => None,
                    },
                    None => None,
                };
                match &inner {
                    Some(i) => self.apply_payload(
                        now,
                        ev.event.as_str(),
                        ev.data.as_str(),
                        Some(&outer),
                        Some(i),
                    ),
                    None => self.apply_payload(
                        now,
                        ev.event.as_str(),
                        ev.data.as_str(),
                        Some(&outer),
                        None,
                    ),
                }
            },
            Err(_) => self.apply_payload(now, ev.event.as_str(), ev.data.as_str(), None, None),
        }
    }

    /// Shows what an event came to. At the end the open blocks end too.
    pub fn settle(&mut self, o: EventOutcome)
        requires
            roomy(old(self)@),
        ensures
            final(self)@ == settled(old(self)@, o@),
    {
        match o {
            EventOutcome::Silent => {},
            EventOutcome::Status(t) => {
                self.status_line = Some(t);
            },
            EventOutcome::Error(t) => {
                self.error = Some(t);
            },
            EventOutcome::Done { finished_ms, usage_text } => {
                if usage_text.is_some() {
                    self.usage = usage_text;
                }
                close_open_assistant(&mut self.messages, finished_ms);
                finish_user(&mut self.messages, finished_ms);
                self.scroll_tick = self.scroll_tick + 1;
                self.running = false;
            },
        }
    }

    /// Sends what was typed, unless it is empty or a turn is under way. What is
    /// sent is given back.
    pub fn send(&mut self, input: &str, now: u64) -> (r: Option<String>)
        requires
            roomy(old(self)@),
        ensures
            text::opt_text(r) == if text::trim(input@).len() == 0 || old(self)@.running {
                None
            } else {
                Some(text::trim(input@))
            },
            final(self)@ == if text::trim(input@).len() == 0 || old(self)@.running {
                old(self)@
            } else {
                sent(old(self)@, text::trim(input@), now)
            },
    {
        let said = text::trimmed(input);
        if said.as_str().is_empty() || self.running {
            return None;
        }
        let ghost before = self@;
        self.next_id = self.next_id + 1;
        let e = MsgEntry {
            id: self.next_id,
            created: now,
            finished: 0,
            block: UiBlock::User(said.clone()),
        };
        self.messages.push(e);
        assert(self@.messages =~= before.messages.push(e@));
        self.running = true;
        self.usage = None;
        self.error = None;
        self.status_line = None;
        self.follow = true;
        self.at_latest = true;
        self.scroll_tick = self.scroll_tick + 1;
        Some(said)
    }

    /// The stream is over, well or with an explanation.
    pub fn end_stream(&mut self, result: Result<(), String>)
        ensures
            final(self)@ == (ChatV {
                running: false,
                error: match result {
                    Ok(_) => old(self)@.error,
                    Err(e) => Some(e@),
                },
                ..old(self)@
            }),
    {
        self.running = false;
        if let Err(e) = result {
            self.error = Some(e);
        }
    }

    /// Another session is opened, or none: the page starts empty.
    pub fn open(&mut self, is_session: bool)
        ensures
            final(self)@ == (ChatV {
                messages: seq![],
                running: false,
                usage: None,
                error: None,
                status_line: if is_session {
                    None
                } else {
                    old(self)@.status_line
                },
                ..old(self)@
            }),
    {
        self.messages = Vec::new();
        assert(self@.messages =~= seq![]);
        self.running = false;
        self.usage = None;
        self.error = None;
        if is_session {
            self.status_line = None;
        }
    }

    /// The log of the session has come, or a refusal; the page shows its end.
    pub fn load_history(&mut self, answer: Option<(u16, &Json)>)
        requires
            old(self)@.scroll_tick < u64::MAX,
            match answer {
                Some((status, v)) => old(self)@.next_id + messages_in(v@).len() <= u64::MAX,
                None => true,
            },
        ensures
            final(self)@ == loaded(
                old(self)@,
                match answer {
                    Some((status, v)) => Some((status, v@)),
                    None => None,
                },
            ),
    {
        let ghost before = self@;
        if let Some((status, v)) = answer {
            if status == 200 {
                let list = build_history(v, &mut self.next_id);
                self.messages = list;
                assert(entry_views(list@).len() == list@.len());
            } else {
                self.error = Some(str_of(v, "error"));
            }
        }
        self.follow = true;
        self.at_latest = true;
        self.scroll_tick = self.scroll_tick + 1;
    }
}

pub open spec fn settled(c: ChatV, o: OutcomeV) -> ChatV {
    match o {
        OutcomeV::Silent => c,
        OutcomeV::Status(t) => ChatV { status_line: Some(t), ..c },
        OutcomeV::Error(t) => ChatV { error: Some(t), ..c },
        OutcomeV::Done { finished_ms, usage_text } => ChatV {
            messages: stamped(stamped(c.messages, false, finished_ms), true, finished_ms),
            usage: match usage_text {
                Some(t) => Some(t),
                None => c.usage,
            },
            scroll_tick: (c.scroll_tick + 1) as u64,
            running: false,
            ..c
        },
    }
}

pub open spec fn sent(c: ChatV, said: Seq<char>, now: u64) -> ChatV {
    ChatV {
        messages: c.messages.push(
            EntryV {
                id: (c.next_id + 1) as u64,
                created: now,
                finished: 0,
                block: UiBlockV::User(said),
            },
        ),
        next_id: (c.next_id + 1) as u64,
        running: true,
        usage: None,
        error: None,
        status_line: None,
        scroll_tick: (c.scroll_tick + 1) as u64,
        follow: true,
        at_latest: true,
    }
}

pub open spec fn loaded(c: ChatV, answer: Option<(u16, JsonV)>) -> ChatV {
    let shown = match answer {
        Some((status, v)) => if status == 200 {
            let h = history(messages_in(v), c.next_id as int);
            ChatV { messages: h, next_id: (c.next_id + h.len()) as u64, ..c }
        } else {
            ChatV { error: Some(member_text(v, "error"@)), ..c }
        },
        None => c,
    };
    ChatV { follow: true, at_latest: true, scroll_tick: (c.scroll_tick + 1) as u64, ..shown }
}

/// A scroll event: whether the end is in view and whether the page follows the
/// stream. The page's own scrolling, until `pinned_until`, does not count; to
/// follow again the end has to come back into view.
pub open spec fn scrolled(
    now: u64,
    pinned_until: u64,
    near: bool,
    follow: bool,
    at_latest: bool,
) -> (bool, bool) {
    if now < pinned_until {
        (at_latest, follow)
    } else {
        (near, follow || (near && !at_latest))
    }
}

pub fn scroll_update(now: u64, pinned_until: u64, near: bool, follow: bool, at_latest: bool) -> (r: (
    bool,
    bool,
))
    ensures
        r == scrolled(now, pinned_until, near, follow, at_latest),
{
    if now < pinned_until {
        return (at_latest, follow);
    }
    (near, follow || (near && !at_latest))
}

proof fn lemma_event_names()
    ensures
        "chunk"@ != "status"@ && "chunk"@ != "error"@ && "chunk"@ != "done"@,
        "thinking"@ != "status"@ && "thinking"@ != "error"@ && "thinking"@ != "done"@,
        "tool_use"@ != "status"@ && "tool_use"@ != "error"@ && "tool_use"@ != "done"@,
        "tool_args"@ != "status"@ && "tool_args"@ != "error"@ && "tool_args"@ != "done"@,
        "tool_result"@ != "status"@ && "tool_result"@ != "error"@ && "tool_result"@ != "done"@,
{
    reveal_strlit("chunk");
    reveal_strlit("thinking");
    reveal_strlit("tool_use");
    reveal_strlit("tool_args");
    reveal_strlit("tool_result");
    reveal_strlit("status");
    reveal_strlit("error");
    reveal_strlit("done");
    assert("chunk"@[0] == 'c' && "error"@[0] == 'e');
    assert("chunk"@.len() == 5 && "thinking"@.len() == 8 && "tool_use"@.len() == 8
        && "tool_args"@.len() == 9 && "tool_result"@.len() == 11 && "status"@.len() == 6
        && "error"@.len() == 5 && "done"@.len() == 4);
}

// ---- laws ----

/// Starting to drag at the end of the page never makes it follow again; only a
/// return to the end does.
pub proof fn only_a_return_resumes_following(
    now: u64,
    pinned_until: u64,
    near: bool,
    at_latest: bool,
)
    ensures
        scrolled(now, pinned_until, near, false, at_latest).1 ==> near && !at_latest && now
            >= pinned_until,
        now < pinned_until ==> scrolled(now, pinned_until, near, false, at_latest) == (
            at_latest,
            false,
        ),
{
}

/// The text shown of a kind grows by exactly what is streamed, in its order.
pub proof fn streamed_text_is_shown(
    s: Seq<EntryV>,
    next: u64,
    now: u64,
    kind: Streamed,
    a: Seq<char>,
    b: Seq<char>,
)
    ensures
        streamed(streamed(s, next, now, kind, a), next, now, kind, b) == streamed(
            s,
            next,
            now,
            kind,
            a + b,
        ),
{
    let one = streamed(s, next, now, kind, a);
    let both = streamed(s, next, now, kind, a + b);
    let was = streamed_text(kind, one.last().block)->0;
    if goes_on(s, kind) {
        let t0 = streamed_text(kind, s.last().block)->0;
        assert(was =~= t0 + a);
        assert((t0 + a) + b =~= t0 + (a + b));
    } else {
        assert(was =~= a);
    }
    assert(one.drop_last() =~= both.drop_last());
    assert(streamed(one, next, now, kind, b) =~= both);
}

proof fn lemma_stamped(s: Seq<EntryV>, user: bool, at: u64)
    ensures
        stamped(s, user, at).len() == s.len(),
        forall|i: int|
            0 <= i < s.len() ==> (#[trigger] stamped(s, user, at)[i]).block == s[i].block
                && stamped(s, user, at)[i].id == s[i].id && stamped(s, user, at)[i].created
                == s[i].created && (stamped(s, user, at)[i].finished == s[i].finished
                || s[i].finished == 0),
    decreases s.len(),
{
    if s.len() > 0 && !(s.last().finished == 0 && is_user(s.last().block) == user) {
        lemma_stamped(s.drop_last(), user, at);
        let p = stamped(s.drop_last(), user, at);
        assert forall|i: int| 0 <= i < s.len() implies (#[trigger] stamped(s, user, at)[i]).block
            == s[i].block && stamped(s, user, at)[i].id == s[i].id && stamped(s, user, at)[i].created
            == s[i].created && (stamped(s, user, at)[i].finished == s[i].finished || s[i].finished
            == 0) by {
            if i < s.len() - 1 {
                assert(stamped(s, user, at)[i] == p[i]);
                assert(s.drop_last()[i] == s[i]);
            }
        }
    }
}

/// Stamping an end changes no text, no number and no beginning, and no end that
/// is set already.
pub proof fn stamping_only_ends_blocks(s: Seq<EntryV>, user: bool, at: u64, i: int)
    requires
        0 <= i < s.len(),
    ensures
        stamped(s, user, at).len() == s.len(),
        stamped(s, user, at)[i].block == s[i].block,
        stamped(s, user, at)[i].id == s[i].id,
        stamped(s, user, at)[i].created == s[i].created,
        s[i].finished != 0 ==> stamped(s, user, at)[i].finished == s[i].finished,
{
    lemma_stamped(s, user, at);
}

pub open spec fn numbered(s: Seq<EntryV>, next: u64) -> bool {
    &&& forall|i: int, j: int| 0 <= i < j < s.len() ==> (#[trigger] s[i]).id < (#[trigger] s[j]).id
    &&& forall|i: int| 0 <= i < s.len() ==> (#[trigger] s[i]).id <= next
}

/// The numbers of the entries of a log grow from one to the next.
pub proof fn history_is_numbered(v: Seq<JsonV>, next: u64)
    requires
        next + v.len() <= u64::MAX,
    ensures
        numbered(history(v, next as int), (next + history(v, next as int).len()) as u64),
        forall|i: int|
            0 <= i < history(v, next as int).len() ==> (#[trigger] history(v, next as int)[i]).id
                > next,
    decreases v.len(),
{
    lemma_history_len(v, next as int);
    if v.len() > 0 {
        lemma_history_len(v.drop_last(), next as int);
        history_is_numbered(v.drop_last(), next);
    }
}

/// Every event keeps the numbers of the entries apart, so each entry is shown once.
pub proof fn numbers_stay_distinct(
    c: ChatV,
    now: u64,
    event: Seq<char>,
    data: Seq<char>,
    outer: Option<JsonV>,
    inner: Option<JsonV>,
)
    requires
        roomy(c),
        numbered(c.messages, c.next_id),
    ensures
        numbered(
            applied(c, now, event, data, outer, inner).messages,
            applied(c, now, event, data, outer, inner).next_id,
        ),
{
    let v = payload_object(outer, inner);
    let args = member_text(v, "arguments"@);
    let m = c.messages;
    lemma_stamped(m, false, now);
    lemma_grown(m, " "@ + args);
    lemma_stamped(tool_grown(m, " "@ + args), false, now);
    let next = applied(c, now, event, data, outer, inner).messages;
    let last = applied(c, now, event, data, outer, inner).next_id;
    assert forall|i: int| 0 <= i < m.len() implies i < next.len() && (#[trigger] next[i]).id == m[i].id by {}
    assert(next.len() == m.len() || next.len() == m.len() + 1);
    assert(next.len() == m.len() + 1 ==> next[m.len() as int].id == c.next_id + 1 && last
        == c.next_id + 1);
    assert forall|i: int, j: int| 0 <= i < j < next.len() implies (#[trigger] next[i]).id < (
    #[trigger] next[j]).id by {
        assert(next[i].id == m[i].id);
        if j < m.len() {
            assert(next[j].id == m[j].id);
        }
    }
    assert forall|i: int| 0 <= i < next.len() implies (#[trigger] next[i]).id <= last by {
        if i < m.len() {
            assert(next[i].id == m[i].id);
        }
    }
}

proof fn lemma_grown(s: Seq<EntryV>, more: Seq<char>)
    ensures
        tool_grown(s, more).len() == s.len(),
        forall|i: int| 0 <= i < s.len() ==> (#[trigger] tool_grown(s, more)[i]).id == s[i].id,
    decreases s.len(),
{
    if s.len() > 0 && !(s.last().block is Tool) {
        lemma_grown(s.drop_last(), more);
        let p = tool_grown(s.drop_last(), more);
        assert forall|i: int| 0 <= i < s.len() implies (#[trigger] tool_grown(s, more)[i]).id
            == s[i].id by {
            if i < s.len() - 1 {
                assert(tool_grown(s, more)[i] == p[i]);
                assert(s.drop_last()[i] == s[i]);
            }
        }
    }
}

} // verus!

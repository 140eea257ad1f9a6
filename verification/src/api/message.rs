//! Messages to a session and what comes back.
use crate::api::reply::{self, Reply};
use crate::host::drivers::{self, Usage};
use crate::host::hub::SseItem;
use crate::json::{self, Json, JsonV};
use crate::text;
use vstd::prelude::*;

verus! {

broadcast use crate::text::views_push;

/// What a user says.
pub struct MessageReq {
    pub content: String,
}

/// The whole answer and what it cost.
pub struct MessageResponse {
    pub response: String,
    pub usage: Usage,
}

impl MessageResponse {
    pub open spec fn value(&self) -> JsonV {
        JsonV::Obj(
            seq![
                ("response"@, JsonV::Str(self.response@)),
                ("usage"@, reply::usage_value(self.usage)),
            ],
        )
    }

    pub fn to_json(&self) -> (r: Json)
        ensures
            r@ == self.value(),
    {
        json::obj2(
            "response",
            json::string(self.response.as_str()),
            "usage",
            reply::usage_json(&self.usage),
        )
    }
}

// ---- the last events of a turn ----

pub open spec fn done_value(u: Usage) -> JsonV {
    JsonV::Obj(seq![("done"@, JsonV::Bool(true)), ("usage"@, reply::usage_value(u))])
}

/// The event that ends a turn.
pub fn done_item(u: &Usage) -> (r: SseItem)
    ensures
        r.event@ == "done"@,
        r.data@ == done_value(*u),
{
    SseItem {
        event: text::owned("done"),
        data: json::obj2("done", Json::Bool(true), "usage", reply::usage_json(u)),
    }
}

pub open spec fn failure_value(why: Seq<char>) -> JsonV {
    JsonV::Obj(seq![("message"@, JsonV::Str("agent run failed: "@ + why))])
}

/// The event that tells that a turn failed.
pub fn failure_item(why: &str) -> (r: SseItem)
    ensures
        r.event@ == "error"@,
        r.data@ == failure_value(why@),
{
    let m = text::owned("agent run failed: ").concat(why);
    SseItem { event: text::owned("error"), data: json::obj1("message", json::string(m.as_str())) }
}

// ---- reading them ----

/// A count of tokens: an integer of 32 bits.
pub open spec fn count_of(j: Option<JsonV>) -> Option<u32> {
    match json::u64_of(j) {
        Some(n) => if n <= u32::MAX {
            Some(n as u32)
        } else {
            None
        },
        None => None,
    }
}

pub open spec fn counts(
    input: Option<u32>,
    read: Option<u32>,
    creation: Option<u32>,
    output: Option<u32>,
) -> Usage {
    match (input, read, creation, output) {
        (Some(i), Some(r), Some(c), Some(o)) => Usage {
            input_tokens: i,
            cache_read_tokens: r,
            cache_creation_tokens: c,
            output_tokens: o,
        },
        _ => drivers::no_usage(),
    }
}

/// The usage that a value holds, by the names of its members or as a list; none
/// where one of the four counts is missing.
pub open spec fn usage_in(j: JsonV) -> Usage {
    match j {
        JsonV::Arr(v) => if v.len() == 4 {
            counts(
                count_of(Some(v[0])),
                count_of(Some(v[1])),
                count_of(Some(v[2])),
                count_of(Some(v[3])),
            )
        } else {
            drivers::no_usage()
        },
        _ => counts(
            count_of(json::field(j, "input_tokens"@)),
            count_of(json::field(j, "cache_read_tokens"@)),
            count_of(json::field(j, "cache_creation_tokens"@)),
            count_of(json::field(j, "output_tokens"@)),
        ),
    }
}

fn count_in(j: Option<&Json>) -> (r: Option<u32>)
    ensures
        r == count_of(json::opt_view(j)),
{
    match json::u64_in(j) {
        Some(n) => if n <= 0xffff_ffff {
            Some(n as u32)
        } else {
            None
        },
        None => None,
    }
}

fn counts_of(input: Option<u32>, read: Option<u32>, creation: Option<u32>, output: Option<u32>) -> (r:
    Usage)
    ensures
        r == counts(input, read, creation, output),
{
    match (input, read, creation, output) {
        (Some(i), Some(r), Some(c), Some(o)) => Usage {
            input_tokens: i,
            cache_read_tokens: r,
            cache_creation_tokens: c,
            output_tokens: o,
        },
        _ => Usage::default(),
    }
}

pub fn read_usage(j: &Json) -> (r: Usage)
    ensures
        r == usage_in(j@),
{
    match j {
        Json::Arr(v) => {
            proof {
                json::lemma_items(v@);
            }
            if v.len() == 4 {
                counts_of(
                    count_in(Some(&v[0])),
                    count_in(Some(&v[1])),
                    count_in(Some(&v[2])),
                    count_in(Some(&v[3])),
                )
            } else {
                Usage::default()
            }
        },
        _ => counts_of(
            count_in(j.get("input_tokens")),
            count_in(j.get("cache_read_tokens")),
            count_in(j.get("cache_creation_tokens")),
            count_in(j.get("output_tokens")),
        ),
    }
}

/// The answer as it comes in, event by event.
pub struct Gathered {
    pub response: String,
    pub usage: Usage,
}

pub struct GatheredV {
    pub response: Seq<char>,
    pub usage: Usage,
}

impl View for Gathered {
    type V = GatheredV;

    open spec fn view(&self) -> GatheredV {
        GatheredV { response: self.response@, usage: self.usage }
    }
}

/// One more event: text goes behind what came, and the end brings the usage.
pub open spec fn gathered(g: GatheredV, event: Seq<char>, data: JsonV) -> GatheredV {
    if event == "chunk"@ {
        GatheredV { response: g.response + json::text_or_empty(Some(data)), ..g }
    } else if event == "done"@ {
        match json::field(data, "usage"@) {
            Some(u) => GatheredV { usage: usage_in(u), ..g },
            None => g,
        }
    } else {
        g
    }
}

/// The usage of an answer: that of its events, or that of its task where the
/// events told nothing.
pub open spec fn final_usage(told: Usage, task: Option<Usage>) -> Usage {
    match task {
        Some(t) => if told.input_tokens == 0 && told.output_tokens == 0 {
            t
        } else {
            told
        },
        None => told,
    }
}

impl Gathered {
    pub fn new() -> (r: Gathered)
        ensures
            r@ == (GatheredV { response: seq![], usage: drivers::no_usage() }),
    {
        let g = Gathered { response: String::new(), usage: Usage::default() };
        assert(g@.response =~= seq![]);
        g
    }

    pub fn take(&mut self, item: &SseItem)
        ensures
            final(self)@ == gathered(old(self)@, item.event@, item.data@),
    {
        let ghost before = self@;
        if text::same(item.event.as_str(), "chunk") {
            if let Some(t) = item.data.as_str() {
                self.response.append(t);
            }
            assert(self@.response =~= before.response + json::text_or_empty(Some(item.data@)));
        } else if text::same(item.event.as_str(), "done") {
            if let Some(u) = item.data.get("usage") {
                self.usage = read_usage(u);
            }
        }
    }

    /// The answer to the request.
    pub fn finish(self, task: Option<Usage>) -> (r: Reply)
        ensures
            r@ == reply::said_ok(
                JsonV::Obj(
                    seq![
                        ("response"@, JsonV::Str(self@.response)),
                        ("usage"@, reply::usage_value(final_usage(self@.usage, task))),
                    ],
                ),
            ),
    {
        let usage = match task {
            Some(t) => if self.usage.input_tokens == 0 && self.usage.output_tokens == 0 {
                t
            } else {
                self.usage
            },
            None => self.usage,
        };
        Reply::ok(MessageResponse { response: self.response, usage }.to_json())
    }
}

// ---- laws ----

proof fn lemma_names_differ()
    ensures
        "cache_creation_tokens"@ != "cache_read_tokens"@,
        "cache_creation_tokens"@ != "input_tokens"@,
        "cache_creation_tokens"@ != "output_tokens"@,
        "cache_read_tokens"@ != "input_tokens"@,
        "cache_read_tokens"@ != "output_tokens"@,
        "input_tokens"@ != "output_tokens"@,
        "done"@ != "usage"@,
        "done"@ != "chunk"@,
{
    reveal_strlit("cache_creation_tokens");
    reveal_strlit("cache_read_tokens");
    reveal_strlit("input_tokens");
    reveal_strlit("output_tokens");
    reveal_strlit("done");
    reveal_strlit("usage");
    reveal_strlit("chunk");
    assert("done"@.len() == 4 && "usage"@.len() == 5 && "chunk"@.len() == 5);
    assert("input_tokens"@.len() == 12);
    assert("output_tokens"@.len() == 13);
    assert("cache_read_tokens"@.len() == 17);
    assert("cache_creation_tokens"@.len() == 21);
}

/// A usage that was written reads back.
pub proof fn a_written_usage_reads_back(u: Usage)
    ensures
        usage_in(reply::usage_value(u)) == u,
{
    lemma_names_differ();
    reveal_with_fuel(json::member, 5);
    let m = reply::usage_value(u)->Obj_0;
    assert(m.skip(1)[0] == m[1]);
    assert(m.skip(1).skip(1)[0] == m[2]);
    assert(m.skip(1).skip(1).skip(1)[0] == m[3]);
}

/// The usage of a turn arrives with its last event.
pub proof fn the_end_brings_the_usage(g: GatheredV, u: Usage)
    ensures
        gathered(g, "done"@, done_value(u)) == (GatheredV { usage: u, ..g }),
{
    lemma_names_differ();
    a_written_usage_reads_back(u);
    reveal_with_fuel(json::member, 3);
    let m = done_value(u)->Obj_0;
    assert(m.skip(1)[0] == m[1]);
}

/// Text comes in the order in which it was sent, and only text does.
pub proof fn text_comes_in_order(g: GatheredV, t: Seq<char>, event: Seq<char>, data: JsonV)
    ensures
        gathered(g, "chunk"@, JsonV::Str(t)).response == g.response + t,
        event != "chunk"@ ==> gathered(g, event, data).response == g.response,
{
}

} // verus!

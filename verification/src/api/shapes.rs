//! What clients see: each part of an answer stands under its own name and is what the
//! server holds.
use crate::agent::block::BlockV;
use crate::agent::chat;
use crate::agent::payload;
use crate::api::agents;
use crate::api::auth;
use crate::api::message;
use crate::api::message::GatheredV;
use crate::api::providers;
use crate::api::reply;
use crate::api::sessions;
use crate::api::sessions::{EntryV, InfoV};
use crate::api::tools;
use crate::host::builtin;
use crate::host::drivers::{CallV, Usage};
use crate::host::registry::{AgentDefV, ProviderDefV};
use crate::host::store::Sandbox;
use crate::host::tools::SpecV;
use crate::json;
use crate::json::{JsonV, NumberV};
use crate::json_laws;
use crate::shell::vars;
use crate::shell::vars::Pairs;
use crate::text;
use vstd::prelude::*;

verus! {

/// A text, or null where there is none.
pub open spec fn text_or_null(s: Option<Seq<char>>) -> JsonV {
    match s {
        Some(t) => JsonV::Str(t),
        None => JsonV::Null,
    }
}

/// A refusal has its status and says why, and nothing else.
pub proof fn an_error_is_told_in_words(status: u16, message: Seq<char>)
    ensures
        ({
            let v = reply::refused(status, message).body;
            &&& json::field(v, "error"@) == Some(JsonV::Str(message))
        }),
        reply::refused(status, message).status == status,
        reply::db_refused(message).status == 500,
        reply::said_ok(JsonV::Null).status == 200,
        reply::said_created(JsonV::Null).status == 201,
        reply::said_ok(JsonV::Str(message)).body == JsonV::Str(message),
        reply::said_created(JsonV::Str(message)).body == JsonV::Str(message),
{
    reveal_strlit("error");
    assert("error"@.len() == 5);
    let m = reply::refused(status, message).body->Obj_0;
    json_laws::the_first_member_is_read(m, 0);
}

/// The tokens of an answer are told, each count under its own name.
pub proof fn usage_is_told_as_it_is(u: Usage)
    ensures
        ({
            let v = reply::usage_value(u);
            &&& json::field(v, "cache_creation_tokens"@) == Some(JsonV::Num(NumberV::Unsigned(u.cache_creation_tokens as u64)))
            &&& json::field(v, "cache_read_tokens"@) == Some(JsonV::Num(NumberV::Unsigned(u.cache_read_tokens as u64)))
            &&& json::field(v, "input_tokens"@) == Some(JsonV::Num(NumberV::Unsigned(u.input_tokens as u64)))
            &&& json::field(v, "output_tokens"@) == Some(JsonV::Num(NumberV::Unsigned(u.output_tokens as u64)))
        }),
{
    reveal_strlit("cache_creation_tokens");
    reveal_strlit("cache_read_tokens");
    reveal_strlit("input_tokens");
    reveal_strlit("output_tokens");
    assert("cache_creation_tokens"@.len() == 21 && "cache_read_tokens"@.len() == 17 && "input_tokens"@.len() == 12 && "output_tokens"@.len() == 13);
    let m = reply::usage_value(u)->Obj_0;
    json_laws::the_first_member_is_read(m, 0);
    json_laws::the_first_member_is_read(m, 1);
    json_laws::the_first_member_is_read(m, 2);
    json_laws::the_first_member_is_read(m, 3);
}

/// A session is listed under its id, with its agent, its name and its sandbox.
pub proof fn a_session_is_listed_as_it_is(id: Seq<char>, agent: Seq<char>, name: Option<Seq<char>>, sandbox: Seq<char>)
    ensures
        ({
            let v = sessions::summary_value(id, agent, name, sandbox);
            &&& json::field(v, "agent"@) == Some(JsonV::Str(agent))
            &&& json::field(v, "id"@) == Some(JsonV::Str(id))
            &&& json::field(v, "name"@) == Some(text_or_null(name))
            &&& json::field(v, "sandbox_id"@) == Some(JsonV::Str(sandbox))
        }),
{
    reveal_strlit("agent");
    reveal_strlit("id");
    reveal_strlit("name");
    reveal_strlit("sandbox_id");
    assert("agent"@.len() == 5 && "id"@.len() == 2 && "name"@.len() == 4 && "sandbox_id"@.len() == 10);
    let m = sessions::summary_value(id, agent, name, sandbox)->Obj_0;
    json_laws::the_first_member_is_read(m, 0);
    json_laws::the_first_member_is_read(m, 1);
    json_laws::the_first_member_is_read(m, 2);
    json_laws::the_first_member_is_read(m, 3);
}

/// A session is shown under its id, with its agent, the version it is pinned to, its
/// name, its sandbox, its model and its messages.
pub proof fn a_session_is_shown_as_it_is(id: Seq<char>, e: EntryV, model: Option<Seq<char>>, count: int, messages: Seq<JsonV>)
    ensures
        ({
            let v = sessions::session_value(id, e, model, count, messages);
            &&& json::field(v, "agent"@) == Some(JsonV::Str(e.agent_name))
            &&& json::field(v, "agent_version_id"@) == Some(JsonV::Str(e.agent_version_id))
            &&& json::field(v, "message_count"@) == Some(JsonV::Num(NumberV::Unsigned(count as u64)))
            &&& json::field(v, "messages"@) == Some(JsonV::Arr(messages))
            &&& json::field(v, "model"@) == Some(text_or_null(model))
            &&& json::field(v, "name"@) == Some(text_or_null(e.name))
            &&& json::field(v, "sandbox_id"@) == Some(JsonV::Str(e.sandbox_id))
            &&& json::field(v, "session_id"@) == Some(JsonV::Str(id))
        }),
{
    reveal_strlit("agent");
    reveal_strlit("agent_version_id");
    reveal_strlit("message_count");
    reveal_strlit("messages");
    reveal_strlit("model");
    reveal_strlit("name");
    reveal_strlit("sandbox_id");
    reveal_strlit("session_id");
    assert("agent"@.len() == 5 && "agent_version_id"@.len() == 16 && "message_count"@.len() == 13 && "messages"@.len() == 8 && "model"@.len() == 5 && "name"@.len() == 4 && "sandbox_id"@.len() == 10 && "session_id"@.len() == 10);
    assert("agent"@[0] != "model"@[0]);
    assert("sandbox_id"@[1] != "session_id"@[1]);
    let m = sessions::session_value(id, e, model, count, messages)->Obj_0;
    json_laws::the_first_member_is_read(m, 0);
    json_laws::the_first_member_is_read(m, 1);
    json_laws::the_first_member_is_read(m, 2);
    json_laws::the_first_member_is_read(m, 3);
    json_laws::the_first_member_is_read(m, 4);
    json_laws::the_first_member_is_read(m, 5);
    json_laws::the_first_member_is_read(m, 6);
    json_laws::the_first_member_is_read(m, 7);
}

/// A message of a log is shown with its kind, its text, its call and its tool, its
/// tokens and its moments, each under its own name.
pub proof fn a_message_is_shown_as_it_is(i: InfoV)
    ensures
        ({
            let v = sessions::info_value(i);
            &&& json::field(v, "arguments"@) == Some(text_or_null(i.arguments))
            &&& json::field(v, "cache_creation_tokens"@) == Some(JsonV::Num(NumberV::Unsigned(i.usage.cache_creation_tokens as u64)))
            &&& json::field(v, "cache_read_tokens"@) == Some(JsonV::Num(NumberV::Unsigned(i.usage.cache_read_tokens as u64)))
            &&& json::field(v, "created_at_ms"@) == Some(JsonV::Num(NumberV::Unsigned(i.created_at_ms as u64)))
            &&& json::field(v, "finished_at_ms"@) == Some(JsonV::Num(NumberV::Unsigned(i.finished_at_ms as u64)))
            &&& json::field(v, "input_tokens"@) == Some(JsonV::Num(NumberV::Unsigned(i.usage.input_tokens as u64)))
            &&& json::field(v, "is_error"@) == Some(JsonV::Bool(i.is_error))
            &&& json::field(v, "kind"@) == Some(JsonV::Str(i.kind))
            &&& json::field(v, "output_tokens"@) == Some(JsonV::Num(NumberV::Unsigned(i.usage.output_tokens as u64)))
            &&& json::field(v, "text"@) == Some(text_or_null(i.text))
            &&& json::field(v, "tool_call_id"@) == Some(text_or_null(i.tool_call_id))
            &&& json::field(v, "tool_name"@) == Some(text_or_null(i.tool_name))
        }),
{
    reveal_strlit("arguments");
    reveal_strlit("cache_creation_tokens");
    reveal_strlit("cache_read_tokens");
    reveal_strlit("created_at_ms");
    reveal_strlit("finished_at_ms");
    reveal_strlit("input_tokens");
    reveal_strlit("is_error");
    reveal_strlit("kind");
    reveal_strlit("output_tokens");
    reveal_strlit("text");
    reveal_strlit("tool_call_id");
    reveal_strlit("tool_name");
    assert("arguments"@.len() == 9 && "cache_creation_tokens"@.len() == 21 && "cache_read_tokens"@.len() == 17 && "created_at_ms"@.len() == 13 && "finished_at_ms"@.len() == 14 && "input_tokens"@.len() == 12 && "is_error"@.len() == 8 && "kind"@.len() == 4 && "output_tokens"@.len() == 13 && "text"@.len() == 4 && "tool_call_id"@.len() == 12 && "tool_name"@.len() == 9);
    assert("arguments"@[0] != "tool_name"@[0]);
    assert("created_at_ms"@[0] != "output_tokens"@[0]);
    assert("input_tokens"@[0] != "tool_call_id"@[0]);
    assert("kind"@[0] != "text"@[0]);
    let m = sessions::info_value(i)->Obj_0;
    json_laws::the_first_member_is_read(m, 0);
    json_laws::the_first_member_is_read(m, 1);
    json_laws::the_first_member_is_read(m, 2);
    json_laws::the_first_member_is_read(m, 3);
    json_laws::the_first_member_is_read(m, 4);
    json_laws::the_first_member_is_read(m, 5);
    json_laws::the_first_member_is_read(m, 6);
    json_laws::the_first_member_is_read(m, 7);
    json_laws::the_first_member_is_read(m, 8);
    json_laws::the_first_member_is_read(m, 9);
    json_laws::the_first_member_is_read(m, 10);
    json_laws::the_first_member_is_read(m, 11);
}

/// What was done with a session is told of that session.
pub proof fn what_was_done_is_told_of_its_session(id: Seq<char>, status: Seq<char>)
    ensures
        ({
            let v = sessions::session_done(id, status);
            &&& json::field(v, "session_id"@) == Some(JsonV::Str(id))
            &&& json::field(v, "status"@) == Some(JsonV::Str(status))
        }),
{
    reveal_strlit("session_id");
    reveal_strlit("status");
    assert("session_id"@.len() == 10 && "status"@.len() == 6);
    let m = sessions::session_done(id, status)->Obj_0;
    json_laws::the_first_member_is_read(m, 0);
    json_laws::the_first_member_is_read(m, 1);
}

/// A sandbox is listed under its id, with its name and the moment it was made.
pub proof fn a_sandbox_is_listed_as_it_is(s: Sandbox)
    ensures
        ({
            let v = sessions::sandbox_value(s);
            &&& json::field(v, "created_at"@) == Some(sessions::stamp_value(s.created_at))
            &&& json::field(v, "id"@) == Some(JsonV::Str(s.id@))
            &&& json::field(v, "name"@) == Some(JsonV::Str(s.name@))
        }),
        s.created_at >= 0 ==> sessions::stamp_value(s.created_at) == JsonV::Num(
            NumberV::Unsigned(s.created_at as u64),
        ),
{
    reveal_strlit("created_at");
    reveal_strlit("id");
    reveal_strlit("name");
    assert("created_at"@.len() == 10 && "id"@.len() == 2 && "name"@.len() == 4);
    let m = sessions::sandbox_value(s)->Obj_0;
    json_laws::the_first_member_is_read(m, 0);
    json_laws::the_first_member_is_read(m, 1);
    json_laws::the_first_member_is_read(m, 2);
}

/// What was done with a sandbox is told with its id and its name.
pub proof fn what_was_done_is_told_of_its_sandbox(id: Seq<char>, name: Seq<char>)
    ensures
        ({
            let v = sessions::sandbox_done(id, name);
            &&& json::field(v, "id"@) == Some(JsonV::Str(id))
            &&& json::field(v, "name"@) == Some(JsonV::Str(name))
        }),
{
    reveal_strlit("id");
    reveal_strlit("name");
    assert("id"@.len() == 2 && "name"@.len() == 4);
    let m = sessions::sandbox_done(id, name)->Obj_0;
    json_laws::the_first_member_is_read(m, 0);
    json_laws::the_first_member_is_read(m, 1);
}

/// An agent is listed with all that defines it, each under its own name.
pub proof fn an_agent_is_listed_as_it_is(d: AgentDefV)
    ensures
        ({
            let v = agents::agent_value(d);
            &&& json::field(v, "auto_compact"@) == Some(JsonV::Bool(d.auto_compact))
            &&& json::field(v, "capabilities"@) == Some(JsonV::Arr(d.capabilities.map_values(|s: Seq<char>| JsonV::Str(s))))
            &&& json::field(v, "compaction_ratio"@) == Some(JsonV::Num(d.compaction_ratio))
            &&& json::field(v, "context_window"@) == Some(JsonV::Num(NumberV::Unsigned(d.context_window as u64)))
            &&& json::field(v, "id"@) == Some(JsonV::Str(d.id))
            &&& json::field(v, "instances"@) == Some(JsonV::Num(NumberV::Unsigned(d.instances as u64)))
            &&& json::field(v, "max_history"@) == Some(JsonV::Num(NumberV::Unsigned(d.max_history as u64)))
            &&& json::field(v, "model"@) == Some(JsonV::Str(d.model))
            &&& json::field(v, "name"@) == Some(JsonV::Str(d.name))
            &&& json::field(v, "system_prompt"@) == Some(JsonV::Str(d.system_prompt))
        }),
{
    reveal_strlit("auto_compact");
    reveal_strlit("capabilities");
    reveal_strlit("compaction_ratio");
    reveal_strlit("context_window");
    reveal_strlit("id");
    reveal_strlit("instances");
    reveal_strlit("max_history");
    reveal_strlit("model");
    reveal_strlit("name");
    reveal_strlit("system_prompt");
    assert("auto_compact"@.len() == 12 && "capabilities"@.len() == 12 && "compaction_ratio"@.len() == 16 && "context_window"@.len() == 14 && "id"@.len() == 2 && "instances"@.len() == 9 && "max_history"@.len() == 11 && "model"@.len() == 5 && "name"@.len() == 4 && "system_prompt"@.len() == 13);
    assert("auto_compact"@[0] != "capabilities"@[0]);
    let m = agents::agent_value(d)->Obj_0;
    json_laws::the_first_member_is_read(m, 0);
    json_laws::the_first_member_is_read(m, 1);
    json_laws::the_first_member_is_read(m, 2);
    json_laws::the_first_member_is_read(m, 3);
    json_laws::the_first_member_is_read(m, 4);
    json_laws::the_first_member_is_read(m, 5);
    json_laws::the_first_member_is_read(m, 6);
    json_laws::the_first_member_is_read(m, 7);
    json_laws::the_first_member_is_read(m, 8);
    json_laws::the_first_member_is_read(m, 9);
}

/// What was done with an agent is told with its name and the version that came of it.
pub proof fn what_was_done_is_told_of_its_agent(name: Seq<char>, version: Seq<char>, status: Seq<char>)
    ensures
        ({
            let v = agents::agent_done(name, version, status);
            &&& json::field(v, "name"@) == Some(JsonV::Str(name))
            &&& json::field(v, "status"@) == Some(JsonV::Str(status))
            &&& json::field(v, "version_id"@) == Some(JsonV::Str(version))
        }),
{
    reveal_strlit("name");
    reveal_strlit("status");
    reveal_strlit("version_id");
    assert("name"@.len() == 4 && "status"@.len() == 6 && "version_id"@.len() == 10);
    let m = agents::agent_done(name, version, status)->Obj_0;
    json_laws::the_first_member_is_read(m, 0);
    json_laws::the_first_member_is_read(m, 1);
    json_laws::the_first_member_is_read(m, 2);
}

/// A provider is listed with its name, its address and its key.
pub proof fn a_provider_is_listed_as_it_is(p: ProviderDefV)
    ensures
        ({
            let v = providers::provider_value(p);
            &&& json::field(v, "api_key"@) == Some(text_or_null(p.api_key))
            &&& json::field(v, "base_url"@) == Some(JsonV::Str(p.base_url))
            &&& json::field(v, "name"@) == Some(JsonV::Str(p.name))
        }),
{
    reveal_strlit("api_key");
    reveal_strlit("base_url");
    reveal_strlit("name");
    assert("api_key"@.len() == 7 && "base_url"@.len() == 8 && "name"@.len() == 4);
    let m = providers::provider_value(p)->Obj_0;
    json_laws::the_first_member_is_read(m, 0);
    json_laws::the_first_member_is_read(m, 1);
    json_laws::the_first_member_is_read(m, 2);
}

/// What was done with a provider is told of that provider.
pub proof fn what_was_done_is_told_of_its_provider(name: Seq<char>, status: Seq<char>)
    ensures
        ({
            let v = providers::provider_done(name, status);
            &&& json::field(v, "name"@) == Some(JsonV::Str(name))
            &&& json::field(v, "status"@) == Some(JsonV::Str(status))
        }),
{
    reveal_strlit("name");
    reveal_strlit("status");
    assert("name"@.len() == 4 && "status"@.len() == 6);
    let m = providers::provider_done(name, status)->Obj_0;
    json_laws::the_first_member_is_read(m, 0);
    json_laws::the_first_member_is_read(m, 1);
}

/// A tool is listed under its id and its name, with its description, its parameters
/// and its variables.
pub proof fn a_tool_is_listed_as_it_is(s: SpecV, env: Pairs)
    ensures
        ({
            let v = tools::tool_value(s, env);
            &&& json::field(v, "description"@) == Some(JsonV::Str(s.description))
            &&& json::field(v, "env"@) == Some(tools::env_value(env))
            &&& json::field(v, "id"@) == Some(JsonV::Str(s.id))
            &&& json::field(v, "name"@) == Some(JsonV::Str(s.name))
            &&& json::field(v, "parameters"@) == Some(s.parameters)
        }),
{
    reveal_strlit("description");
    reveal_strlit("env");
    reveal_strlit("id");
    reveal_strlit("name");
    reveal_strlit("parameters");
    assert("description"@.len() == 11 && "env"@.len() == 3 && "id"@.len() == 2 && "name"@.len() == 4 && "parameters"@.len() == 10);
    let m = tools::tool_value(s, env)->Obj_0;
    json_laws::the_first_member_is_read(m, 0);
    json_laws::the_first_member_is_read(m, 1);
    json_laws::the_first_member_is_read(m, 2);
    json_laws::the_first_member_is_read(m, 3);
    json_laws::the_first_member_is_read(m, 4);
}

/// The bundled and the custom tools are listed apart, with the number of both.
pub proof fn tools_are_listed_with_their_number(b: Seq<JsonV>, c: Seq<JsonV>)
    ensures
        ({
            let v = tools::tool_list(b, c);
            &&& json::field(v, "builtins"@) == Some(JsonV::Arr(b))
            &&& json::field(v, "customs"@) == Some(JsonV::Arr(c))
            &&& json::field(v, "total"@) == Some(JsonV::Num(NumberV::Unsigned((b.len() + c.len()) as u64)))
        }),
{
    reveal_strlit("builtins");
    reveal_strlit("customs");
    reveal_strlit("total");
    assert("builtins"@.len() == 8 && "customs"@.len() == 7 && "total"@.len() == 5);
    let m = tools::tool_list(b, c)->Obj_0;
    json_laws::the_first_member_is_read(m, 0);
    json_laws::the_first_member_is_read(m, 1);
    json_laws::the_first_member_is_read(m, 2);
}

/// What was done with a tool is told with its id and its name.
pub proof fn what_was_done_is_told_of_its_tool(id: Seq<char>, name: Seq<char>, status: Seq<char>)
    ensures
        ({
            let v = tools::tool_done(id, name, status);
            &&& json::field(v, "id"@) == Some(JsonV::Str(id))
            &&& json::field(v, "name"@) == Some(JsonV::Str(name))
            &&& json::field(v, "status"@) == Some(JsonV::Str(status))
        }),
{
    reveal_strlit("id");
    reveal_strlit("name");
    reveal_strlit("status");
    assert("id"@.len() == 2 && "name"@.len() == 4 && "status"@.len() == 6);
    let m = tools::tool_done(id, name, status)->Obj_0;
    json_laws::the_first_member_is_read(m, 0);
    json_laws::the_first_member_is_read(m, 1);
    json_laws::the_first_member_is_read(m, 2);
}

/// The event that ends a turn says so and brings its tokens.
pub proof fn the_last_event_brings_the_usage(u: Usage)
    ensures
        ({
            let v = message::done_value(u);
            &&& json::field(v, "done"@) == Some(JsonV::Bool(true))
            &&& json::field(v, "usage"@) == Some(reply::usage_value(u))
        }),
{
    reveal_strlit("done");
    reveal_strlit("usage");
    assert("done"@.len() == 4 && "usage"@.len() == 5);
    let m = message::done_value(u)->Obj_0;
    json_laws::the_first_member_is_read(m, 0);
    json_laws::the_first_member_is_read(m, 1);
}

/// The event that tells of a failed turn says why it failed.
pub proof fn a_failed_turn_is_told_with_its_reason(why: Seq<char>)
    ensures
        ({
            let v = message::failure_value(why);
            &&& json::field(v, "message"@) == Some(JsonV::Str("agent run failed: "@ + why))
        }),
{
    reveal_strlit("message");
    assert("message"@.len() == 7);
    let m = message::failure_value(why)->Obj_0;
    json_laws::the_first_member_is_read(m, 0);
}

// ---- the log of a session ----

/// What was said is shown as it was said: in the log that clients get, the k-th
/// message is the k-th block, with its kind, its tokens and its moments, and where
/// that is of a user, of the system, text or thinking, its text is the block's own.
pub proof fn what_was_said_is_shown(blocks: Seq<BlockV>, k: int)
    requires
        0 <= k < blocks.len(),
    ensures
        sessions::log_values(blocks).len() == blocks.len(),
        ({
            let b = blocks[k];
            let v = sessions::log_values(blocks)[k];
            &&& json::field(v, "kind"@) == Some(JsonV::Str(b.kind))
            &&& json::field(v, "created_at_ms"@) == Some(
                JsonV::Num(NumberV::Unsigned(b.created_at_ms)),
            )
            &&& json::field(v, "finished_at_ms"@) == Some(
                JsonV::Num(NumberV::Unsigned(b.finished_at_ms)),
            )
            &&& json::field(v, "input_tokens"@) == Some(
                JsonV::Num(NumberV::Unsigned(b.usage.input_tokens as u64)),
            )
            &&& json::field(v, "output_tokens"@) == Some(
                JsonV::Num(NumberV::Unsigned(b.usage.output_tokens as u64)),
            )
            &&& b.kind == "user"@ || b.kind == "system"@ || b.kind == "text"@ || b.kind
                == "thinking"@ ==> json::field(v, "text"@) == Some(text_or_null(b.text))
        }),
{
    reveal_strlit("user");
    reveal_strlit("system");
    reveal_strlit("text");
    reveal_strlit("thinking");
    reveal_strlit("tool-result");
    assert("user"@.len() == 4 && "system"@.len() == 6 && "text"@.len() == 4 && "thinking"@.len()
        == 8 && "tool-result"@.len() == 11);
    let b = blocks[k];
    a_message_is_shown_as_it_is(sessions::projected(b, sessions::payload_of(b)));
}

/// What a tool gave is shown as it was logged: under the call it answers and the
/// tool's name, with the output as its text and whether it failed. A call is shown
/// with its id, its tool and its arguments.
pub proof fn what_a_tool_gave_is_shown(
    blocks: Seq<BlockV>,
    k: int,
    c: CallV,
    out: Seq<char>,
    is_error: bool,
)
    requires
        0 <= k < blocks.len(),
    ensures
        blocks[k].kind == "tool-result"@ && json::json_value(chat::body(blocks[k])) == Some(
            payload::kept_result(c, out, is_error),
        ) ==> {
            let v = sessions::log_values(blocks)[k];
            &&& json::field(v, "text"@) == Some(JsonV::Str(out))
            &&& json::field(v, "tool_call_id"@) == Some(JsonV::Str(c.id))
            &&& json::field(v, "tool_name"@) == Some(JsonV::Str(c.name))
            &&& json::field(v, "is_error"@) == Some(JsonV::Bool(is_error))
        },
        blocks[k].kind == "tool-use"@ && json::json_value(chat::body(blocks[k])) == Some(
            payload::kept_call(c),
        ) ==> {
            let v = sessions::log_values(blocks)[k];
            &&& json::field(v, "tool_call_id"@) == Some(JsonV::Str(c.id))
            &&& json::field(v, "tool_name"@) == Some(JsonV::Str(c.name))
            &&& json::field(v, "arguments"@) == Some(JsonV::Str(c.arguments))
            &&& json::field(v, "is_error"@) == Some(JsonV::Bool(false))
        },
{
    reveal_strlit("id");
    reveal_strlit("is_error");
    reveal_strlit("name");
    reveal_strlit("output");
    reveal_strlit("arguments");
    assert("id"@.len() == 2 && "is_error"@.len() == 8 && "name"@.len() == 4 && "output"@.len() == 6 && "arguments"@.len() == 9);
    let b = blocks[k];
    a_message_is_shown_as_it_is(sessions::projected(b, sessions::payload_of(b)));
    let r = payload::kept_result(c, out, is_error)->Obj_0;
    json_laws::the_first_member_is_read(r, 0);
    json_laws::the_first_member_is_read(r, 1);
    json_laws::the_first_member_is_read(r, 2);
    json_laws::the_first_member_is_read(r, 3);
    let u = payload::kept_call(c)->Obj_0;
    json_laws::the_first_member_is_read(u, 0);
    json_laws::the_first_member_is_read(u, 1);
    json_laws::the_first_member_is_read(u, 2);
    json_laws::a_missing_member_is_not_read(u, "is_error"@, JsonV::Null);
}

// ---- changes ----

/// A new name is kept without the white space around it, and a blank one takes the
/// name away; another sandbox is taken as it is; the rest of the session stays.
pub proof fn changes_change_what_they_say(e: EntryV, name: Seq<char>, sandbox: Seq<char>)
    ensures
        ({
            let c = sessions::changed(e, Some(name), None);
            &&& c.name == (if text::trim(name).len() == 0 {
                None
            } else {
                Some(text::trim(name))
            })
            &&& c == (EntryV { name: c.name, ..e })
        }),
        sessions::changed(e, None, Some(sandbox)) == (EntryV { sandbox_id: sandbox, ..e }),
        sessions::moves(e, Some(name)) <==> name != e.agent_version_id,
        sessions::moved(e, name, sandbox) == (EntryV {
            agent_name: name,
            agent_version_id: sandbox,
            ..e
        }),
{
}

/// The variables of a tool are listed, each under its name.
pub proof fn variables_are_listed(env: Pairs, name: Seq<char>)
    requires
        vars::value_of(env, name) is Some,
    ensures
        json::field(tools::env_value(env), name) == Some(
            JsonV::Str(vars::value_of(env, name)->0),
        ),
    decreases env.len(),
{
    let m = tools::env_value(env)->Obj_0;
    if env[0].0 == name {
        json_laws::the_first_member_is_read(m, 0);
    } else {
        variables_are_listed(env.skip(1), name);
        assert(m.skip(1) =~= tools::env_value(env.skip(1))->Obj_0);
    }
}

/// The module of a tool is the one that is sent, if it is not empty; a change
/// without one keeps what is stored; anything else is refused with its reason.
pub proof fn modules_are_what_is_sent(b: Seq<u8>, old: Seq<u8>, e: Seq<char>, is_new: bool)
    requires
        b.len() > 0,
    ensures
        tools::module(Some(Ok(b)), is_new, Some(old)) == Ok::<Seq<u8>, reply::ReplyV>(b),
        tools::module(None, false, Some(old)) == Ok::<Seq<u8>, reply::ReplyV>(old),
        tools::module(None, true, Some(old)) matches Err(r) && r.status == 400,
        tools::module(None, false, None) matches Err(r) && r.status == 404,
        tools::module(Some(Ok(seq![])), is_new, Some(old)) matches Err(r) && r.status == 400,
        tools::module(Some(Err(e)), is_new, Some(old)) matches Err(r) && r.status == 400,
{
}

/// A name is taken where another tool has it, and a tool's own name is not.
pub proof fn names_are_taken_by_others(
    customs: Seq<crate::host::tools::ToolDef>,
    k: int,
    other: Seq<char>,
)
    requires
        0 <= k < customs.len(),
        forall|i: int| 0 <= i < customs.len() && i != k ==> (#[trigger] customs[i]).name@
            != customs[k].name@,
    ensures
        tools::name_taken(customs, customs[k].name@, None),
        other != customs[k].id@ ==> tools::name_taken(customs, customs[k].name@, Some(other)),
        !tools::name_taken(customs, customs[k].name@, Some(customs[k].id@)),
{
}

/// A list of tools is refused exactly where one of them is not known or two have one
/// name.
pub proof fn tool_lists_are_refused_for_a_reason(
    ids: Seq<Seq<char>>,
    names: Seq<Option<Seq<char>>>,
)
    requires
        names.len() == ids.len(),
    ensures
        agents::caps_fault(ids, names, 0) is None <==> (forall|i: int|
            0 <= i < names.len() ==> (#[trigger] names[i]) is Some) && (forall|i: int, j: int|
            0 <= i < j < names.len() ==> names[i] != names[j]),
{
    lemma_caps(ids, names, 0);
}

proof fn lemma_caps(ids: Seq<Seq<char>>, names: Seq<Option<Seq<char>>>, k: int)
    requires
        names.len() == ids.len(),
        0 <= k <= ids.len(),
    ensures
        agents::caps_fault(ids, names, k) is None <==> (forall|j: int|
            k <= j < names.len() ==> (#[trigger] names[j]) is Some && !names.take(j).contains(
                names[j],
            )),
        k == 0 ==> (agents::caps_fault(ids, names, k) is None <==> (forall|i: int|
            0 <= i < names.len() ==> (#[trigger] names[i]) is Some) && (forall|i: int, j: int|
            0 <= i < j < names.len() ==> names[i] != names[j])),
    decreases ids.len() - k,
{
    if k < ids.len() {
        lemma_caps(ids, names, k + 1);
    }
    if k == 0 {
        if agents::caps_fault(ids, names, 0) is None {
            assert forall|i: int, j: int| 0 <= i < j < names.len() implies names[i]
                != names[j] by {
                if names[i] == names[j] {
                    assert(names.take(j)[i] == names[i]);
                    assert(names.take(j).contains(names[j]));
                }
            }
        }
        if (forall|i: int| 0 <= i < names.len() ==> (#[trigger] names[i]) is Some) && (forall|
            i: int,
            j: int,
        | 0 <= i < j < names.len() ==> names[i] != names[j]) {
            assert forall|j: int| 0 <= j < names.len() implies (#[trigger] names[j]) is Some
                && !names.take(j).contains(names[j]) by {
                if names.take(j).contains(names[j]) {
                    let i = choose|i: int| 0 <= i < j && names.take(j)[i] == names[j];
                    assert(names[i] == names[j]);
                }
            }
        }
    }
}

// ---- answers ----

/// A session is shown with its own id, agent, version, name, sandbox and model, and with
/// one message for each block of its log, in their order.
pub proof fn a_session_is_answered_with_its_log(
    id: Seq<char>,
    e: EntryV,
    model: Option<Seq<char>>,
    blocks: Seq<BlockV>,
    k: int,
)
    requires
        0 <= k < blocks.len(),
    ensures
        ({
            let r = sessions::shown(id, e, model, blocks);
            let m = json::field(r.body, "messages"@);
            &&& r.status == 200
            &&& json::field(r.body, "session_id"@) == Some(JsonV::Str(id))
            &&& json::field(r.body, "agent"@) == Some(JsonV::Str(e.agent_name))
            &&& json::field(r.body, "agent_version_id"@) == Some(JsonV::Str(e.agent_version_id))
            &&& json::field(r.body, "name"@) == Some(text_or_null(e.name))
            &&& json::field(r.body, "sandbox_id"@) == Some(JsonV::Str(e.sandbox_id))
            &&& json::field(r.body, "model"@) == Some(text_or_null(model))
            &&& json::field(r.body, "message_count"@) == Some(
                JsonV::Num(NumberV::Unsigned(blocks.len() as u64)),
            )
            &&& m matches Some(JsonV::Arr(a)) && a.len() == blocks.len() && json::field(
                a[k],
                "kind"@,
            ) == Some(JsonV::Str(blocks[k].kind)) && (blocks[k].kind == "user"@
                || blocks[k].kind == "text"@ ==> json::field(a[k], "text"@) == Some(
                text_or_null(blocks[k].text),
            ))
        }),
{
    a_session_is_shown_as_it_is(
        id,
        e,
        model,
        blocks.len() as int,
        sessions::log_values(blocks),
    );
    what_was_said_is_shown(blocks, k);
}

/// All sessions are listed, in their order, with their number.
pub proof fn all_sessions_are_listed(v: Seq<JsonV>)
    ensures
        ({
            let r = sessions::listed(v);
            &&& r.status == 200
            &&& json::field(r.body, "sessions"@) == Some(JsonV::Arr(v))
            &&& json::field(r.body, "total"@) == Some(
                JsonV::Num(NumberV::Unsigned(v.len() as u64)),
            )
        }),
{
    reveal_strlit("sessions");
    reveal_strlit("total");
    assert("sessions"@.len() == 8 && "total"@.len() == 5);
    let m = sessions::listed(v).body->Obj_0;
    json_laws::the_first_member_is_read(m, 0);
    json_laws::the_first_member_is_read(m, 1);
}

/// A session that is created is told with its id and what it is pinned to, and is kept
/// with just that.
pub proof fn a_created_session_is_told(
    id: Seq<char>,
    agent: Seq<char>,
    version: Seq<char>,
    sandbox: Seq<char>,
    now: i64,
)
    ensures
        ({
            let v = sessions::creation(id, agent, version, sandbox);
            let e = sessions::begun(agent, version, sandbox, now);
            &&& json::field(v, "session_id"@) == Some(JsonV::Str(id))
            &&& json::field(v, "agent"@) == Some(JsonV::Str(agent))
            &&& json::field(v, "agent_version_id"@) == Some(JsonV::Str(version))
            &&& json::field(v, "sandbox_id"@) == Some(JsonV::Str(sandbox))
            &&& e.agent_name == agent && e.agent_version_id == version && e.sandbox_id == sandbox
            &&& e.name is None && e.updated_at == now
        }),
{
    reveal_strlit("agent");
    reveal_strlit("agent_version_id");
    reveal_strlit("sandbox_id");
    reveal_strlit("session_id");
    assert("agent"@.len() == 5 && "agent_version_id"@.len() == 16 && "sandbox_id"@.len() == 10 && "session_id"@.len() == 10);
    assert("sandbox_id"@[1] != "session_id"@[1]);
    let m = sessions::creation(id, agent, version, sandbox)->Obj_0;
    json_laws::the_first_member_is_read(m, 0);
    json_laws::the_first_member_is_read(m, 1);
    json_laws::the_first_member_is_read(m, 2);
    json_laws::the_first_member_is_read(m, 3);
}

/// A change is told as it was made, and refused exactly where something that was asked
/// for could not be done.
pub proof fn changes_are_told_as_they_were_made(
    id: Seq<char>,
    e: EntryV,
    name_asked: bool,
    sandbox_asked: bool,
    renamed: bool,
    known: bool,
    moved: bool,
)
    ensures
        ({
            let v = sessions::change_told(id, e);
            &&& json::field(v, "session_id"@) == Some(JsonV::Str(id))
            &&& json::field(v, "name"@) == Some(text_or_null(e.name))
            &&& json::field(v, "sandbox_id"@) == Some(JsonV::Str(e.sandbox_id))
        }),
        sessions::change_fault(name_asked, sandbox_asked, renamed, known, moved) is None <==> (
        name_asked ==> renamed) && (sandbox_asked ==> known && moved),
        sandbox_asked && !known && (name_asked ==> renamed) ==> (sessions::change_fault(
            name_asked,
            sandbox_asked,
            renamed,
            known,
            moved,
        ) matches Some(r) && r.status == 404),
{
    reveal_strlit("name");
    reveal_strlit("sandbox_id");
    reveal_strlit("session_id");
    assert("name"@.len() == 4 && "sandbox_id"@.len() == 10 && "session_id"@.len() == 10);
    assert("sandbox_id"@[1] != "session_id"@[1]);
    let m = sessions::change_told(id, e)->Obj_0;
    json_laws::the_first_member_is_read(m, 0);
    json_laws::the_first_member_is_read(m, 1);
    json_laws::the_first_member_is_read(m, 2);
}

/// A new agent is answered as created and a new version as an update, with the name
/// and the version; a deletion that removed a name tells so, and one that removed none
/// is of an agent that is not known.
pub proof fn agents_are_answered_as_they_were_stored(
    name: Seq<char>,
    version: Seq<char>,
    n: nat,
)
    ensures
        agents::saved(name, version, true).status == 201,
        agents::saved(name, version, false).status == 200,
        json::field(agents::saved(name, version, true).body, "status"@) == Some(
            JsonV::Str("created"@),
        ),
        json::field(agents::saved(name, version, false).body, "status"@) == Some(
            JsonV::Str("updated"@),
        ),
        json::field(agents::saved(name, version, true).body, "version_id"@) == Some(
            JsonV::Str(version),
        ),
        json::field(agents::saved(name, version, false).body, "name"@) == Some(JsonV::Str(name)),
        agents::deleted(name, n).status == (if n == 0 {
            404u16
        } else {
            200u16
        }),
        n > 0 ==> json::field(agents::deleted(name, n).body, "name"@) == Some(JsonV::Str(name)),
{
    what_was_done_is_told_of_its_agent(name, version, "created"@);
    what_was_done_is_told_of_its_agent(name, version, "updated"@);
    reveal_strlit("name");
    reveal_strlit("status");
    assert("name"@.len() == 4 && "status"@.len() == 6);
    if n > 0 {
        json_laws::the_first_member_is_read(agents::deleted(name, n).body->Obj_0, 0);
    }
}

// ---- addresses, moments and tokens ----

/// An address is written before its port, in brackets where it has colons of its own.
pub proof fn addresses_are_written_with_their_port(ip: Seq<char>, port: u16)
    ensures
        !ip.contains(':') ==> reply::bind_text(ip, port) == ip + ":"@ + text::decimal(port as int),
        ip.contains(':') ==> reply::bind_text(ip, port) == "["@ + ip + "]:"@ + text::decimal(
            port as int,
        ),
{
}

/// A moment is told as it is, before the epoch as well.
pub proof fn moments_are_told_as_they_are(n: i64)
    ensures
        sessions::stamp_value(n) matches JsonV::Num(x) && (x matches NumberV::Unsigned(u) ==> u
            == n) && (x matches NumberV::Negative(m) ==> m == n) && !(x is Other),
{
}

/// A token starts with its id, and goes on with the moment in hexadecimal digits as far
/// as there is room.
pub proof fn tokens_start_with_their_id(id: Seq<char>, nanos: nat)
    requires
        id.len() <= 48,
    ensures
        ({
            let t = auth::token_text(id, nanos);
            &&& id.len() <= t.len() <= 48
            &&& t.take(id.len() as int) == id
            &&& id.len() == 32 ==> t.len() == 48
            &&& forall|i: int|
                id.len() <= i < t.len() ==> t[i] == #[trigger] auth::hex16(nanos)[i - id.len()]
        }),
{
    let t = auth::token_text(id, nanos);
    assert(auth::hex16(nanos).len() >= 16);
    assert(t.take(id.len() as int) =~= id);
    assert forall|i: int| id.len() <= i < t.len() implies t[i] == #[trigger] auth::hex16(nanos)[i
        - id.len()] by {}
}

/// Hexadecimal digits stand for sixteenths: one more digit is the remainder, behind the
/// digits of the quotient.
pub proof fn hexadecimal_digits_are_sixteenths(n: nat, d: nat)
    requires
        d < 16,
    ensures
        n > 0 ==> auth::hex(16 * n + d) == auth::hex(n) + auth::hex(d),
        d < 10 ==> auth::hex(d) == seq![(d + '0' as int) as char],
        d >= 10 ==> auth::hex(d) == seq![(d - 10 + 'a' as int) as char],
{
    if n > 0 {
        assert((16 * n + d) / 16 == n && (16 * n + d) % 16 == d);
        assert(auth::hex(n).push(auth::hex_digit(d as int)) =~= auth::hex(n) + auth::hex(d));
    }
}

// ---- an answer in one piece ----

/// The answer is all that was said, in its order, whatever else comes in between.
pub proof fn the_answer_is_all_that_was_said(g: GatheredV, t: Seq<char>, event: Seq<char>, data: JsonV)
    ensures
        message::gathered(g, "chunk"@, JsonV::Str(t)).response == g.response + t,
        message::gathered(g, "chunk"@, JsonV::Str(t)).usage == g.usage,
        event != "chunk"@ ==> message::gathered(g, event, data).response == g.response,
        event != "chunk"@ && event != "done"@ ==> message::gathered(g, event, data) == g,
{
}

/// The tokens of an answer are those that its events told, and where they told none,
/// those of its task.
pub proof fn the_usage_is_told_or_the_tasks(told: Usage, task: Usage)
    ensures
        told.input_tokens != 0 || told.output_tokens != 0 ==> message::final_usage(
            told,
            Some(task),
        ) == told,
        told.input_tokens == 0 && told.output_tokens == 0 ==> message::final_usage(
            told,
            Some(task),
        ) == task,
        message::final_usage(told, None) == told,
{
}

/// The bundled tools that run are listed, each once, with no variables.
pub proof fn running_bundled_tools_are_listed(running: Set<Seq<char>>)
    ensures
        ({
            let time = builtin::tool_id("time"@);
            let bash = builtin::tool_id("bash"@);
            let v = tools::bundled_values(running);
            let t = tools::tool_value(builtin::time_shape(time), seq![]);
            let b = tools::tool_value(builtin::bash_shape(bash), seq![]);
            &&& running.contains(time) && running.contains(bash) ==> v == seq![t, b]
            &&& running.contains(time) && !running.contains(bash) ==> v == seq![t]
            &&& !running.contains(time) && running.contains(bash) ==> v == seq![b]
            &&& !running.contains(time) && !running.contains(bash) ==> v.len() == 0
        }),
{
    let time = builtin::tool_id("time"@);
    let bash = builtin::tool_id("bash"@);
    let v = tools::bundled_values(running);
    let t = tools::tool_value(builtin::time_shape(time), seq![]);
    let b = tools::tool_value(builtin::bash_shape(bash), seq![]);
    if running.contains(time) && running.contains(bash) {
        assert(v =~= seq![t, b]);
    } else if running.contains(time) {
        assert(v =~= seq![t]);
    } else if running.contains(bash) {
        assert(v =~= seq![b]);
    }
}

/// An agent's tool goes by the name of the bundled tool or of the stored one.
pub proof fn tools_have_their_names(ids: Seq<Seq<char>>, stored: Seq<Option<Seq<char>>>, k: int)
    requires
        0 <= k < ids.len(),
    ensures
        agents::tool_names(ids, stored).len() == ids.len(),
        ids[k] == builtin::tool_id("time"@) ==> agents::tool_names(ids, stored)[k]
            == Some("time"@),
        ids[k] != builtin::tool_id("time"@) && ids[k]
            == builtin::tool_id("bash"@) ==> agents::tool_names(ids, stored)[k]
            == Some("bash"@),
        ids[k] != builtin::tool_id("time"@) && ids[k]
            != builtin::tool_id("bash"@) ==> agents::tool_names(ids, stored)[k]
            == stored[k],
{
}

} // verus!

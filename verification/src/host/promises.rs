//! What holds of the drivers, of logins and of those who listen.
use crate::api::auth as api_auth;
use crate::api::auth::TokenSourceV;
use crate::bundle;
use crate::cli;
use crate::host::auth;
use crate::host::auth::AuthV;
use crate::host::builtin;
use crate::host::drivers::{DriverEventV, MessageV, RequestV};
use crate::host::echo;
use crate::host::hub;
use crate::host::registry;
use crate::host::wiring;
use crate::host::wiring::{ConfigV, DriverV};
use crate::json;
use crate::json::JsonV;
use crate::json_laws;
use crate::text;
use vstd::prelude::*;

verus! {

// ---- the echo driver ----

/// The text of an event, nothing where it has none.
pub open spec fn said(e: DriverEventV) -> Seq<char> {
    match e {
        DriverEventV::Text(t) => t,
        _ => seq![],
    }
}

/// The echo driver says back what the user said last, word by word: its events are
/// texts, and one behind the other they are the user's own words.
pub proof fn the_echo_says_it_back(r: RequestV, lowered: Seq<char>, t: Seq<char>, k: int)
    requires
        echo::last_user(r.messages) == Some(t),
        !echo::asks_tool(r, lowered),
    ensures
        ({
            let e = echo::echo_events(r, lowered);
            &&& 0 <= k < e.len() ==> e[k] is Text
            &&& echo::glued(e.map_values(|x: DriverEventV| said(x))) == "Echo: "@ + t
        }),
{
    let w = echo::words(seq![], "Echo: "@ + t);
    let e = echo::echo_events(r, lowered);
    echo::words_make_the_text(seq![], "Echo: "@ + t);
    assert(e.map_values(|x: DriverEventV| said(x)) =~= w);
    assert(seq![] + ("Echo: "@ + t) =~= "Echo: "@ + t);
}

/// What the user said last counts, whatever the others have said since.
pub proof fn the_last_user_counts(m: Seq<MessageV>, x: MessageV)
    ensures
        x.role == "user"@ ==> echo::last_user(m.push(x)) == x.content,
        x.role != "user"@ ==> echo::last_user(m.push(x)) == echo::last_user(m),
        echo::last_user(seq![]) is None,
{
    assert(m.push(x).drop_last() =~= m);
}

/// The echo counts a token for every four bytes of all that was sent to it, the system
/// prompt with the messages, and one for every byte that it says.
pub proof fn the_echo_counts_what_it_read_and_said(
    r: RequestV,
    lowered: Seq<char>,
    m: MessageV,
    n: nat,
)
    ensures
        echo::content_bytes(r.messages.push(m)) == echo::content_bytes(r.messages)
            + echo::content_bytes(seq![m]),
        m.content is None ==> echo::content_bytes(seq![m]) == 0,
        m.content matches Some(t) ==> echo::content_bytes(seq![m]) == text::byte_len(t),
        r.system_prompt is None && echo::content_bytes(r.messages) == 4 * n && n <= u32::MAX
            ==> echo::echo_usage(r, lowered).input_tokens == n,
        (r.system_prompt matches Some(p) ==> text::byte_len(p) + echo::content_bytes(r.messages)
            == 4 * n && n <= u32::MAX ==> echo::echo_usage(r, lowered).input_tokens == n),
        echo::last_user(r.messages) matches Some(t) ==> (!text::occurs_in(lowered, "time"@)
            && text::byte_len("Echo: "@ + t) <= u32::MAX ==> echo::echo_usage(
            r,
            lowered,
        ).output_tokens == text::byte_len("Echo: "@ + t)),
        echo::echo_usage(r, lowered).cache_read_tokens == 0,
        echo::echo_usage(r, lowered).cache_creation_tokens == 0,
{
    assert(r.messages.push(m).drop_last() =~= r.messages);
    assert(seq![m].drop_last() =~= Seq::<MessageV>::empty());
    let none: Seq<MessageV> = seq![];
    assert(echo::content_bytes(none) == 0);
}

/// The echo driver calls a tool exactly where the user asks for the time, a tool is
/// there and none has answered yet; then it is that one call and nothing else.
pub proof fn the_echo_asks_for_the_time(r: RequestV, lowered: Seq<char>)
    ensures
        echo::asks_tool(r, lowered) <==> echo::last_user(r.messages) is Some && text::occurs_in(
            lowered,
            "time"@,
        ) && r.tools.len() > 0 && (forall|i: int|
            0 <= i < r.messages.len() ==> (#[trigger] r.messages[i]).role != "tool"@),
        echo::asks_tool(r, lowered) ==> ({
            let e = echo::echo_events(r, lowered);
            &&& e.len() == 2
            &&& e[0] matches DriverEventV::ToolCallStart(c) && e[1]
                == DriverEventV::ToolCallEnd(c) && c.id.len() > 0 && c.arguments == "{}"@
                && (exists|i: int|
                0 <= i < r.tools.len() && (#[trigger] r.tools[i]).name == c.name)
        }),
{
    if echo::asks_tool(r, lowered) {
        lemma_time_tool(r, 0);
        reveal_strlit("call_time");
    }
}

proof fn lemma_time_tool(r: RequestV, i: int)
    requires
        r.tools.len() > 0,
        0 <= i,
    ensures
        exists|k: int|
            0 <= k < r.tools.len() && (#[trigger] r.tools[k]).name == echo::time_tool_from(
                r.tools,
                i,
            ),
    decreases r.tools.len() - i,
{
    if i >= r.tools.len() {
        assert(r.tools[0].name == echo::time_tool_from(r.tools, i));
    } else if echo::tells_time(r.tools[i]) {
        assert(r.tools[i].name == echo::time_tool_from(r.tools, i));
    } else {
        lemma_time_tool(r, i + 1);
    }
}

// ---- providers ----

/// Each provider gets the driver that it asks for, under its own name and in its
/// place; one that asks for what is not there, or leaves out its address, is an error.
pub proof fn providers_get_their_driver(v: Seq<ConfigV>, c: ConfigV, url: Seq<char>, key: Seq<char>)
    ensures
        c.driver == "echo"@ ==> wiring::driver_of(c) == Ok::<DriverV, Seq<char>>(DriverV::Echo),
        c.driver == "openai_compat"@ && c.base_url == Some(url) && c.api_key == Some(key)
            ==> wiring::driver_of(c) == Ok::<DriverV, Seq<char>>(
            DriverV::OpenAi { base_url: url, api_key: key },
        ),
        c.driver == "openai_compat"@ && c.base_url == Some(url) && c.api_key is None
            ==> wiring::driver_of(c) == Ok::<DriverV, Seq<char>>(
            DriverV::OpenAi { base_url: url, api_key: seq![] },
        ),
        c.driver == "openai_compat"@ && c.base_url is None ==> wiring::driver_of(c) is Err,
        c.driver != "echo"@ && c.driver != "openai_compat"@ ==> wiring::driver_of(c) is Err,
        wiring::drivers_of(v) matches Ok(done) ==> (wiring::driver_of(c) matches Ok(d)
            ==> wiring::drivers_of(v.push(c)) == Ok::<Seq<(Seq<char>, DriverV)>, Seq<char>>(
            done.push((c.name, d)),
        )),
        wiring::driver_of(c) is Err ==> wiring::drivers_of(v.push(c)) is Err,
{
    reveal_strlit("echo");
    reveal_strlit("openai_compat");
    assert("echo"@.len() == 4 && "openai_compat"@.len() == 13);
    assert(v.push(c).drop_last() =~= v);
}

// ---- logins ----

/// Failures that are older than the window no longer count, however many there were.
pub proof fn old_failures_are_forgotten(a: AuthV, now: u64)
    requires
        a.max_failures > 0,
        forall|i: int| 0 <= i < a.failures.len() ==> now - #[trigger] a.failures[i] > a.window,
    ensures
        !auth::throttled(a, now),
        auth::aged(a, now).failures.len() == 0,
    decreases a.failures.len(),
{
    if a.failures.len() > 0 {
        let b = AuthV { failures: a.failures.skip(1), ..a };
        assert forall|i: int| 0 <= i < b.failures.len() implies now - #[trigger] b.failures[i]
            > b.window by {
            assert(b.failures[i] == a.failures[i + 1]);
        }
        old_failures_are_forgotten(b, now);
        assert(now - a.failures[0] > a.window);
    }
}

/// A failure counts from the moment it happened, behind those before, and touches no
/// login.
pub proof fn a_failure_is_counted(a: AuthV, now: u64)
    ensures
        auth::failed(a, now).failures == a.failures.push(now),
        auth::failed(a, now).sessions == a.sessions,
        auth::aged(a, now).sessions == a.sessions,
        auth::swept(a, now).failures == a.failures,
{
}

/// The token is that of the environment where it is set, else the configured one,
/// else the one that was kept, without the white space around it, and else a new one.
pub proof fn tokens_have_their_precedence(e: Seq<char>, c: Seq<char>, k: Seq<char>)
    requires
        e.len() > 0,
        c.len() > 0,
    ensures
        api_auth::token_source(Some(e), Some(c), Some(k)) == TokenSourceV::Given(e),
        api_auth::token_source(None, Some(c), Some(k)) == TokenSourceV::Given(c),
        api_auth::token_source(Some(seq![]), Some(c), Some(k)) == TokenSourceV::Given(c),
        text::trim(k).len() > 0 ==> api_auth::token_source(None, None, Some(k))
            == TokenSourceV::Kept(text::trim(k)),
        api_auth::token_source(None, None, None) is Fresh,
{
}

/// The key opens everything, the health check is open to all, and without a key
/// everything is.
pub proof fn the_key_opens(key: Seq<char>, path: Seq<char>, bearer: Option<Seq<char>>)
    ensures
        api_auth::passes(Some(key), path, Some(key)),
        api_auth::passes(Some(key), "/api/health"@, bearer),
        api_auth::passes(None, path, bearer),
        api_auth::passes(Some(seq![]), path, bearer),
{
}

// ---- listeners ----

/// Who listens to a session stays in the order of arrival: one who comes is behind the
/// others, one who leaves or is closed is taken out, and the rest do not move.
pub proof fn listeners_keep_their_order(s: Seq<u64>, sub: u64, accepted: Seq<u64>)
    ensures
        hub::without(s, sub) == s.filter(|x: u64| x != sub),
        hub::only(s, accepted) == s.filter(|x: u64| accepted.contains(x)),
    decreases s.len(),
{
    reveal(Seq::filter);
    if s.len() > 0 {
        listeners_keep_their_order(s.drop_last(), sub, accepted);
    }
}

/// A session that nobody listens to any more is forgotten.
pub proof fn a_session_without_listeners_is_forgotten(m: Map<u64, Seq<u64>>, session: u64, sub: u64)
    ensures
        hub::subscribers(m, session) == seq![sub] ==> !hub::unregistered(m, session, sub).dom(
        ).contains(session),
        hub::registered(m, session, sub).dom().contains(session),
        hub::subscribers(hub::registered(m, session, sub), session) == hub::subscribers(
            m,
            session,
        ).push(sub),
{
    let s = hub::subscribers(m, session);
    if s == seq![sub] {
        assert(s.last() == sub);
        assert(s.drop_last() =~= seq![]);
        assert(hub::without(s.drop_last(), sub).len() == 0);
        assert(hub::without(s, sub).len() == 0);
    }
}

// ---- the rest ----

/// The bundled tools are offered under their names; the shell's needs a command.
pub proof fn bundled_tools_have_their_shape(id: Seq<char>)
    ensures
        builtin::time_shape(id).id == id,
        builtin::time_shape(id).name == "time"@,
        builtin::bash_shape(id).id == id,
        builtin::bash_shape(id).name == "bash"@,
        json::field(builtin::bash_shape(id).parameters, "required"@) == Some(
            JsonV::Arr(seq![JsonV::Str("command"@)]),
        ),
        json::field(builtin::bash_shape(id).parameters, "type"@) == Some(JsonV::Str("object"@)),
        json::field(builtin::time_shape(id).parameters, "type"@) == Some(JsonV::Str("object"@)),
        json::field_of(
            json::field(builtin::bash_shape(id).parameters, "properties"@),
            "command"@,
        ) is Some,
        json::field_of(json::field(builtin::bash_shape(id).parameters, "properties"@), "cwd"@)
            is Some,
        json::field_of(json::field(builtin::bash_shape(id).parameters, "properties"@), "env"@)
            is Some,
{
    reveal_strlit("properties");
    reveal_strlit("required");
    reveal_strlit("type");
    assert("properties"@.len() == 10 && "required"@.len() == 8 && "type"@.len() == 4);
    reveal_strlit("command");
    reveal_strlit("cwd");
    reveal_strlit("env");
    assert("command"@.len() == 7 && "cwd"@.len() == 3 && "env"@.len() == 3);
    assert("cwd"@[0] != "env"@[0]);
    let m = builtin::bash_parameters()->Obj_0;
    json_laws::the_first_member_is_read(m, 0);
    json_laws::the_first_member_is_read(m, 1);
    json_laws::the_first_member_is_read(m, 2);
    let p = m[0].1->Obj_0;
    json_laws::the_first_member_is_read(p, 0);
    json_laws::the_first_member_is_read(p, 1);
    json_laws::the_first_member_is_read(p, 2);
    json_laws::the_first_member_is_read(builtin::time_parameters()->Obj_0, 0);
}

/// An agent that says nothing else has one instance, a window of forty blocks, a
/// context of 128000 tokens, and compacts by itself.
pub proof fn agents_have_their_defaults(name: Seq<char>, model: Seq<char>)
    ensures
        ({
            let d = registry::default_agent(name, model);
            &&& d.name == name && d.model == model
            &&& d.instances == 1 && d.max_history == 40 && d.context_window == 128_000
            &&& d.auto_compact && d.capabilities.len() == 0 && d.system_prompt.len() == 0
        }),
{
}

/// The home is the one given, else a directory of its own in the user's.
pub proof fn the_home_is_the_one_given(h: Seq<char>, u: Seq<char>, name: Seq<char>)
    requires
        u.len() > 0,
    ensures
        cli::home_of(Some(h), Some(u)) == h,
        cli::home_of(None, Some(u)) == cli::under(u, ".carson"@),
        cli::home_of(None, None) == ".carson"@,
        u.last() != '/' ==> cli::under(u, name) == u + "/"@ + name,
        u.last() == '/' ==> cli::under(u, name) == u + name,
{
}

/// What was built is fresh exactly where none of it is older than the newest input.
pub proof fn builds_are_fresh_until_an_input_is_newer(
    newest: u64,
    built: Seq<(Option<u64>, Option<u64>)>,
    a: u64,
    b: u64,
)
    ensures
        bundle::fresh(Some(newest), seq![]),
        !bundle::fresh(None, built),
        bundle::fresh(Some(newest), built.push((Some(a), Some(b)))) <==> bundle::fresh(
            Some(newest),
            built,
        ) && a >= newest && b >= newest,
        !bundle::fresh(Some(newest), built.push((None, Some(b)))),
        !bundle::fresh(Some(newest), built.push((Some(a), None))),
{
    let x = built.push((Some(a), Some(b)));
    let n = built.len() as int;
    assert(x[n] == (Some(a), Some(b)));
    assert forall|i: int| 0 <= i < n implies x[i] == built[i] by {}
    if bundle::fresh(Some(newest), x) {
        assert forall|i: int| 0 <= i < n implies (#[trigger] built[i]).0 is Some
            && built[i].1 is Some && built[i].0->0 >= newest && built[i].1->0 >= newest by {
            assert(x[i] == built[i]);
        }
    }
    if bundle::fresh(Some(newest), built) && a >= newest && b >= newest {
        assert forall|i: int| 0 <= i < x.len() implies (#[trigger] x[i]).0 is Some && x[i].1 is Some
            && x[i].0->0 >= newest && x[i].1->0 >= newest by {
            if i < n {
                assert(x[i] == built[i]);
            }
        }
    }
    let y = built.push((None, Some(b)));
    assert(y[n].0 is None);
    let z = built.push((Some(a), None));
    assert(z[n].1 is None);
}

} // verus!

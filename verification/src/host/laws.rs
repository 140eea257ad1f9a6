//! What holds of an agent's tools and of the pools that run it.
use crate::host::registry;
use crate::host::registry::AgentDefV;
use crate::host::tools;
use crate::host::tools::{DefinitionV, SpecV};
use crate::json;
use crate::shell::vars;
use crate::text;
use crate::text::Sep;
use vstd::prelude::*;

verus! {

/// The tools of a name among those an agent has are exactly those that have it, in
/// their order.
pub proof fn candidates_are_all_of_that_name(
    ids: Seq<Seq<char>>,
    specs: Seq<SpecV>,
    name: Seq<char>,
)
    ensures
        tools::candidates(ids, specs, name) == ids.filter(
            |id: Seq<char>| tools::named(specs, id, name),
        ),
    decreases ids.len(),
{
    reveal(Seq::filter);
    if ids.len() > 0 {
        candidates_are_all_of_that_name(ids.drop_last(), specs, name);
    }
}

/// A name resolves to a tool exactly where one of the agent's tools, and no other, has
/// that name.
pub proof fn names_resolve_to_the_only_tool(
    ids: Seq<Seq<char>>,
    specs: Seq<SpecV>,
    name: Seq<char>,
    k: int,
)
    requires
        0 <= k < ids.len(),
        tools::named(specs, ids[k], name),
        forall|i: int| 0 <= i < ids.len() && i != k ==> !tools::named(
            specs,
            #[trigger] ids[i],
            name,
        ),
    ensures
        tools::resolved(ids, specs, name) == Some(ids[k]),
{
    lemma_only(ids, specs, name, k);
}

proof fn lemma_none(ids: Seq<Seq<char>>, specs: Seq<SpecV>, name: Seq<char>)
    requires
        forall|i: int| 0 <= i < ids.len() ==> !tools::named(specs, #[trigger] ids[i], name),
    ensures
        tools::candidates(ids, specs, name).len() == 0,
    decreases ids.len(),
{
    if ids.len() > 0 {
        let front = ids.drop_last();
        assert forall|i: int| 0 <= i < front.len() implies !tools::named(
            specs,
            #[trigger] front[i],
            name,
        ) by {
            assert(front[i] == ids[i]);
        }
        assert(!tools::named(specs, ids[ids.len() - 1], name));
        lemma_none(front, specs, name);
    }
}

proof fn lemma_only(ids: Seq<Seq<char>>, specs: Seq<SpecV>, name: Seq<char>, k: int)
    requires
        0 <= k < ids.len(),
        tools::named(specs, ids[k], name),
        forall|i: int| 0 <= i < ids.len() && i != k ==> !tools::named(
            specs,
            #[trigger] ids[i],
            name,
        ),
    ensures
        tools::candidates(ids, specs, name) == seq![ids[k]],
    decreases ids.len(),
{
    let front = ids.drop_last();
    assert forall|i: int| 0 <= i < front.len() implies front[i] == ids[i] by {}
    if k == ids.len() - 1 {
        assert forall|i: int| 0 <= i < front.len() implies !tools::named(
            specs,
            #[trigger] front[i],
            name,
        ) by {
            assert(front[i] == ids[i]);
        }
        lemma_none(front, specs, name);
        assert(tools::candidates(ids, specs, name) =~= seq![ids[k]]);
    } else {
        assert(!tools::named(specs, ids[ids.len() - 1], name));
        assert forall|i: int| 0 <= i < front.len() && i != k implies !tools::named(
            specs,
            #[trigger] front[i],
            name,
        ) by {
            assert(front[i] == ids[i]);
        }
        lemma_only(front, specs, name, k);
    }
}

/// The tools that a model is offered are the agent's own that are there, each once
/// for each time the agent has it and in the agent's order, under their names and
/// with their descriptions.
pub proof fn the_agents_tools_are_offered(
    ids: Seq<Seq<char>>,
    specs: Seq<SpecV>,
    id: Seq<char>,
    k: int,
)
    ensures
        tools::listed(seq![], specs).len() == 0,
        (forall|i: int| 0 <= i < specs.len() ==> (#[trigger] specs[i]).id != id)
            ==> tools::listed(ids.push(id), specs) == tools::listed(ids, specs),
        0 <= k < specs.len() && specs[k].id == id && (forall|i: int|
            0 <= i < k ==> (#[trigger] specs[i]).id != id) ==> tools::listed(ids.push(id), specs)
            == tools::listed(ids, specs).push(
            DefinitionV {
                name: specs[k].name,
                description: specs[k].description,
                parameters_json: json::json_text(specs[k].parameters),
            },
        ),
{
    assert(ids.push(id).drop_last() =~= ids);
    lemma_spec_at(specs, id, 0, k);
}

proof fn lemma_spec_at(specs: Seq<SpecV>, id: Seq<char>, i: int, k: int)
    requires
        0 <= i,
    ensures
        (forall|j: int| 0 <= j < specs.len() ==> (#[trigger] specs[j]).id != id)
            ==> tools::spec_at(specs, id, i) == specs.len() || i > specs.len(),
        i <= k < specs.len() && specs[k].id == id && (forall|j: int|
            0 <= j < k ==> (#[trigger] specs[j]).id != id) ==> tools::spec_at(specs, id, i) == k,
    decreases specs.len() - i,
{
    if i < specs.len() {
        lemma_spec_at(specs, id, i + 1, k);
    }
}

/// The name of a directory made from an id keeps its letters, digits, hyphens and
/// underscores, in their order, and nothing else.
pub proof fn directory_names_keep_what_is_safe(s: Seq<char>)
    ensures
        tools::sanitized(s) == s.filter(
            |c: char|
                'a' <= c <= 'z' || 'A' <= c <= 'Z' || '0' <= c <= '9' || c == '-' || c == '_',
        ),
    decreases s.len(),
{
    reveal(Seq::filter);
    if s.len() > 0 {
        directory_names_keep_what_is_safe(s.drop_last());
    }
}

/// Output is cut at its limit, and only there.
pub proof fn long_output_is_cut(b: Seq<u8>)
    ensures
        tools::capped(b).len() <= tools::SHELL_MAX_OUTPUT,
        tools::capped(b).is_prefix_of(b),
        b.len() <= tools::SHELL_MAX_OUTPUT ==> tools::capped(b) == b,
        b.len() > tools::SHELL_MAX_OUTPUT ==> tools::capped(b).len() == tools::SHELL_MAX_OUTPUT,
{
}

/// A shell has a home, a user and a path unless the tool says otherwise.
pub proof fn shells_have_a_home()
    ensures
        vars::value_of(tools::default_env(), "HOME"@) == Some("/home/carson"@),
        vars::value_of(tools::default_env(), "USER"@) == Some("carson"@),
        vars::value_of(tools::default_env(), "LOGNAME"@) == Some("carson"@),
        vars::value_of(tools::default_env(), "PATH"@) == Some("/bin"@),
{
    reveal_strlit("HOME");
    reveal_strlit("USER");
    reveal_strlit("LOGNAME");
    reveal_strlit("PATH");
    assert("HOME"@.len() == 4 && "USER"@.len() == 4 && "LOGNAME"@.len() == 7 && "PATH"@.len() == 4);
    assert("HOME"@[0] != "USER"@[0]);
    assert("HOME"@[0] != "PATH"@[0]);
    assert("USER"@[0] != "PATH"@[0]);
    let a = vars::with(seq![], "HOME"@, "/home/carson"@);
    let b = vars::with(a, "USER"@, "carson"@);
    let c = vars::with(b, "LOGNAME"@, "carson"@);
    vars::set_then_get(seq![], "HOME"@, "/home/carson"@, "HOME"@);
    vars::set_then_get(a, "USER"@, "carson"@, "HOME"@);
    vars::set_then_get(b, "LOGNAME"@, "carson"@, "HOME"@);
    vars::set_then_get(b, "LOGNAME"@, "carson"@, "USER"@);
    vars::set_then_get(c, "PATH"@, "/bin"@, "HOME"@);
    vars::set_then_get(c, "PATH"@, "/bin"@, "USER"@);
    vars::set_then_get(c, "PATH"@, "/bin"@, "LOGNAME"@);
}

/// A guest's directory goes down by a name, stays at `.`, and goes up at `..`, though
/// not above the first one.
pub proof fn guest_directories_are_walked(parts: Seq<Seq<char>>, name: Seq<char>)
    ensures
        tools::walk(seq![]).len() == 0,
        name != "."@ && name != ".."@ ==> tools::walk(parts.push(name)) == tools::walk(
            parts,
        ).push(name),
        tools::walk(parts.push("."@)) == tools::walk(parts),
        tools::walk(parts.push(".."@)) == if tools::walk(parts).len() > 1 {
            tools::walk(parts).drop_last()
        } else {
            tools::walk(parts)
        },
{
    reveal_strlit(".");
    reveal_strlit("..");
    assert("."@.len() == 1 && ".."@.len() == 2);
    assert(parts.push(name).drop_last() =~= parts);
    assert(parts.push("."@).drop_last() =~= parts);
    assert(parts.push(".."@).drop_last() =~= parts);
}

/// A guest's directory is written with a slash before each of its names.
pub proof fn guest_paths_name_every_directory(dirs: Seq<Seq<char>>, name: Seq<char>)
    ensures
        tools::guest_path(seq![]) == "/"@,
        tools::guest_path(seq![name]) == "/"@ + name,
        dirs.len() > 0 ==> tools::guest_path(dirs.push(name)) == tools::guest_path(dirs) + "/"@
            + name,
{
    assert(dirs.push(name).drop_last() =~= dirs);
    if dirs.len() > 0 {
        assert(tools::guest_path(dirs.push(name)) =~= tools::guest_path(dirs) + "/"@ + name);
    }
}

/// A pool has as many instances as its version asks for, and at least one.
pub proof fn pools_are_as_large_as_asked(d: AgentDefV)
    ensures
        registry::pool_size(d) >= 1,
        d.instances > 0 ==> registry::pool_size(d) == d.instances,
        d.instances == 0 ==> registry::pool_size(d) == 1,
{
}

} // verus!

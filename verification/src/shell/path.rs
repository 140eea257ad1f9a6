//! Paths as text. A sandbox has a root directory; a shell path never leads above it.
use crate::text;
use crate::text::Sep;
use vstd::prelude::*;

verus! {

broadcast use crate::text::views_push;

/// The names between the slashes of a path.
pub open spec fn names_of(p: Seq<char>) -> Seq<Seq<char>> {
    text::pieces(Sep::Slash, seq![], p)
}

/// One step down the path: `.` stays, `..` goes up but not above the top.
pub open spec fn descend(base: Seq<Seq<char>>, name: Seq<char>) -> Seq<Seq<char>> {
    if name == "."@ {
        base
    } else if name == ".."@ {
        if base.len() > 0 {
            base.drop_last()
        } else {
            base
        }
    } else {
        base.push(name)
    }
}

/// Where `names` lead from `base`, lexically.
pub open spec fn walk(base: Seq<Seq<char>>, names: Seq<Seq<char>>) -> Seq<Seq<char>>
    decreases names.len(),
{
    if names.len() == 0 {
        base
    } else {
        walk(descend(base, names[0]), names.skip(1))
    }
}

pub open spec fn is_absolute(p: Seq<char>) -> bool {
    p.len() > 0 && p[0] == '/'
}

/// The text of a path; the empty path is `/`.
pub open spec fn path_text(absolute: bool, names: Seq<Seq<char>>) -> Seq<char> {
    let body = text::joined(names, "/"@);
    if absolute || body.len() == 0 {
        "/"@ + body
    } else {
        body
    }
}

/// The place in the sandbox that a shell path names.
pub open spec fn shell_names(cwd: Seq<char>, p: Seq<char>) -> Seq<Seq<char>> {
    walk(
        if is_absolute(p) {
            seq![]
        } else {
            walk(seq![], names_of(cwd))
        },
        names_of(p),
    )
}

pub open spec fn root_names(root: Seq<char>) -> Seq<Seq<char>> {
    walk(seq![], names_of(root))
}

/// A shell path (relative to `cwd` or absolute) as a filesystem path under `root`.
pub open spec fn resolved(root: Seq<char>, cwd: Seq<char>, p: Seq<char>) -> Seq<char> {
    path_text(is_absolute(root), root_names(root) + shell_names(cwd, p))
}

/// The names of a path without `.`.
pub open spec fn components(p: Seq<char>) -> Seq<Seq<char>> {
    drop_dots(names_of(p))
}

pub open spec fn drop_dots(names: Seq<Seq<char>>) -> Seq<Seq<char>>
    decreases names.len(),
{
    if names.len() == 0 {
        names
    } else if names.last() == "."@ {
        drop_dots(names.drop_last())
    } else {
        drop_dots(names.drop_last()).push(names.last())
    }
}

pub open spec fn starts_with(c: Seq<Seq<char>>, r: Seq<Seq<char>>) -> bool {
    r.len() <= c.len() && c.take(r.len() as int) == r
}

/// What a path is relative to `root`, as the root is written or, as resolved
/// paths have it, cleaned; empty for the root itself and for paths that are not
/// under it.
pub open spec fn relative(root: Seq<char>, path: Seq<char>) -> Seq<char> {
    let c = components(path);
    let written = components(root);
    let clean = root_names(root);
    if is_absolute(root) != is_absolute(path) {
        seq![]
    } else if starts_with(c, written) {
        text::joined(c.skip(written.len() as int), "/"@)
    } else if starts_with(c, clean) {
        text::joined(c.skip(clean.len() as int), "/"@)
    } else {
        seq![]
    }
}

/// The last name of a path, where it is no `..`; else the path itself.
pub open spec fn base_name(p: Seq<char>) -> Seq<char> {
    let c = components(p);
    if c.len() > 0 && c.last() != ".."@ {
        c.last()
    } else {
        p
    }
}

// ---- laws ----

/// A name as it stands in a cleaned path.
pub open spec fn is_step(n: Seq<char>) -> bool {
    &&& n.len() > 0
    &&& n != "."@
    &&& n != ".."@
    &&& forall|i: int| 0 <= i < n.len() ==> n[i] != '/'
}

pub open spec fn all_steps(names: Seq<Seq<char>>) -> bool {
    forall|i: int| 0 <= i < names.len() ==> is_step(#[trigger] names[i])
}

/// A piece of a path: not empty and without a slash.
pub open spec fn is_piece(n: Seq<char>) -> bool {
    n.len() > 0 && forall|i: int| 0 <= i < n.len() ==> n[i] != '/'
}

proof fn lemma_pieces_shape(cur: Seq<char>, s: Seq<char>)
    requires
        forall|i: int| 0 <= i < cur.len() ==> cur[i] != '/',
    ensures
        forall|k: int|
            0 <= k < text::pieces(Sep::Slash, cur, s).len() ==> is_piece(
                #[trigger] text::pieces(Sep::Slash, cur, s)[k],
            ),
    decreases s.len(),
{
    if s.len() > 0 {
        if s[0] == '/' {
            lemma_pieces_shape(seq![], s.skip(1));
            let head = text::closed_piece(cur);
            let tail = text::pieces(Sep::Slash, seq![], s.skip(1));
            assert forall|k: int| 0 <= k < (head + tail).len() implies is_piece(
                #[trigger] (head + tail)[k],
            ) by {
                if k >= head.len() {
                    assert((head + tail)[k] == tail[k - head.len()]);
                } else {
                    assert((head + tail)[k] == cur);
                }
            }
            assert(text::pieces(Sep::Slash, cur, s) == head + tail);
        } else {
            lemma_pieces_shape(cur.push(s[0]), s.skip(1));
            let rest = text::pieces(Sep::Slash, cur.push(s[0]), s.skip(1));
            assert(forall|k: int| 0 <= k < rest.len() ==> is_piece(#[trigger] rest[k]));
            assert(text::pieces(Sep::Slash, cur, s) == rest);
        }
    } else {
        let rest = text::closed_piece(cur);
        assert(forall|k: int| 0 <= k < rest.len() ==> is_piece(#[trigger] rest[k]));
        assert(text::pieces(Sep::Slash, cur, s) == rest);
    }
}

proof fn lemma_walk_steps(base: Seq<Seq<char>>, names: Seq<Seq<char>>)
    requires
        all_steps(base),
        forall|k: int| 0 <= k < names.len() ==> is_piece(#[trigger] names[k]),
    ensures
        all_steps(walk(base, names)),
    decreases names.len(),
{
    if names.len() > 0 {
        let d = descend(base, names[0]);
        assert(is_piece(names[0]));
        assert forall|k: int| 0 <= k < names.skip(1).len() implies is_piece(
            #[trigger] names.skip(1)[k],
        ) by {
            assert(names.skip(1)[k] == names[k + 1]);
        }
        lemma_walk_steps(d, names.skip(1));
    }
}

/// A cleaned path has neither `.` nor `..` left, nor an empty name.
pub proof fn shell_path_is_clean(cwd: Seq<char>, p: Seq<char>)
    ensures
        all_steps(shell_names(cwd, p)),
{
    lemma_pieces_shape(seq![], cwd);
    lemma_pieces_shape(seq![], p);
    lemma_walk_steps(seq![], names_of(cwd));
    lemma_walk_steps(
        if is_absolute(p) {
            seq![]
        } else {
            walk(seq![], names_of(cwd))
        },
        names_of(p),
    );
}

proof fn lemma_root_is_clean(root: Seq<char>)
    ensures
        all_steps(root_names(root)),
{
    lemma_pieces_shape(seq![], root);
    lemma_walk_steps(seq![], names_of(root));
}

proof fn lemma_pieces_name(cur: Seq<char>, n: Seq<char>, rest: Seq<char>)
    requires
        forall|i: int| 0 <= i < n.len() ==> n[i] != '/',
    ensures
        text::pieces(Sep::Slash, cur, n + rest) == text::pieces(Sep::Slash, cur + n, rest),
    decreases n.len(),
{
    if n.len() == 0 {
        assert(n + rest =~= rest);
        assert(cur + n =~= cur);
    } else {
        assert((n + rest).skip(1) =~= n.skip(1) + rest);
        assert(cur.push(n[0]) + n.skip(1) =~= cur + n);
        lemma_pieces_name(cur.push(n[0]), n.skip(1), rest);
    }
}

/// Appending one more name behind a slash.
proof fn lemma_pieces_append(cur: Seq<char>, s: Seq<char>, n: Seq<char>)
    requires
        n.len() > 0,
        forall|i: int| 0 <= i < n.len() ==> n[i] != '/',
    ensures
        text::pieces(Sep::Slash, cur, s + seq!['/'] + n) == text::pieces(Sep::Slash, cur, s).push(
            n,
        ),
    decreases s.len(),
{
    let whole = s + seq!['/'] + n;
    if s.len() == 0 {
        assert(whole.skip(1) =~= n);
        assert(n + Seq::<char>::empty() =~= n);
        lemma_pieces_name(seq![], n, seq![]);
        assert(seq![] + n =~= n);
        assert(text::pieces(Sep::Slash, seq![], n) =~= seq![n]);
        assert(text::closed_piece(cur) + seq![n] =~= text::closed_piece(cur).push(n));
    } else {
        assert(whole.skip(1) =~= s.skip(1) + seq!['/'] + n);
        if s[0] == '/' {
            lemma_pieces_append(seq![], s.skip(1), n);
            let tail = text::pieces(Sep::Slash, seq![], s.skip(1));
            assert(text::closed_piece(cur) + tail.push(n) =~= (text::closed_piece(cur) + tail).push(
                n,
            ));
        } else {
            lemma_pieces_append(cur.push(s[0]), s.skip(1), n);
        }
    }
}

/// The names of a joined path are the names that were joined.
proof fn lemma_names_of_joined(names: Seq<Seq<char>>)
    requires
        all_steps(names),
    ensures
        names_of(text::joined(names, "/"@)) == names,
    decreases names.len(),
{
    reveal_strlit("/");
    assert("/"@ =~= seq!['/']);
    if names.len() == 0 {
        assert(names_of(text::joined(names, "/"@)) =~= names);
    } else {
        let n = names.last();
        assert(is_step(names[names.len() - 1]));
        if names.len() == 1 {
            assert(n + Seq::<char>::empty() =~= n);
            lemma_pieces_name(seq![], n, seq![]);
            assert(seq![] + n =~= n);
            assert(names_of(n) =~= names);
        } else {
            let front = names.drop_last();
            assert forall|i: int| 0 <= i < front.len() implies is_step(#[trigger] front[i]) by {
                assert(front[i] == names[i]);
            }
            lemma_names_of_joined(front);
            lemma_pieces_append(seq![], text::joined(front, "/"@), n);
            assert(front.push(n) =~= names);
        }
    }
}

proof fn lemma_names_of_path(absolute: bool, names: Seq<Seq<char>>)
    requires
        all_steps(names),
    ensures
        names_of(path_text(absolute, names)) == names,
        is_absolute(path_text(absolute, names)) == (absolute || names.len() == 0),
{
    reveal_strlit("/");
    lemma_names_of_joined(names);
    let body = text::joined(names, "/"@);
    let whole = "/"@ + body;
    assert(whole.skip(1) =~= body);
    assert(text::pieces(Sep::Slash, seq![], whole) =~= text::pieces(Sep::Slash, seq![], body));
    if names.len() > 0 {
        lemma_joined_head(names);
    }
}

proof fn lemma_joined_head(names: Seq<Seq<char>>)
    requires
        all_steps(names),
        names.len() > 0,
    ensures
        text::joined(names, "/"@).len() > 0,
        text::joined(names, "/"@)[0] != '/',
    decreases names.len(),
{
    assert(is_step(names[0]));
    if names.len() > 1 {
        let front = names.drop_last();
        assert forall|i: int| 0 <= i < front.len() implies is_step(#[trigger] front[i]) by {
            assert(front[i] == names[i]);
        }
        lemma_joined_head(front);
    }
}

proof fn lemma_no_dots(names: Seq<Seq<char>>)
    requires
        all_steps(names),
    ensures
        drop_dots(names) == names,
    decreases names.len(),
{
    if names.len() > 0 {
        let front = names.drop_last();
        assert(is_step(names[names.len() - 1]));
        assert forall|i: int| 0 <= i < front.len() implies is_step(#[trigger] front[i]) by {
            assert(front[i] == names[i]);
        }
        lemma_no_dots(front);
        assert(front.push(names.last()) =~= names);
    }
}

/// Every shell path resolves to a path under the root: its names start with the
/// names of the root, whatever `..` the path holds.
pub proof fn resolve_stays_under_root(root: Seq<char>, cwd: Seq<char>, p: Seq<char>)
    ensures
        components(resolved(root, cwd, p)) == root_names(root) + shell_names(cwd, p),
{
    shell_path_is_clean(cwd, p);
    lemma_root_is_clean(root);
    let all = root_names(root) + shell_names(cwd, p);
    assert(all_steps(all));
    lemma_names_of_path(is_absolute(root), all);
    lemma_no_dots(all);
}

proof fn lemma_drop_dots_first(names: Seq<Seq<char>>)
    requires
        names.len() > 0,
    ensures
        drop_dots(names) == (if names[0] == "."@ {
            seq![]
        } else {
            seq![names[0]]
        }) + drop_dots(names.skip(1)),
    decreases names.len(),
{
    if names.len() == 1 {
        assert(names.drop_last() =~= seq![]);
        assert(names.skip(1) =~= seq![]);
        assert(drop_dots(names.drop_last()) =~= seq![]);
        assert(drop_dots(names.skip(1)) =~= seq![]);
    } else {
        let front = names.drop_last();
        lemma_drop_dots_first(front);
        assert(front.skip(1) =~= names.skip(1).drop_last());
        assert(front[0] == names[0]);
        assert(names.skip(1).last() == names.last());
    }
}

/// A path without `..` is clean once its dots are dropped.
proof fn lemma_walk_down(base: Seq<Seq<char>>, names: Seq<Seq<char>>)
    requires
        forall|k: int| 0 <= k < names.len() ==> #[trigger] names[k] != ".."@,
    ensures
        walk(base, names) == base + drop_dots(names),
    decreases names.len(),
{
    reveal_strlit(".");
    reveal_strlit("..");
    if names.len() == 0 {
        assert(base + drop_dots(names) =~= base);
    } else {
        let d = descend(base, names[0]);
        assert forall|k: int| 0 <= k < names.skip(1).len() implies #[trigger] names.skip(1)[k]
            != ".."@ by {
            assert(names.skip(1)[k] == names[k + 1]);
        }
        lemma_walk_down(d, names.skip(1));
        lemma_drop_dots_first(names);
        assert(names[0] != ".."@);
        assert(walk(base, names) =~= base + drop_dots(names));
    }
}

/// What `..` there is stays when the dots are dropped.
proof fn lemma_keeps_up(names: Seq<Seq<char>>, k: int)
    requires
        0 <= k < names.len(),
        names[k] == ".."@,
    ensures
        drop_dots(names).contains(".."@),
    decreases names.len(),
{
    reveal_strlit(".");
    reveal_strlit("..");
    let front = drop_dots(names.drop_last());
    if k < names.len() - 1 {
        lemma_keeps_up(names.drop_last(), k);
        let j = choose|j: int| 0 <= j < front.len() && front[j] == ".."@;
        assert(drop_dots(names)[j] == ".."@);
    } else {
        assert(".."@.len() == 2 && "."@.len() == 1);
        assert(drop_dots(names)[front.len() as int] == ".."@);
    }
}

/// A root as it is written leads a clean path only where it is clean itself.
proof fn lemma_written_root(root: Seq<char>, c: Seq<Seq<char>>)
    requires
        all_steps(c),
        starts_with(c, components(root)),
    ensures
        components(root) == root_names(root),
{
    let names = names_of(root);
    let w = components(root);
    if exists|k: int| 0 <= k < names.len() && names[k] == ".."@ {
        let k = choose|k: int| 0 <= k < names.len() && names[k] == ".."@;
        lemma_keeps_up(names, k);
        let j = choose|j: int| 0 <= j < w.len() && w[j] == ".."@;
        assert(c.take(w.len() as int)[j] == c[j]);
        assert(is_step(c[j]));
    } else {
        lemma_walk_down(seq![], names);
        assert(Seq::<Seq<char>>::empty() + w =~= w);
    }
}

/// A path that continues the root as it is written comes back as what it adds.
pub proof fn relative_undoes_join(root: Seq<char>, path: Seq<char>, rel: Seq<Seq<char>>)
    requires
        is_absolute(path) == is_absolute(root),
        components(path) == components(root) + rel,
    ensures
        relative(root, path) == text::joined(rel, "/"@),
{
    let w = components(root);
    assert((w + rel).take(w.len() as int) =~= w);
    assert((w + rel).skip(w.len() as int) =~= rel);
}

/// Resolving a shell path and going back gives the cleaned shell path.
pub proof fn relative_undoes_resolve(root: Seq<char>, cwd: Seq<char>, p: Seq<char>)
    ensures
        relative(root, resolved(root, cwd, p)) == text::joined(shell_names(cwd, p), "/"@),
{
    resolve_stays_under_root(root, cwd, p);
    shell_path_is_clean(cwd, p);
    lemma_root_is_clean(root);
    let r = root_names(root);
    let s = shell_names(cwd, p);
    lemma_names_of_path(is_absolute(root), r + s);
    assert((r + s).take(r.len() as int) =~= r);
    assert((r + s).skip(r.len() as int) =~= s);
    assert(all_steps(r + s));
    if starts_with(r + s, components(root)) {
        lemma_written_root(root, r + s);
    }
}

// ---- operations ----

/// Follow `names` from `base`.
fn follow(base: Vec<String>, names: &Vec<String>) -> (r: Vec<String>)
    ensures
        text::texts(r@) == walk(text::texts(base@), text::texts(names@)),
{
    let ghost whole = walk(text::texts(base@), text::texts(names@));
    let mut out = base;
    let mut i: usize = 0;
    assert(text::texts(names@).skip(0) =~= text::texts(names@));
    while i < names.len()
        invariant
            i <= names@.len(),
            whole == walk(text::texts(out@), text::texts(names@).skip(i as int)),
        decreases names@.len() - i,
    {
        let n = &names[i];
        let ghost before = text::texts(out@);
        assert(text::texts(names@).skip(i as int)[0] == n@);
        assert(text::texts(names@).skip(i as int).skip(1) =~= text::texts(names@).skip(i + 1));
        if text::same(n.as_str(), ".") {
        } else if text::same(n.as_str(), "..") {
            out.pop();
            assert(text::texts(out@) =~= descend(before, n@));
        } else {
            out.push(n.clone());
        }
        assert(text::texts(out@) == descend(before, n@));
        i = i + 1;
    }
    out
}

pub fn absolute(p: &str) -> (r: bool)
    ensures
        r == is_absolute(p@),
{
    !p.is_empty() && p.get_char(0) == '/'
}

/// Resolve a shell path (relative to cwd or absolute) to a filesystem path
/// under the sandbox root.
pub fn resolve(root: &str, cwd: &str, p: &str) -> (r: String)
    ensures
        r@ == resolved(root@, cwd@, p@),
{
    let none: Vec<String> = Vec::new();
    assert(text::texts(none@) =~= seq![]);
    let start = if absolute(p) {
        none
    } else {
        follow(none, &text::split_pieces(Sep::Slash, cwd))
    };
    let mut shell = follow(start, &text::split_pieces(Sep::Slash, p));
    let top: Vec<String> = Vec::new();
    assert(text::texts(top@) =~= seq![]);
    let mut all = follow(top, &text::split_pieces(Sep::Slash, root));
    let ghost r0 = text::texts(all@);
    let ghost s0 = text::texts(shell@);
    all.append(&mut shell);
    assert(text::texts(all@) =~= r0 + s0);
    assert(text::texts(all@).skip(0) =~= text::texts(all@));
    let body = text::join(&all, 0, "/");
    if absolute(root) || body.as_str().is_empty() {
        text::owned("/").concat(body.as_str())
    } else {
        body
    }
}

fn without_dots(names: Vec<String>) -> (r: Vec<String>)
    ensures
        text::texts(r@) == drop_dots(text::texts(names@)),
{
    let mut out: Vec<String> = Vec::new();
    let mut i: usize = 0;
    let ghost all = text::texts(names@);
    assert(text::texts(out@) =~= drop_dots(all.take(0)));
    while i < names.len()
        invariant
            i <= names@.len(),
            all == text::texts(names@),
            text::texts(out@) == drop_dots(all.take(i as int)),
        decreases names@.len() - i,
    {
        assert(all.take(i as int + 1).drop_last() =~= all.take(i as int));
        assert(all.take(i as int + 1).last() == names@[i as int]@);
        if !text::same(names[i].as_str(), ".") {
            out.push(names[i].clone());
        }
        i = i + 1;
    }
    assert(all.take(i as int) =~= all);
    out
}

fn leads(r: &Vec<String>, c: &Vec<String>) -> (b: bool)
    ensures
        b == starts_with(text::texts(c@), text::texts(r@)),
{
    let ghost rv = text::texts(r@);
    let ghost cv = text::texts(c@);
    if r.len() > c.len() {
        return false;
    }
    let mut i: usize = 0;
    while i < r.len()
        invariant
            i <= r@.len() <= c@.len(),
            rv == text::texts(r@),
            cv == text::texts(c@),
            forall|j: int| 0 <= j < i ==> rv[j] == cv[j],
        decreases r@.len() - i,
    {
        assert(rv[i as int] == r@[i as int]@ && cv[i as int] == c@[i as int]@);
        if !text::same(r[i].as_str(), c[i].as_str()) {
            assert(cv.take(rv.len() as int)[i as int] != rv[i as int]);
            return false;
        }
        i = i + 1;
    }
    assert(cv.take(rv.len() as int) =~= rv);
    true
}

/// Convert a resolved path back to a shell-relative cwd (`""` = root).
pub fn relative_to(root: &str, path: &str) -> (r: String)
    ensures
        r@ == relative(root@, path@),
{
    if absolute(root) == absolute(path) {
        let c = without_dots(text::split_pieces(Sep::Slash, path));
        let written = without_dots(text::split_pieces(Sep::Slash, root));
        if leads(&written, &c) {
            return text::join(&c, written.len(), "/");
        }
        let top: Vec<String> = Vec::new();
        assert(text::texts(top@) =~= seq![]);
        let clean = follow(top, &text::split_pieces(Sep::Slash, root));
        if leads(&clean, &c) {
            return text::join(&c, clean.len(), "/");
        }
    }
    let e = String::new();
    assert(e@ =~= seq![]);
    e
}

/// The name under which a command given by path is known.
pub fn file_name(p: &str) -> (r: String)
    ensures
        r@ == base_name(p@),
{
    let c = without_dots(text::split_pieces(Sep::Slash, p));
    if c.len() > 0 {
        assert(text::texts(c@).last() == c@.last()@);
        let last = &c[c.len() - 1];
        if !text::same(last.as_str(), "..") {
            return last.clone();
        }
    }
    text::owned(p)
}

} // verus!

//! Answers as HTML.
use crate::text;
use vstd::prelude::*;

verus! {

broadcast use crate::text::views_push;

/// What stands before a link's target.
pub open spec fn opening() -> Seq<char> {
    "href=\""@
}

/// The first position from `i` on at which `p` stands, or the length.
pub open spec fn place_of(s: Seq<char>, p: Seq<char>, i: int) -> int
    decreases s.len() - i,
{
    if i < 0 || i >= s.len() {
        s.len() as int
    } else if text::occurs_at(s, p, i) {
        i
    } else {
        place_of(s, p, i + 1)
    }
}

pub proof fn lemma_place_of(s: Seq<char>, p: Seq<char>, i: int)
    requires
        0 <= i <= s.len(),
    ensures
        i <= place_of(s, p, i) <= s.len(),
        place_of(s, p, i) < s.len() ==> text::occurs_at(s, p, place_of(s, p, i)),
    decreases s.len() - i,
{
    if i < s.len() && !text::occurs_at(s, p, i) {
        lemma_place_of(s, p, i + 1);
    }
}

/// A target that may stay: one on the web.
pub open spec fn is_web(url: Seq<char>) -> bool {
    text::starts_with(url, "http://"@) || text::starts_with(url, "https://"@)
}

pub open spec fn safe_target(url: Seq<char>) -> Seq<char> {
    if is_web(url) {
        url
    } else {
        "#"@
    }
}

/// The text after its first link target starts, where it has one.
pub open spec fn target_start(s: Seq<char>) -> int {
    place_of(s, opening(), 0) + opening().len()
}

/// Every link target is closed by a quote.
pub open spec fn closed_targets(s: Seq<char>) -> bool
    decreases s.len(),
{
    if place_of(s, opening(), 0) >= s.len() {
        true
    } else {
        let from = target_start(s);
        let end = text::index_from(s, '"', from);
        if 0 <= end < s.len() {
            closed_targets(s.skip(end + 1))
        } else {
            false
        }
    }
}

/// The text with every link target that leads elsewhere than to the web
/// replaced by `#`.
pub open spec fn sanitized(s: Seq<char>) -> Seq<char>
    decreases s.len(),
{
    if place_of(s, opening(), 0) >= s.len() {
        s
    } else {
        let from = target_start(s);
        let end = text::index_from(s, '"', from);
        if 0 <= end < s.len() {
            s.take(from) + safe_target(s.subrange(from, end)) + "\""@ + sanitized(s.skip(end + 1))
        } else {
            s
        }
    }
}

fn find_opening(v: &[char], open: &[char], from: usize) -> (r: usize)
    requires
        from <= v@.len(),
    ensures
        r == place_of(v@, open@, from as int),
        from <= r <= v@.len(),
{
    proof {
        lemma_place_of(v@, open@, from as int);
    }
    let mut i: usize = from;
    while i < v.len()
        invariant
            from <= i <= v@.len(),
            place_of(v@, open@, from as int) == place_of(v@, open@, i as int),
        decreases v@.len() - i,
    {
        if text::stands_at(v, open, i) {
            return i;
        }
        i = i + 1;
    }
    i
}

proof fn lemma_place_skip(s: Seq<char>, p: Seq<char>, k: int, i: int)
    requires
        0 <= k <= i <= s.len(),
    ensures
        place_of(s, p, i) == k + place_of(s.skip(k), p, i - k),
    decreases s.len() - i,
{
    if i < s.len() {
        assert(text::occurs_at(s, p, i) == text::occurs_at(s.skip(k), p, i - k)) by {
            if i + p.len() <= s.len() {
                assert(s.subrange(i, i + p.len()) =~= s.skip(k).subrange(i - k, i - k + p.len()));
            }
        }
        lemma_place_skip(s, p, k, i + 1);
    }
}

proof fn lemma_index_skip(s: Seq<char>, c: char, k: int, i: int)
    requires
        0 <= k <= i <= s.len(),
    ensures
        text::index_from(s, c, i) == k + text::index_from(s.skip(k), c, i - k),
    decreases s.len() - i,
{
    if i < s.len() {
        lemma_index_skip(s, c, k, i + 1);
    }
}

/// Replaces link targets that lead elsewhere than to the web by `#`; all else
/// stays. A target that nothing closes has no text to go on behind it.
pub fn sanitize_hrefs(html: &str) -> (r: String)
    requires
        closed_targets(html@),
    ensures
        r@ == sanitized(html@),
{
    let v = text::chars_of(html);
    let open = text::chars_of("href=\"");
    let ghost s = html@;
    let mut out = String::new();
    let mut at: usize = 0;
    proof {
        reveal_strlit("href=\"");
        assert(s.skip(0) =~= s);
        assert(out@ + sanitized(s) =~= sanitized(s));
    }
    loop
        invariant
            at <= s.len(),
            v@ == s,
            open@ == opening(),
            opening().len() == 6,
            closed_targets(s.skip(at as int)),
            out@ + sanitized(s.skip(at as int)) == sanitized(s),
        ensures
            at <= s.len(),
            sanitized(s) == out@ + s.skip(at as int),
        decreases s.len() - at,
    {
        let ghost rest = s.skip(at as int);
        let start: usize = find_opening(&v, &open, at);
        proof {
            lemma_place_skip(s, opening(), at as int, at as int);
            lemma_place_of(rest, opening(), 0);
        }
        if start >= v.len() {
            break;
        }
        let from: usize = start + 6;
        let end: usize = text::find_from(&v, '"', from);
        proof {
            lemma_index_skip(s, '"', at as int, from as int);
            text::lemma_index_from(s, '"', from as int);
            assert(target_start(rest) == from - at);
            assert(text::index_from(rest, '"', from - at) == end - at);
            assert(rest.skip(end - at + 1) =~= s.skip(end + 1));
            assert(rest.take(from - at) =~= s.subrange(at as int, from as int));
            assert(rest.subrange(from - at, end - at) =~= s.subrange(from as int, end as int));
        }
        let ghost was = out@;
        let head = text::string_of(&v, at, from);
        let url = text::string_of(&v, from, end);
        out.append(head.as_str());
        if text::begins(url.as_str(), "http://") || text::begins(url.as_str(), "https://") {
            out.append(url.as_str());
        } else {
            out.append("#");
        }
        out.append("\"");
        proof {
            let mid = rest.take(from - at) + safe_target(rest.subrange(from - at, end - at))
                + "\""@;
            assert(out@ =~= was + mid);
            assert(was + (mid + sanitized(s.skip(end + 1))) =~= (was + mid) + sanitized(
                s.skip(end + 1),
            ));
        }
        at = end + 1;
    }
    let tail = text::string_of(&v, at, v.len());
    assert(tail@ =~= s.skip(at as int));
    out.append(tail.as_str());
    out
}

/// Whether every link target is closed.
fn targets_closed(html: &str) -> (r: bool)
    ensures
        r == closed_targets(html@),
{
    let v = text::chars_of(html);
    let open = text::chars_of("href=\"");
    let ghost s = html@;
    let mut at: usize = 0;
    proof {
        reveal_strlit("href=\"");
        assert(s.skip(0) =~= s);
    }
    loop
        invariant
            at <= s.len(),
            v@ == s,
            s == html@,
            open@ == opening(),
            opening().len() == 6,
            closed_targets(s.skip(at as int)) == closed_targets(s),
        decreases s.len() - at,
    {
        let ghost rest = s.skip(at as int);
        let start: usize = find_opening(&v, &open, at);
        proof {
            lemma_place_skip(s, opening(), at as int, at as int);
            lemma_place_of(rest, opening(), 0);
        }
        if start >= v.len() {
            return true;
        }
        let from: usize = start + 6;
        let end: usize = text::find_from(&v, '"', from);
        proof {
            lemma_index_skip(s, '"', at as int, from as int);
            text::lemma_index_from(s, '"', from as int);
            assert(target_start(rest) == from - at);
            assert(text::index_from(rest, '"', from - at) == end - at);
        }
        if end >= v.len() {
            return false;
        }
        assert(rest.skip(end - at + 1) =~= s.skip(end + 1));
        at = end + 1;
    }
}

/// The HTML that `pulldown_cmark` writes for a text, with tables, struck text and
/// task lists understood or not.
pub uninterp spec fn html_of(
    md: Seq<char>,
    tables: bool,
    strikethrough: bool,
    tasklists: bool,
) -> Seq<char>;

/// `pulldown_cmark::html::push_html` over `Parser::new_ext`: the HTML of a text
/// in Markdown, with the given extensions on.
#[verifier::external_body]
fn markdown_html(md: &str, tables: bool, strikethrough: bool, tasklists: bool) -> (r: String)
    ensures
        r@ == html_of(md@, tables, strikethrough, tasklists),
{
    let mut opts = pulldown_cmark::Options::empty();
    opts.set(pulldown_cmark::Options::ENABLE_TABLES, tables);
    opts.set(pulldown_cmark::Options::ENABLE_STRIKETHROUGH, strikethrough);
    opts.set(pulldown_cmark::Options::ENABLE_TASKLISTS, tasklists);
    let mut html = String::new();
    pulldown_cmark::html::push_html(&mut html, pulldown_cmark::Parser::new_ext(md, opts));
    html
}

/// An answer as HTML with safe links; none where the HTML leaves a link open.
pub fn render_md(md: &str) -> (r: Option<String>)
    ensures
        text::opt_text(r) == if closed_targets(html_of(md@, true, true, true)) {
            Some(sanitized(html_of(md@, true, true, true)))
        } else {
            None
        },
{
    let html = markdown_html(md, true, true, true);
    if targets_closed(html.as_str()) {
        Some(sanitize_hrefs(html.as_str()))
    } else {
        None
    }
}

// ---- laws ----

/// A text without links stays as it is.
pub proof fn text_without_links_stays(s: Seq<char>)
    requires
        place_of(s, opening(), 0) >= s.len(),
    ensures
        sanitized(s) == s,
{
}

/// A target on the web is never changed, and any other becomes `#`.
pub proof fn only_web_targets_stay(before: Seq<char>, url: Seq<char>, after: Seq<char>)
    requires
        place_of(before + opening() + url + "\""@ + after, opening(), 0) == before.len(),
        forall|i: int| 0 <= i < url.len() ==> #[trigger] url[i] != '"',
    ensures
        sanitized(before + opening() + url + "\""@ + after) == before + opening() + (if is_web(url) {
            url
        } else {
            "#"@
        }) + "\""@ + sanitized(after),
{
    reveal_strlit("href=\"");
    reveal_strlit("\"");
    let s = before + opening() + url + "\""@ + after;
    let from = before.len() as int + 6;
    let end = from + url.len();
    assert(s[end] == '"');
    assert forall|j: int| from <= j < end implies s[j] != '"' by {
        assert(s[j] == url[j - from]);
    }
    text::lemma_index_from(s, '"', from as int);
    assert(text::index_from(s, '"', from as int) == end);
    assert(s.skip(end + 1) =~= after);
    assert(s.take(from as int) =~= before + opening());
    assert(s.subrange(from, end) =~= url);
}

} // verus!

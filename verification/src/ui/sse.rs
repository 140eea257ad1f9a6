//! Reading a stream of server-sent events.
use crate::host::hub;
use crate::text;
use vstd::prelude::*;

verus! {

broadcast use crate::text::views_push;

/// One event of a stream.
#[derive(Debug, PartialEq)]
pub struct SseEvent {
    pub event: String,
    pub data: String,
}

#[verifier::ext_equal]
pub struct SseEventV {
    pub event: Seq<char>,
    pub data: Seq<char>,
}

impl View for SseEvent {
    type V = SseEventV;

    open spec fn view(&self) -> SseEventV {
        SseEventV { event: self.event@, data: self.data@ }
    }
}

pub open spec fn event_views(v: Seq<SseEvent>) -> Seq<SseEventV> {
    v.map_values(|e: SseEvent| e@)
}

/// A line without the carriage return that stood before its line feed.
pub open spec fn uncarried(s: Seq<char>) -> Seq<char> {
    if s.len() > 0 && s.last() == '\r' {
        s.drop_last()
    } else {
        s
    }
}

/// The lines of a text; what follows the last line feed is a line unless it is empty.
pub open spec fn lines(s: Seq<char>) -> Seq<Seq<char>>
    decreases s.len(),
{
    let n = text::index_from(s, '\n', 0);
    if s.len() == 0 {
        seq![]
    } else if n < 0 || n >= s.len() {
        seq![s]
    } else {
        seq![uncarried(s.take(n))] + lines(s.skip(n + 1))
    }
}

/// What a frame says once one more line of it is read. Several lines of data
/// are joined by line feeds.
pub open spec fn with_line(e: SseEventV, line: Seq<char>) -> SseEventV {
    match text::after_prefix(line, "event:"@) {
        Some(v) => SseEventV { event: text::trim(v), ..e },
        None => match text::after_prefix(line, "data:"@) {
            Some(v) => SseEventV {
                data: if e.data.len() == 0 {
                    text::trim(v)
                } else {
                    e.data.push('\n') + text::trim(v)
                },
                ..e
            },
            None => e,
        },
    }
}

pub open spec fn with_lines(e: SseEventV, v: Seq<Seq<char>>) -> SseEventV
    decreases v.len(),
{
    if v.len() == 0 {
        e
    } else {
        with_lines(with_line(e, v[0]), v.skip(1))
    }
}

pub open spec fn nothing() -> SseEventV {
    SseEventV { event: seq![], data: seq![] }
}

/// The event of a frame; one without data is none.
pub open spec fn frame_event(frame: Seq<char>) -> Option<SseEventV> {
    let e = with_lines(nothing(), lines(frame));
    if e.data.len() == 0 {
        None
    } else {
        Some(e)
    }
}

pub open spec fn opt_event(e: Option<SseEvent>) -> Option<SseEventV> {
    match e {
        Some(x) => Some(x@),
        None => None,
    }
}

fn read_line(e: &mut SseEvent, line: &str)
    ensures
        final(e)@ == with_line(old(e)@, line@),
{
    let ghost before = e@;
    match text::strip_prefix(line, "event:") {
        Some(v) => {
            e.event = text::trimmed(v.as_str());
        },
        None => match text::strip_prefix(line, "data:") {
            Some(v) => {
                let t = text::trimmed(v.as_str());
                if !e.data.as_str().is_empty() {
                    e.data.push('\n');
                }
                e.data.append(t.as_str());
                assert(e@ =~= with_line(before, line@));
            },
            None => {},
        },
    }
}

pub fn parse_frame(frame: &str) -> (r: Option<SseEvent>)
    ensures
        opt_event(r) == frame_event(frame@),
{
    let v = text::chars_of(frame);
    let n: usize = v.len();
    let mut e = SseEvent { event: String::new(), data: String::new() };
    assert(e@ =~= nothing());
    let mut i: usize = 0;
    assert(frame@.skip(0) =~= frame@);
    while i < n
        invariant
            v@ == frame@,
            n == v@.len(),
            i <= n,
            with_lines(nothing(), lines(frame@)) == with_lines(e@, lines(frame@.skip(i as int))),
        decreases n - i,
    {
        let ghost rest = frame@.skip(i as int);
        let at: usize = text::find_from(&v, '\n', i);
        proof {
            lemma_shifted(frame@, '\n', i as int);
            text::lemma_index_from(rest, '\n', 0);
        }
        if at < n {
            let mut to: usize = at;
            if to > i && v[to - 1] == '\r' {
                to = to - 1;
            }
            let line = text::string_of(&v, i, to);
            assert(line@ =~= uncarried(rest.take(at - i)));
            assert(rest.skip(at - i + 1) =~= frame@.skip(at as int + 1));
            let ghost all = lines(rest);
            assert(all =~= seq![line@] + lines(frame@.skip(at as int + 1)));
            assert(all.skip(1) =~= lines(frame@.skip(at as int + 1)));
            read_line(&mut e, line.as_str());
            i = at + 1;
        } else {
            let line = text::string_of(&v, i, n);
            assert(line@ =~= rest);
            assert(lines(rest) =~= seq![rest]);
            assert(lines(rest).skip(1) =~= seq![]);
            let ghost had = e@;
            read_line(&mut e, line.as_str());
            i = n;
            assert(frame@.skip(n as int) =~= seq![]);
            reveal_with_fuel(with_lines, 2);
        }
    }
    assert(frame@.skip(n as int) =~= seq![]);
    if e.data.as_str().is_empty() {
        None
    } else {
        Some(e)
    }
}

proof fn lemma_shifted(s: Seq<char>, c: char, i: int)
    requires
        0 <= i <= s.len(),
    ensures
        text::index_from(s, c, i) == i + text::index_from(s.skip(i), c, 0),
{
    lemma_shifted_from(s, c, i, i);
}

proof fn lemma_shifted_from(s: Seq<char>, c: char, i: int, k: int)
    requires
        0 <= i <= k <= s.len(),
    ensures
        text::index_from(s, c, k) == i + text::index_from(s.skip(i), c, k - i),
    decreases s.len() - k,
{
    if k < s.len() {
        assert(s.skip(i)[k - i] == s[k]);
        lemma_shifted_from(s, c, i, k + 1);
    }
}

// ---- the stream ----

/// Where the first empty line begins, or the length.
pub open spec fn frame_end(s: Seq<char>) -> int
    decreases s.len(),
{
    if s.len() == 0 {
        0
    } else if s.len() > 1 && s[0] == '\n' && s[1] == '\n' {
        0
    } else {
        1 + frame_end(s.skip(1))
    }
}

pub open spec fn frame_events(frame: Seq<char>) -> Seq<SseEventV> {
    match frame_event(frame) {
        Some(e) => seq![e],
        None => seq![],
    }
}

/// The events of the frames that are complete.
pub open spec fn complete(s: Seq<char>) -> Seq<SseEventV>
    decreases s.len(),
{
    let n = frame_end(s);
    if n < 0 || n + 2 > s.len() {
        seq![]
    } else {
        frame_events(s.take(n)) + complete(s.skip(n + 2))
    }
}

/// What is left behind them.
pub open spec fn incomplete(s: Seq<char>) -> Seq<char>
    decreases s.len(),
{
    let n = frame_end(s);
    if n < 0 || n + 2 > s.len() {
        s
    } else {
        incomplete(s.skip(n + 2))
    }
}

pub proof fn lemma_frame_end(s: Seq<char>)
    ensures
        0 <= frame_end(s) <= s.len(),
        frame_end(s) < s.len() ==> frame_end(s) + 1 < s.len() && s[frame_end(s)] == '\n'
            && s[frame_end(s) + 1] == '\n',
        forall|k: int|
            0 <= k < frame_end(s) && k + 1 < s.len() ==> !(#[trigger] s[k] == '\n' && s[k + 1]
                == '\n'),
    decreases s.len(),
{
    if s.len() > 0 && !(s.len() > 1 && s[0] == '\n' && s[1] == '\n') {
        let t = s.skip(1);
        lemma_frame_end(t);
        assert forall|k: int| 0 <= k < frame_end(s) && k + 1 < s.len() implies !(#[trigger] s[k]
            == '\n' && s[k + 1] == '\n') by {
            if k > 0 {
                assert(t[k - 1] == s[k]);
            }
        }
    }
}

/// The reader of a stream: the text that has come and is no complete frame yet.
pub struct SseReader {
    pub buffer: String,
}

fn find_end(v: &[char], from: usize) -> (r: usize)
    requires
        from <= v.len(),
    ensures
        r == from + frame_end(v@.skip(from as int)),
        from <= r <= v.len(),
        r < v.len() ==> r + 1 < v.len(),
{
    let n: usize = v.len();
    let ghost whole = v@.skip(from as int);
    proof {
        lemma_frame_end(whole);
    }
    let mut i: usize = from;
    while i < n && !(n - i > 1 && v[i] == '\n' && v[i + 1] == '\n')
        invariant
            n == v@.len(),
            from <= i <= n,
            whole == v@.skip(from as int),
            frame_end(whole) == (i - from) + frame_end(v@.skip(i as int)),
        decreases n - i,
    {
        assert(v@.skip(i as int)[0] == v@[i as int]);
        assert(i + 1 < n ==> v@.skip(i as int)[1] == v@[i + 1]);
        assert(v@.skip(i as int).skip(1) =~= v@.skip(i as int + 1));
        i = i + 1;
    }
    if i < n {
        assert(v@.skip(i as int)[0] == v@[i as int]);
        assert(v@.skip(i as int)[1] == v@[i + 1]);
    }
    i
}

impl SseReader {
    pub fn new() -> (r: SseReader)
        ensures
            r.buffer@ == Seq::<char>::empty(),
    {
        SseReader { buffer: String::new() }
    }

    /// Takes in the next text and gives the events that it completes.
    pub fn feed(&mut self, more: &str) -> (r: Vec<SseEvent>)
        ensures
            event_views(r@) == complete(old(self).buffer@ + more@),
            final(self).buffer@ == incomplete(old(self).buffer@ + more@),
    {
        self.buffer.append(more);
        let ghost whole = self.buffer@;
        let v = text::chars_of(self.buffer.as_str());
        let n: usize = v.len();
        let mut out: Vec<SseEvent> = Vec::new();
        let mut i: usize = 0;
        assert(whole.skip(0) =~= whole);
        assert(event_views(out@) =~= seq![]);
        assert(seq![] + complete(whole) =~= complete(whole));
        let mut at: usize = find_end(&v, 0);
        while at < n
            invariant
                v@ == whole,
                n == whole.len(),
                i <= at <= n,
                at < n ==> at + 1 < n,
                at == i + frame_end(whole.skip(i as int)),
                complete(whole) == event_views(out@) + complete(whole.skip(i as int)),
                incomplete(whole) == incomplete(whole.skip(i as int)),
            decreases n - i,
        {
            let ghost rest = whole.skip(i as int);
            proof {
                lemma_frame_end(rest);
            }
            let frame = text::string_of(&v, i, at);
            assert(frame@ =~= rest.take(at - i));
            assert(rest.skip(at - i + 2) =~= whole.skip(at as int + 2));
            let ghost had = event_views(out@);
            if let Some(e) = parse_frame(frame.as_str()) {
                out.push(e);
            }
            assert(event_views(out@) =~= had + frame_events(frame@));
            assert(had + (frame_events(frame@) + complete(whole.skip(at as int + 2)))
                =~= event_views(out@) + complete(whole.skip(at as int + 2)));
            i = at + 2;
            at = find_end(&v, i);
        }
        let rest = text::string_of(&v, i, n);
        assert(rest@ =~= whole.skip(i as int));
        proof {
            lemma_frame_end(whole.skip(i as int));
        }
        assert(complete(whole.skip(i as int)) =~= seq![]);
        assert(event_views(out@) + seq![] =~= event_views(out@));
        self.buffer = rest;
        out
    }

    /// The event in what is left at the end of the stream.
    pub fn finish(&self) -> (r: Option<SseEvent>)
        ensures
            opt_event(r) == frame_event(self.buffer@),
    {
        parse_frame(self.buffer.as_str())
    }
}

// ---- laws ----

/// How the stream is cut into pieces does not matter.
pub proof fn pieces_do_not_matter(a: Seq<char>, b: Seq<char>)
    ensures
        complete(a + b) == complete(a) + complete(incomplete(a) + b),
        incomplete(a + b) == incomplete(incomplete(a) + b),
    decreases a.len(),
{
    let n = frame_end(a);
    lemma_frame_end(a);
    if n >= a.len() {
        assert(seq![] + complete(a + b) =~= complete(a + b));
    } else {
        lemma_frame_end(a + b);
        let m = frame_end(a + b);
        assert((a + b)[n] == '\n' && (a + b)[n + 1] == '\n');
        assert(m == n) by {
            if m < n {
                assert((a + b)[m] == a[m]);
                assert((a + b)[m + 1] == a[m + 1]);
            }
            if m > n {
                assert(!((a + b)[n] == '\n' && (a + b)[n + 1] == '\n'));
            }
        }
        assert((a + b).take(n) =~= a.take(n));
        assert((a + b).skip(n + 2) =~= a.skip(n + 2) + b);
        pieces_do_not_matter(a.skip(n + 2), b);
        let rest = a.skip(n + 2);
        assert(frame_events(a.take(n)) + (complete(rest) + complete(incomplete(rest) + b)) =~= (
        frame_events(a.take(n)) + complete(rest)) + complete(incomplete(rest) + b));
    }
}

proof fn lemma_trim_space(s: Seq<char>)
    requires
        s.len() > 0,
        s[0] == ' ',
    ensures
        text::trim(s) == text::trim(s.skip(1)),
{
    assert(text::is_white(' '));
}

/// A frame that was written reads back as the event, where neither the event nor
/// the data has white space around it or a line break in it.
pub proof fn a_written_frame_reads_back(event: Seq<char>, data: Seq<char>)
    requires
        data.len() > 0,
        text::trim(event) == event,
        text::trim(data) == data,
        !event.contains('\n'),
        !event.contains('\r'),
        !data.contains('\n'),
    ensures
        complete(hub::frame(event, data)) == seq![SseEventV { event, data }],
        incomplete(hub::frame(event, data)) == Seq::<char>::empty(),
{
    reveal_strlit("event: ");
    reveal_strlit("\ndata: ");
    reveal_strlit("\n\n");
    reveal_strlit("event:");
    reveal_strlit("data:");
    let f = hub::frame(event, data);
    let a = "event: "@ + event;
    let b = "data: "@ + data;
    reveal_strlit("data: ");
    let body = a + seq!['\n'] + b;
    assert(f =~= body + seq!['\n', '\n']);
    assert forall|k: int| 0 <= k < a.len() implies a[k] != '\n' && a[k] != '\r' by {
        if k >= 7 {
            assert(a[k] == event[k - 7]);
        }
    }
    assert forall|k: int| 0 <= k < b.len() implies b[k] != '\n' by {
        if k >= 6 {
            assert(b[k] == data[k - 6]);
        }
    }
    lemma_frame_end(f);
    let n = frame_end(f);
    assert(f[body.len() as int] == '\n' && f[body.len() as int + 1] == '\n');
    assert(n == body.len()) by {
        if n > body.len() {
            assert(!(f[body.len() as int] == '\n' && f[body.len() as int + 1] == '\n'));
        }
        if n < body.len() {
            assert(f[n] == '\n');
            if n < a.len() {
                assert(f[n] == a[n]);
            } else if n > a.len() {
                assert(f[n] == b[n - a.len() - 1]);
            } else {
                assert(f[n + 1] == b[0]);
            }
        }
    }
    assert(f.take(n) =~= body);
    assert(f.skip(n + 2) =~= Seq::<char>::empty());
    assert(complete(f.skip(n + 2)) =~= seq![]);
    assert(incomplete(f.skip(n + 2)) =~= Seq::<char>::empty());
    // The lines of the frame.
    text::lemma_index_from(body, '\n', 0);
    let i = text::index_from(body, '\n', 0);
    assert(body[a.len() as int] == '\n');
    assert(i == a.len()) by {
        if i < a.len() {
            assert(body[i] == a[i]);
        }
    }
    assert(body.take(i) =~= a);
    assert(body.skip(i + 1) =~= b);
    assert(a.last() == a[a.len() - 1]);
    assert(uncarried(a) == a);
    text::lemma_index_from(b, '\n', 0);
    let j = text::index_from(b, '\n', 0);
    assert(j == b.len()) by {
        if j < b.len() {
            assert(b[j] == '\n');
        }
    }
    assert(lines(b) =~= seq![b]);
    let v = lines(body);
    assert(v =~= seq![a, b]);
    // What they say.
    assert(a.subrange(0, 6) =~= "event:"@);
    assert(a.skip(6) =~= seq![' '] + event);
    lemma_trim_space(a.skip(6));
    assert(a.skip(6).skip(1) =~= event);
    let e1 = with_line(nothing(), a);
    assert(e1 == SseEventV { event, data: seq![] });
    assert(b.subrange(0, 6)[0] == 'd');
    assert("event:"@[0] == 'e');
    assert(b.subrange(0, 5) =~= "data:"@);
    assert(b.skip(5) =~= seq![' '] + data);
    lemma_trim_space(b.skip(5));
    assert(b.skip(5).skip(1) =~= data);
    let e2 = with_line(e1, b);
    assert(e2 == SseEventV { event, data });
    reveal_with_fuel(with_lines, 3);
    assert(v.skip(1) =~= seq![b]);
    assert(v.skip(1).skip(1) =~= seq![]);
    assert(with_lines(nothing(), v) == e2);
    assert(complete(f) =~= seq![e2]);
}

/// The lines of a frame are read one by one: a name replaces the name before it, data
/// goes on a line of its own below the data before it, and any other line says nothing.
pub proof fn each_line_adds_what_it_says(
    e: SseEventV,
    before: Seq<Seq<char>>,
    v: Seq<char>,
    other: Seq<char>,
)
    requires
        !text::starts_with(other, "event:"@),
        !text::starts_with(other, "data:"@),
    ensures
        ({
            let had = with_lines(e, before);
            &&& with_lines(e, before.push("event:"@ + v)) == (SseEventV {
                event: text::trim(v),
                ..had
            })
            &&& had.data.len() > 0 ==> with_lines(e, before.push("data:"@ + v)) == (SseEventV {
                data: had.data + seq!['\n'] + text::trim(v),
                ..had
            })
            &&& had.data.len() == 0 ==> with_lines(e, before.push("data:"@ + v)) == (SseEventV {
                data: text::trim(v),
                ..had
            })
            &&& with_lines(e, before.push(other)) == had
        }),
    decreases before.len(),
{
    reveal_strlit("event:");
    reveal_strlit("data:");
    let a = "event:"@ + v;
    let b = "data:"@ + v;
    if before.len() == 0 {
        assert(a.subrange(0, 6) =~= "event:"@);
        assert(a.skip(6) =~= v);
        assert(b.subrange(0, 5) =~= "data:"@);
        assert(b.skip(5) =~= v);
        if text::starts_with(b, "event:"@) {
            assert(b.subrange(0, 6)[0] == b[0]);
            assert(false);
        }
        assert(text::after_prefix(a, "event:"@) == Some(v));
        assert(text::after_prefix(b, "event:"@) is None);
        assert(text::after_prefix(b, "data:"@) == Some(v));
        assert(e.data.push('\n') + text::trim(v) =~= e.data + seq!['\n'] + text::trim(v));
        assert(before.push(a).skip(1) =~= seq![]);
        assert(before.push(b).skip(1) =~= seq![]);
        assert(before.push(other).skip(1) =~= seq![]);
        assert(before.push(a)[0] == a && before.push(b)[0] == b && before.push(other)[0] == other);
        let none: Seq<Seq<char>> = seq![];
        assert(with_lines(with_line(e, a), none) == with_line(e, a));
        assert(with_lines(with_line(e, b), none) == with_line(e, b));
        assert(with_lines(with_line(e, other), none) == with_line(e, other));
    } else {
        let rest = before.skip(1);
        assert(before.push(a).skip(1) =~= rest.push(a));
        assert(before.push(b).skip(1) =~= rest.push(b));
        assert(before.push(other).skip(1) =~= rest.push(other));
        assert(before.push(a)[0] == before[0]);
        assert(before.push(b)[0] == before[0]);
        assert(before.push(other)[0] == before[0]);
        each_line_adds_what_it_says(with_line(e, before[0]), rest, v, other);
    }
}

/// A frame's lines end at line feeds, and a carriage return before one is no part of
/// the line.
pub proof fn lines_end_at_line_feeds(a: Seq<char>, rest: Seq<char>)
    requires
        !a.contains('\n'),
    ensures
        a.len() > 0 && a.last() == '\r' ==> lines(a + seq!['\n'] + rest) == seq![a.drop_last()]
            + lines(rest),
        a.len() == 0 || a.last() != '\r' ==> lines(a + seq!['\n'] + rest) == seq![a] + lines(rest),
        a.len() > 0 ==> lines(a) == seq![a],
        lines(seq![]).len() == 0,
{
    let s = a + seq!['\n'] + rest;
    let n = a.len() as int;
    text::lemma_index_from(s, '\n', 0);
    text::lemma_index_from(a, '\n', 0);
    assert(s[n] == '\n');
    assert forall|i: int| 0 <= i < n implies s[i] != '\n' by {
        assert(s[i] == a[i]);
        assert(a.contains(a[i]));
    }
    assert(text::index_from(s, '\n', 0) == n);
    assert(s.take(n) =~= a);
    assert(s.skip(n + 1) =~= rest);
    if text::index_from(a, '\n', 0) < n {
        assert(a.contains(a[text::index_from(a, '\n', 0)]));
    }
}

} // verus!

//! Server-sent event framing for streamed Pass responses.
use vstd::prelude::*;
use crate::errors::{spec_raise_from_response_body, unit_result, ErrorView, ToniaError};
use crate::json::{opt_json, parse_json, spec_parse_json, JsonSpec, JsonValue};
use crate::limits::opt_view;
use crate::text::{
    chars_of, join_chars, join_on, parts_view, seq_starts_with, slice_chars, split_chars,
    split_on, starts_with, string_from_chars, trim, trim_bounds, trim_chars, trim_start,
    trim_start_chars,
};

verus! {

/// One server-sent event.
#[derive(Debug, Clone, PartialEq, Eq)]
pub struct SseEvent {
    pub data: String,
    pub raw: String,
    pub event: Option<String>,
    pub json: Option<JsonValue>,
}

/// The mathematical value of an [`SseEvent`].
pub struct SseEventView {
    pub data: Seq<char>,
    pub raw: Seq<char>,
    pub event: Option<Seq<char>>,
    pub json: Option<JsonSpec>,
}

impl View for SseEvent {
    type V = SseEventView;

    open spec fn view(&self) -> SseEventView {
        SseEventView {
            data: self.data@,
            raw: self.raw@,
            event: opt_view(self.event),
            json: opt_json(self.json),
        }
    }
}

pub open spec fn events_view(v: Seq<SseEvent>) -> Seq<SseEventView> {
    v.map_values(|e: SseEvent| e@)
}

/// `"\r\n\r\n"` starts at index `i` of `s`.
pub open spec fn crlf2_at(s: Seq<char>, i: int) -> bool {
    i + 3 < s.len() && s[i] == '\r' && s[i + 1] == '\n' && s[i + 2] == '\r' && s[i + 3] == '\n'
}

/// `"\n\n"` starts at index `i` of `s`.
pub open spec fn lf2_at(s: Seq<char>, i: int) -> bool {
    i + 1 < s.len() && s[i] == '\n' && s[i + 1] == '\n'
}

/// The frames of `s` from `start`, scanning from `i`: a frame ends at the first blank line,
/// written `"\r\n\r\n"` or `"\n\n"`; the last frame is what follows the last blank line.
pub open spec fn frames_from(s: Seq<char>, start: int, i: int) -> Seq<Seq<char>>
    decreases s.len() - i,
{
    if i < start || i >= s.len() {
        seq![s.subrange(start, s.len() as int)]
    } else if crlf2_at(s, i) {
        seq![s.subrange(start, i)] + frames_from(s, i + 4, i + 4)
    } else if lf2_at(s, i) {
        seq![s.subrange(start, i)] + frames_from(s, i + 2, i + 2)
    } else {
        frames_from(s, start, i + 1)
    }
}

/// The frames of a text; the last one is the unfinished remainder.
pub open spec fn sse_frames(s: Seq<char>) -> Seq<Seq<char>> {
    frames_from(s, 0, 0)
}

/// A line without the `'\r'` of a `"\r\n"` ending.
pub open spec fn strip_cr(x: Seq<char>) -> Seq<char> {
    if x.len() > 0 && x[x.len() - 1] == '\r' {
        x.drop_last()
    } else {
        x
    }
}

/// The lines of a frame, as `str::lines` gives them.
pub open spec fn sse_lines(b: Seq<char>) -> Seq<Seq<char>> {
    let p = split_on(b, '\n');
    let head = p.drop_last().map_values(|x: Seq<char>| strip_cr(x));
    if p.last().len() == 0 {
        head
    } else {
        head.push(p.last())
    }
}

/// The name of the last `event:` line, trimmed.
pub open spec fn sse_event_name(lines: Seq<Seq<char>>) -> Option<Seq<char>>
    decreases lines.len(),
{
    if lines.len() == 0 {
        None
    } else {
        let l = lines.last();
        if starts_with(l, "event:"@) {
            Some(trim(l.subrange(6, l.len() as int)))
        } else {
            sse_event_name(lines.drop_last())
        }
    }
}

/// The payloads of the `data:` lines, in order, without leading whitespace.
pub open spec fn sse_data_lines(lines: Seq<Seq<char>>) -> Seq<Seq<char>>
    decreases lines.len(),
{
    if lines.len() == 0 {
        Seq::empty()
    } else {
        let prev = sse_data_lines(lines.drop_last());
        let l = lines.last();
        if starts_with(l, "event:"@) {
            prev
        } else if starts_with(l, "data:"@) {
            prev.push(trim_start(l.subrange(5, l.len() as int)))
        } else {
            prev
        }
    }
}

/// The event that one frame carries: none for a blank frame, a comment frame or a frame
/// without `data:` lines. The data lines are joined by newlines, and the data is parsed as
/// JSON unless it is empty or `[DONE]`.
pub open spec fn spec_block_event(block: Seq<char>) -> Option<SseEventView> {
    if trim(block).len() == 0 || starts_with(block, seq![':']) {
        None
    } else {
        let lines = sse_lines(block);
        let d = sse_data_lines(lines);
        if d.len() == 0 {
            None
        } else {
            let data = join_on(d, '\n');
            Some(SseEventView {
                data,
                raw: block,
                event: sse_event_name(lines),
                json: if data.len() > 0 && data != "[DONE]"@ { spec_parse_json(data) } else { None },
            })
        }
    }
}

/// The events of finished frames, in order.
pub open spec fn events_of(blocks: Seq<Seq<char>>) -> Seq<SseEventView>
    decreases blocks.len(),
{
    if blocks.len() == 0 {
        Seq::empty()
    } else {
        let prev = events_of(blocks.drop_last());
        match spec_block_event(blocks.last()) {
            Some(e) => prev.push(e),
            None => prev,
        }
    }
}

/// What [`feed_sse`] gives: the events of the finished frames of `buffer + chunk`, and the
/// unfinished remainder.
pub open spec fn spec_feed_sse(buffer: Seq<char>, chunk: Seq<char>) -> (Seq<SseEventView>, Seq<char>) {
    let frames = sse_frames(buffer + chunk);
    (events_of(frames.drop_last()), frames.last())
}

proof fn lemma_frames_len(s: Seq<char>, start: int, i: int)
    requires
        0 <= start <= i <= s.len(),
    ensures
        frames_from(s, start, i).len() >= 1,
    decreases s.len() - i,
{
    if i < s.len() {
        if crlf2_at(s, i) {
            lemma_frames_len(s, i + 4, i + 4);
        } else if lf2_at(s, i) {
            lemma_frames_len(s, i + 2, i + 2);
        } else {
            lemma_frames_len(s, start, i + 1);
        }
    }
}

/// Splits a text into frames at blank lines (see [`sse_frames`]).
pub fn split_sse_frames(s: &[char]) -> (r: Vec<Vec<char>>)
    ensures
        parts_view(r@) == sse_frames(s@),
{
    let mut parts: Vec<Vec<char>> = Vec::new();
    let mut start: usize = 0;
    let mut i: usize = 0;
    let n = s.len();
    assert(parts_view(parts@) =~= Seq::<Seq<char>>::empty());
    while i < n
        invariant
            n == s@.len(),
            start <= i <= n,
            sse_frames(s@) == parts_view(parts@) + frames_from(s@, start as int, i as int),
        decreases n - i,
    {
        if s[i] == '\r' && n - i > 3 && s[i + 1] == '\n' && s[i + 2] == '\r' && s[i + 3] == '\n' {
            let part = slice_chars(s, start, i);
            let ghost old_parts = parts_view(parts@);
            parts.push(part);
            proof {
                assert(parts_view(parts@) =~= old_parts.push(s@.subrange(start as int, i as int)));
                assert(frames_from(s@, start as int, i as int) == seq![s@.subrange(start as int, i as int)]
                    + frames_from(s@, i + 4, i + 4));
                assert(old_parts + frames_from(s@, start as int, i as int) =~= parts_view(parts@)
                    + frames_from(s@, i + 4, i + 4));
            }
            start = i + 4;
            i = start;
            continue;
        }
        if s[i] == '\n' && n - i > 1 && s[i + 1] == '\n' {
            let part = slice_chars(s, start, i);
            let ghost old_parts = parts_view(parts@);
            parts.push(part);
            proof {
                assert(parts_view(parts@) =~= old_parts.push(s@.subrange(start as int, i as int)));
                assert(frames_from(s@, start as int, i as int) == seq![s@.subrange(start as int, i as int)]
                    + frames_from(s@, i + 2, i + 2));
                assert(old_parts + frames_from(s@, start as int, i as int) =~= parts_view(parts@)
                    + frames_from(s@, i + 2, i + 2));
            }
            start = i + 2;
            i = start;
            continue;
        }
        i = i + 1;
    }
    let last = slice_chars(s, start, n);
    let ghost old_parts = parts_view(parts@);
    parts.push(last);
    proof {
        assert(frames_from(s@, start as int, n as int) == seq![s@.subrange(start as int, n as int)]);
        assert(parts_view(parts@) =~= old_parts + seq![s@.subrange(start as int, n as int)]);
    }
    parts
}

/// The lines of a frame (see [`sse_lines`]).
fn frame_lines(b: &[char]) -> (r: Vec<Vec<char>>)
    ensures
        parts_view(r@) == sse_lines(b@),
{
    let p = split_chars(b, '\n');
    let ghost pv = split_on(b@, '\n');
    let k = p.len() - 1;
    let mut r: Vec<Vec<char>> = Vec::new();
    let mut i: usize = 0;
    while i < k
        invariant
            k + 1 == p@.len(),
            parts_view(p@) == pv,
            i <= k,
            parts_view(r@) == pv.drop_last().map_values(|x: Seq<char>| strip_cr(x)).subrange(0, i as int),
        decreases k - i,
    {
        let line = &p[i];
        let len = line.len();
        let stripped = if len > 0 && line[len - 1] == '\r' {
            let s = slice_chars(line, 0, len - 1);
            assert(s@ =~= line@.drop_last());
            s
        } else {
            line.clone()
        };
        let ghost old_r = parts_view(r@);
        r.push(stripped);
        proof {
            assert(pv[i as int] == line@);
            assert(stripped@ == strip_cr(line@));
            let target = pv.drop_last().map_values(|x: Seq<char>| strip_cr(x));
            assert(target[i as int] == strip_cr(pv[i as int]));
            assert(parts_view(r@) == old_r.push(stripped@));
            assert(parts_view(r@) =~= target.subrange(0, i + 1));
        }
        i = i + 1;
    }
    assert(pv.drop_last().map_values(|x: Seq<char>| strip_cr(x)).subrange(0, k as int)
        =~= pv.drop_last().map_values(|x: Seq<char>| strip_cr(x)));
    if p[k].len() > 0 {
        let last = p[k].clone();
        let ghost old_r = parts_view(r@);
        r.push(last);
        assert(parts_view(r@) =~= old_r.push(pv.last()));
    }
    r
}

fn has_prefix(line: &[char], p: &str) -> (r: bool)
    ensures
        r == starts_with(line@, p@),
{
    let pc = chars_of(p);
    seq_starts_with(line, &pc)
}

/// The event that one frame carries (see [`spec_block_event`]).
fn block_event(block: &[char]) -> (r: Option<SseEvent>)
    ensures
        match r {
            Some(e) => spec_block_event(block@) == Some(e@),
            None => spec_block_event(block@) is None,
        },
{
    let (lo, hi) = trim_bounds(block);
    if lo == hi {
        assert(crate::text::trim(block@).len() == 0);
        return None;
    }
    if block.len() > 0 && block[0] == ':' {
        assert(starts_with(block@, seq![':'])) by {
            assert(block@.subrange(0, 1) =~= seq![':']);
        }
        return None;
    }
    assert(!starts_with(block@, seq![':'])) by {
        if block@.len() > 0 {
            assert(block@.subrange(0, 1)[0] == block@[0]);
        }
    }
    let lines = frame_lines(block);
    let ghost lv = sse_lines(block@);
    let mut event: Option<Vec<char>> = None;
    let mut data: Vec<Vec<char>> = Vec::new();
    let mut i: usize = 0;
    proof {
        assert(lv.subrange(0, 0) =~= Seq::<Seq<char>>::empty());
        assert(parts_view(data@) =~= Seq::<Seq<char>>::empty());
    }
    while i < lines.len()
        invariant
            i <= lines@.len(),
            parts_view(lines@) == lv,
            parts_view(data@) == sse_data_lines(lv.subrange(0, i as int)),
            match event {
                Some(v) => sse_event_name(lv.subrange(0, i as int)) == Some(v@),
                None => sse_event_name(lv.subrange(0, i as int)) is None,
            },
        decreases lines.len() - i,
    {
        let line = &lines[i];
        let ghost sub = lv.subrange(0, i + 1);
        proof {
            assert(sub.drop_last() =~= lv.subrange(0, i as int));
            assert(sub.last() == line@);
        }
        if has_prefix(line, "event:") {
            proof { crate::text::lemma_literal_len_event(); }
            let rest = slice_chars(line, 6, line.len());
            event = Some(trim_chars(&rest));
        } else if has_prefix(line, "data:") {
            proof { crate::text::lemma_literal_len_data(); }
            let rest = slice_chars(line, 5, line.len());
            let ghost old_data = parts_view(data@);
            data.push(trim_start_chars(&rest));
            assert(parts_view(data@) =~= old_data.push(trim_start(line@.subrange(5, line@.len() as int))));
        }
        i = i + 1;
    }
    assert(lv.subrange(0, lines@.len() as int) =~= lv);
    if data.len() == 0 {
        return None;
    }
    let joined = join_chars(&data, '\n');
    let done = chars_of("[DONE]");
    let is_done = crate::text::seq_starts_with(&joined, &done) && joined.len() == done.len();
    assert(is_done == (joined@ == "[DONE]"@)) by {
        if joined@.len() == done@.len() {
            assert(joined@.subrange(0, done@.len() as int) =~= joined@);
        }
    }
    let data_string = string_from_chars(&joined);
    let json = if joined.len() > 0 && !is_done {
        parse_json(data_string.as_str())
    } else {
        None
    };
    let event_string = match event {
        Some(v) => Some(string_from_chars(&v)),
        None => None,
    };
    Some(SseEvent {
        data: data_string,
        raw: string_from_chars(block),
        event: event_string,
        json,
    })
}

/// Feeds one chunk of a stream: the events of the frames that `buffer + chunk` finishes, and
/// the unfinished remainder to keep for the next chunk.
pub fn feed_sse(buffer: &str, chunk: &str) -> (r: (Vec<SseEvent>, String))
    ensures
        (events_view(r.0@), r.1@) == spec_feed_sse(buffer@, chunk@),
{
    let mut combined = chars_of(buffer);
    let more = chars_of(chunk);
    let mut j: usize = 0;
    let ghost base = combined@;
    while j < more.len()
        invariant
            j <= more@.len(),
            combined@ == base + more@.subrange(0, j as int),
        decreases more.len() - j,
    {
        combined.push(more[j]);
        j = j + 1;
        assert(combined@ =~= base + more@.subrange(0, j as int));
    }
    assert(more@.subrange(0, more@.len() as int) =~= more@);
    let frames = split_sse_frames(&combined);
    let ghost fv = sse_frames(combined@);
    proof { lemma_frames_len(combined@, 0, 0); }
    let k = frames.len() - 1;
    let mut events: Vec<SseEvent> = Vec::new();
    let mut i: usize = 0;
    proof {
        assert(fv.drop_last().subrange(0, 0) =~= Seq::<Seq<char>>::empty());
        assert(events_view(events@) =~= Seq::<SseEventView>::empty());
    }
    while i < k
        invariant
            k + 1 == frames@.len(),
            parts_view(frames@) == fv,
            i <= k,
            events_view(events@) == events_of(fv.drop_last().subrange(0, i as int)),
        decreases k - i,
    {
        let ghost sub = fv.drop_last().subrange(0, i + 1);
        proof {
            assert(sub.drop_last() =~= fv.drop_last().subrange(0, i as int));
            assert(sub.last() == frames@[i as int]@);
        }
        let ghost old_events = events_view(events@);
        match block_event(&frames[i]) {
            Some(e) => {
                events.push(e);
                assert(events_view(events@) =~= old_events.push(e@));
            },
            None => {},
        }
        i = i + 1;
    }
    assert(fv.drop_last().subrange(0, k as int) =~= fv.drop_last());
    let rest = string_from_chars(&frames[k]);
    (events, rest)
}

/// The blank lines that end the frames of `s` from `start`, scanning from `i`, in order (see
/// [`frames_from`]).
pub open spec fn frame_seps(s: Seq<char>, start: int, i: int) -> Seq<Seq<char>>
    decreases s.len() - i,
{
    if i < start || i >= s.len() {
        Seq::empty()
    } else if crlf2_at(s, i) {
        seq![seq!['\r', '\n', '\r', '\n']] + frame_seps(s, i + 4, i + 4)
    } else if lf2_at(s, i) {
        seq![seq!['\n', '\n']] + frame_seps(s, i + 2, i + 2)
    } else {
        frame_seps(s, start, i + 1)
    }
}

/// The blank lines between the frames of a text.
pub open spec fn sse_separators(s: Seq<char>) -> Seq<Seq<char>> {
    frame_seps(s, 0, 0)
}

/// Frames put back together with the separators between them.
pub open spec fn rejoin(parts: Seq<Seq<char>>, seps: Seq<Seq<char>>) -> Seq<char>
    decreases parts.len(),
{
    if parts.len() == 0 {
        Seq::empty()
    } else if parts.len() == 1 {
        parts[0]
    } else {
        parts[0] + seps[0] + rejoin(parts.drop_first(), seps.drop_first())
    }
}

/// A blank line, `"\r\n\r\n"` or `"\n\n"`, starts somewhere in `x`.
pub open spec fn holds_break(x: Seq<char>) -> bool {
    exists|j: int| 0 <= j && (#[trigger] crlf2_at(x, j) || lf2_at(x, j))
}

pub open spec fn is_separator(x: Seq<char>) -> bool {
    x == seq!['\r', '\n', '\r', '\n'] || x == seq!['\n', '\n']
}

proof fn lemma_rejoin_cons(p: Seq<char>, c: Seq<char>, f: Seq<Seq<char>>, t: Seq<Seq<char>>)
    requires
        f.len() >= 1,
    ensures
        rejoin(seq![p] + f, seq![c] + t) == p + c + rejoin(f, t),
{
    let parts = seq![p] + f;
    let seps = seq![c] + t;
    assert(parts.drop_first() =~= f);
    assert(seps.drop_first() =~= t);
    assert(parts[0] == p);
    assert(seps[0] == c);
}

/// A part of `s` after `start` and before `i`, where no blank line starts in `s`, holds none.
proof fn lemma_part_no_break(s: Seq<char>, start: int, i: int)
    requires
        0 <= start <= i <= s.len(),
        no_break(s, start, i),
    ensures
        !holds_break(s.subrange(start, i)),
{
    let p = s.subrange(start, i);
    if holds_break(p) {
        let j = choose|j: int| 0 <= j && (#[trigger] crlf2_at(p, j) || lf2_at(p, j));
        assert(p.len() == i - start);
        assert(start <= start + j < i);
        assert(no_break(s, start, i));
        assert(!crlf2_at(s, start + j) && !lf2_at(s, start + j));
        if crlf2_at(p, j) {
            assert(crlf2_at(s, start + j));
        } else {
            assert(lf2_at(s, start + j));
        }
    }
}

proof fn lemma_frames_rebuild(s: Seq<char>, start: int, i: int)
    requires
        0 <= start <= i <= s.len(),
        no_break(s, start, i),
    ensures
        frames_from(s, start, i).len() == frame_seps(s, start, i).len() + 1,
        rejoin(frames_from(s, start, i), frame_seps(s, start, i)) == s.subrange(start, s.len() as int),
        forall|k: int| 0 <= k < frame_seps(s, start, i).len() ==> is_separator(#[trigger] frame_seps(s, start, i)[k]),
        forall|k: int| 0 <= k < frames_from(s, start, i).len() ==> !holds_break(#[trigger] frames_from(s, start, i)[k]),
    decreases s.len() - i,
{
    let f = frames_from(s, start, i);
    let t = frame_seps(s, start, i);
    if i >= s.len() {
        lemma_part_no_break(s, start, i);
        assert(f =~= seq![s.subrange(start, s.len() as int)]);
    } else if crlf2_at(s, i) || lf2_at(s, i) {
        let w: int = if crlf2_at(s, i) { 4 } else { 2 };
        let c = if crlf2_at(s, i) { seq!['\r', '\n', '\r', '\n'] } else { seq!['\n', '\n'] };
        lemma_frames_rebuild(s, i + w, i + w);
        lemma_frames_len(s, i + w, i + w);
        let f2 = frames_from(s, i + w, i + w);
        let t2 = frame_seps(s, i + w, i + w);
        let p = s.subrange(start, i);
        assert(f == seq![p] + f2);
        assert(t == seq![c] + t2);
        lemma_rejoin_cons(p, c, f2, t2);
        assert(s.subrange(i, i + w) =~= c);
        assert(p + c + s.subrange(i + w, s.len() as int) =~= s.subrange(start, s.len() as int));
        lemma_part_no_break(s, start, i);
        assert forall|k: int| 0 <= k < t.len() implies is_separator(#[trigger] t[k]) by {
            if k > 0 {
                assert(t[k] == t2[k - 1]);
            }
        }
        assert forall|k: int| 0 <= k < f.len() implies !holds_break(#[trigger] f[k]) by {
            if k > 0 {
                assert(f[k] == f2[k - 1]);
            }
        }
    } else {
        lemma_no_break_extend(s, start, i);
        lemma_frames_rebuild(s, start, i + 1);
    }
}

/// The frames of a text and the blank lines between them rebuild the text: there is one frame
/// more than separators, each separator is `"\r\n\r\n"` or `"\n\n"`, and no frame holds one.
pub proof fn law_frames_rebuild_text(s: Seq<char>)
    ensures
        sse_frames(s).len() == sse_separators(s).len() + 1,
        rejoin(sse_frames(s), sse_separators(s)) == s,
        forall|k: int| 0 <= k < sse_separators(s).len() ==> is_separator(#[trigger] sse_separators(s)[k]),
        forall|k: int| 0 <= k < sse_frames(s).len() ==> !holds_break(#[trigger] sse_frames(s)[k]),
{
    lemma_frames_rebuild(s, 0, 0);
    assert(s.subrange(0, s.len() as int) =~= s);
}

/// The event of a one-line `data:` frame: for a payload `t` on one line (no line break in it),
/// the stream `data:t` followed by a blank line gives exactly one event, whose data is `t` without
/// its leading whitespace and nothing more removed, with no name and the frame as its raw text;
/// it is parsed as JSON unless empty or `[DONE]`; nothing is left over. So `data:X` and
/// `data: X` give the same data.
pub proof fn law_data_line_payload(t: Seq<char>)
    requires
        forall|k: int| 0 <= k < t.len() ==> t[k] != '\n' && t[k] != '\r',
    ensures
        ({
            let (events, rest) = spec_feed_sse(Seq::empty(), "data:"@ + t + "\n\n"@);
            let d = trim_start(t);
            &&& events.len() == 1
            &&& events[0].data == d
            &&& events[0].raw == "data:"@ + t
            &&& events[0].event is None
            &&& events[0].json == (if d.len() > 0 && d != "[DONE]"@ { spec_parse_json(d) } else { None })
            &&& rest.len() == 0
        }),
        spec_feed_sse(Seq::empty(), "data: "@ + t + "\n\n"@).0[0].data
            == spec_feed_sse(Seq::empty(), "data:"@ + t + "\n\n"@).0[0].data,
{
    lemma_data_line(t);
    let u = seq![' '] + t;
    assert forall|k: int| 0 <= k < u.len() implies u[k] != '\n' && u[k] != '\r' by {
        if k > 0 {
            assert(u[k] == t[k - 1]);
        }
    }
    lemma_data_line(u);
    reveal_strlit("data: ");
    reveal_strlit("data:");
    assert("data: "@ + t =~= "data:"@ + u);
    assert(u.subrange(1, u.len() as int) =~= t);
    assert(crate::text::is_ws(u[0]));
    assert(trim_start(u) == trim_start(t));
}

proof fn lemma_trim_end_keeps_first(s: Seq<char>)
    requires
        s.len() > 0,
        !crate::text::is_ws(s[0]),
    ensures
        crate::text::trim_end(s).len() > 0,
    decreases s.len(),
{
    if s.len() > 1 && crate::text::is_ws(s[s.len() - 1]) {
        lemma_trim_end_keeps_first(s.subrange(0, s.len() - 1));
    }
}

proof fn lemma_data_line(t: Seq<char>)
    requires
        forall|k: int| 0 <= k < t.len() ==> t[k] != '\n' && t[k] != '\r',
    ensures
        ({
            let (events, rest) = spec_feed_sse(Seq::empty(), "data:"@ + t + "\n\n"@);
            let d = trim_start(t);
            &&& events.len() == 1
            &&& events[0].data == d
            &&& events[0].raw == "data:"@ + t
            &&& events[0].event is None
            &&& events[0].json == (if d.len() > 0 && d != "[DONE]"@ { spec_parse_json(d) } else { None })
            &&& rest.len() == 0
        }),
{
    reveal_strlit("data:");
    reveal_strlit("\n\n");
    reveal_strlit("event:");
    let block = "data:"@ + t;
    let s = block + "\n\n"@;
    assert(Seq::<char>::empty() + s =~= s);
    let n = s.len() as int;
    assert(forall|k: int| 0 <= k < block.len() ==> block[k] != '\n' && block[k] != '\r') by {
        assert forall|k: int| 0 <= k < block.len() implies block[k] != '\n' && block[k] != '\r' by {
            if k >= 5 {
                assert(block[k] == t[k - 5]);
            }
        }
    }
    assert(no_break(s, 0, n - 2)) by {
        assert forall|j: int| 0 <= j < n - 2 implies !(#[trigger] crlf2_at(s, j)) && !lf2_at(s, j) by {
            assert(s[j] == block[j]);
        }
    }
    lemma_frames_skip(s, 0, n - 2);
    assert(!crlf2_at(s, n - 2));
    assert(lf2_at(s, n - 2));
    assert(s.subrange(0, n - 2) =~= block);
    assert(frames_from(s, n, n) == seq![s.subrange(n, n)]);
    let frames = sse_frames(s);
    assert(frames == seq![block] + seq![s.subrange(n, n)]);
    assert(frames.drop_last() =~= seq![block]);
    assert(frames.last().len() == 0);
    // The one frame is one `data:` line.
    crate::text::lemma_split_on_absent(block, '\n');
    let lines = sse_lines(block);
    assert(split_on(block, '\n').drop_last() =~= Seq::<Seq<char>>::empty());
    assert(lines =~= seq![block]);
    assert(starts_with(block, "data:"@)) by {
        assert(block.subrange(0, 5) =~= "data:"@);
    }
    assert(!starts_with(block, "event:"@)) by {
        assert(block[4] == ':');
        assert("event:"@[4] == 't');
        if starts_with(block, "event:"@) {
            assert(block.subrange(0, 6)[4] == block[4]);
        }
    }
    assert(lines.drop_last() =~= Seq::<Seq<char>>::empty());
    assert(sse_data_lines(lines.drop_last()) == Seq::<Seq<char>>::empty());
    assert(block.subrange(5, block.len() as int) =~= t);
    assert(sse_data_lines(lines) =~= seq![trim_start(t)]);
    assert(sse_event_name(lines.drop_last()) is None);
    assert(sse_event_name(lines) is None);
    assert(trim(block).len() > 0) by {
        assert(!crate::text::is_ws(block[0]));
        assert(trim_start(block) == block);
        lemma_trim_end_keeps_first(block);
    }
    assert(!starts_with(block, seq![':'])) by {
        if starts_with(block, seq![':']) {
            assert(block.subrange(0, 1)[0] == block[0]);
        }
    }
    let d = seq![trim_start(t)];
    assert(join_on(d, '\n') == trim_start(t));
    let ev = frames.drop_last();
    assert(ev.drop_last() =~= Seq::<Seq<char>>::empty());
    assert(events_of(ev.drop_last()) == Seq::<SseEventView>::empty());
}

/// With no blank line starting at `i` either, none starts in `[start, i + 1)`.
proof fn lemma_no_break_extend(s: Seq<char>, start: int, i: int)
    requires
        no_break(s, start, i),
        !crlf2_at(s, i),
        !lf2_at(s, i),
    ensures
        no_break(s, start, i + 1),
{
    assert forall|j: int| start <= j < i + 1 implies !(#[trigger] crlf2_at(s, j)) && !lf2_at(s, j) by {
        if j < i {
            assert(start <= j < i);
        }
    }
}

/// No blank line starts in `s` at an index of `[lo, hi)`.
pub open spec fn no_break(s: Seq<char>, lo: int, hi: int) -> bool {
    forall|j: int| lo <= j < hi ==> !(#[trigger] crlf2_at(s, j)) && !lf2_at(s, j)
}

/// Scanning from `start` or from a later index, past indices where no blank line starts,
/// gives the same frames.
proof fn lemma_frames_skip(s: Seq<char>, start: int, i: int)
    requires
        0 <= start <= i <= s.len(),
        no_break(s, start, i),
    ensures
        frames_from(s, start, start) == frames_from(s, start, i),
    decreases i - start,
{
    if i > start {
        lemma_frames_skip(s, start, i - 1);
        assert(!crlf2_at(s, i - 1) && !lf2_at(s, i - 1));
    }
}

/// The frames of `s` from `start` are those of `s` without its first `k` characters, read
/// from `start - k`.
proof fn lemma_frames_shift(s: Seq<char>, k: int, start: int, i: int)
    requires
        0 <= k <= start <= i <= s.len(),
    ensures
        frames_from(s, start, i) == frames_from(s.subrange(k, s.len() as int), start - k, i - k),
    decreases s.len() - i,
{
    let t = s.subrange(k, s.len() as int);
    if i < s.len() {
        assert(crlf2_at(s, i) == crlf2_at(t, i - k));
        assert(lf2_at(s, i) == lf2_at(t, i - k));
        if crlf2_at(s, i) {
            lemma_frames_shift(s, k, i + 4, i + 4);
            assert(s.subrange(start, i) =~= t.subrange(start - k, i - k));
        } else if lf2_at(s, i) {
            lemma_frames_shift(s, k, i + 2, i + 2);
            assert(s.subrange(start, i) =~= t.subrange(start - k, i - k));
        } else {
            lemma_frames_shift(s, k, start, i + 1);
        }
    } else {
        assert(s.subrange(start, s.len() as int) =~= t.subrange(start - k, t.len() as int));
    }
}

/// With no blank line starting at `[i, s.len())`, the frames from `start` are one: the rest.
proof fn lemma_frames_tail(s: Seq<char>, start: int, i: int)
    requires
        0 <= start <= i <= s.len(),
        no_break(s, i, s.len() as int),
    ensures
        frames_from(s, start, i) == seq![s.subrange(start, s.len() as int)],
    decreases s.len() - i,
{
    if i < s.len() {
        assert(!crlf2_at(s, i) && !lf2_at(s, i));
        lemma_frames_tail(s, start, i + 1);
    }
}

proof fn lemma_cons_last(x: Seq<char>, g: Seq<Seq<char>>)
    requires
        g.len() >= 1,
    ensures
        (seq![x] + g).drop_last() == seq![x] + g.drop_last(),
        (seq![x] + g).last() == g.last(),
{
    assert((seq![x] + g).drop_last() =~= seq![x] + g.drop_last());
}

/// The frames of `a + b`, scanned from `start` and `i` inside `a`: the finished frames of `a`,
/// then the frames of its unfinished rest followed by `b`.
proof fn lemma_frames_concat(a: Seq<char>, b: Seq<char>, start: int, i: int)
    requires
        0 <= start <= i <= a.len(),
        no_break(a + b, start, i),
    ensures
        frames_from(a + b, start, i) == frames_from(a, start, i).drop_last()
            + sse_frames(frames_from(a, start, i).last() + b),
    decreases a.len() - i,
{
    let s = a + b;
    let f = frames_from(a, start, i);
    if i < a.len() && (crlf2_at(a, i) || lf2_at(a, i)) {
        let next = if crlf2_at(a, i) { i + 4 } else { i + 2 };
        if crlf2_at(a, i) {
            assert(crlf2_at(s, i));
        } else {
            assert(!crlf2_at(s, i));
            assert(lf2_at(s, i));
        }
        lemma_frames_concat(a, b, next, next);
        lemma_frames_len(a, next, next);
        let g = frames_from(a, next, next);
        assert(s.subrange(start, i) =~= a.subrange(start, i));
        assert(f == seq![a.subrange(start, i)] + g);
        lemma_cons_last(a.subrange(start, i), g);
        assert(f.drop_last() + sse_frames(f.last() + b) =~= seq![a.subrange(start, i)]
            + (g.drop_last() + sse_frames(g.last() + b)));
    } else if i < a.len() && !crlf2_at(s, i) && !lf2_at(s, i) {
        lemma_no_break_extend(s, start, i);
        lemma_frames_concat(a, b, start, i + 1);
    } else {
        assert(no_break(a, i, a.len() as int)) by {
            assert forall|j: int| i <= j < a.len() implies !(#[trigger] crlf2_at(a, j)) && !lf2_at(a, j) by {
                if j > i {
                    if crlf2_at(a, j) {
                        assert(crlf2_at(s, i) || lf2_at(s, i));
                        assert(s[j] == a[j]);
                    }
                    if lf2_at(a, j) {
                        assert(s[j] == a[j] && s[j + 1] == a[j + 1]);
                        if crlf2_at(s, i) {
                            assert(j == i + 1 || j == i + 2);
                        }
                    }
                }
            }
        }
        lemma_frames_tail(a, start, i);
        assert(f.drop_last() =~= Seq::<Seq<char>>::empty());
        let rest = a.subrange(start, a.len() as int);
        assert(s.subrange(start, s.len() as int) =~= rest + b);
        lemma_frames_shift(s, start, start, start);
        lemma_frames_skip(s, start, i);
        assert(f.drop_last() + sse_frames(f.last() + b) =~= sse_frames(rest + b));
    }
}

proof fn lemma_events_of_concat(x: Seq<Seq<char>>, y: Seq<Seq<char>>)
    ensures
        events_of(x + y) == events_of(x) + events_of(y),
    decreases y.len(),
{
    if y.len() == 0 {
        assert(x + y =~= x);
        assert(events_of(y) =~= Seq::<SseEventView>::empty());
    } else {
        lemma_events_of_concat(x, y.drop_last());
        assert((x + y).drop_last() =~= x + y.drop_last());
        assert((x + y).last() == y.last());
        match spec_block_event(y.last()) {
            Some(e) => {
                assert(events_of(x) + events_of(y) =~= (events_of(x) + events_of(y.drop_last())).push(e));
            },
            None => {},
        }
    }
}

/// Feeding a stream in two chunks, the second with the remainder the first left, gives the
/// events of feeding both at once, in order, and the same remainder.
pub proof fn law_feed_sse_chunking(buffer: Seq<char>, a: Seq<char>, b: Seq<char>)
    ensures
        ({
            let (e1, r1) = spec_feed_sse(buffer, a);
            let (e2, r2) = spec_feed_sse(r1, b);
            spec_feed_sse(buffer, a + b) == (e1 + e2, r2)
        }),
{
    let x = buffer + a;
    assert(buffer + (a + b) =~= x + b);
    lemma_frames_concat(x, b, 0, 0);
    let f = sse_frames(x);
    let h = sse_frames(f.last() + b);
    lemma_frames_len(f.last() + b, 0, 0);
    assert(sse_frames(x + b) == f.drop_last() + h);
    assert((f.drop_last() + h).drop_last() =~= f.drop_last() + h.drop_last());
    assert((f.drop_last() + h).last() == h.last());
    lemma_events_of_concat(f.drop_last(), h.drop_last());
}

/// What [`raise_if_stream_carrier`] raises: the carriers of the event itself, then those of a
/// nested `message` object.
pub open spec fn spec_raise_if_stream_carrier(payload: JsonSpec) -> Result<(), ErrorView> {
    match spec_raise_from_response_body(payload, 200, Seq::empty()) {
        Err(e) => Err(e),
        Ok(()) => match payload.get("message"@) {
            Some(nested) => if nested.is_object() {
                spec_raise_from_response_body(nested, 200, Seq::empty())
            } else {
                Ok(())
            },
            None => Ok(()),
        },
    }
}

/// Raises the block that a streamed event carries.
pub fn raise_if_stream_carrier(payload: &JsonValue) -> (r: Result<(), ToniaError>)
    ensures
        unit_result(r) == spec_raise_if_stream_carrier(payload@),
{
    let none: Vec<(String, String)> = Vec::new();
    assert(crate::limits::hview(none@) =~= Seq::<(Seq<char>, Seq<char>)>::empty());
    crate::errors::raise_from_response_body(payload, 200, none.as_slice())?;
    if let Some(nested) = payload.get("message") {
        if nested.is_object() {
            crate::errors::raise_from_response_body(nested, 200, none.as_slice())?;
        }
    }
    Ok(())
}

} // verus!

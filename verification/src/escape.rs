//! Supported path prefixes for requests sent through the client's escape hatch.
use vstd::prelude::*;
use crate::errors::{client_error, ErrorKind, ErrorView, ToniaError};
use crate::text::{chars_of, seq_starts_with, starts_with, string_from_chars, trim, trim_chars};

verus! {

/// The path prefixes that the client sends requests to.
pub const ESCAPE_HATCH_PREFIXES: [&'static str; 12] = [
    "/v1/public/",
    "/v1/status",
    "/v1/models",
    "/v1/chat/",
    "/v1/messages",
    "/v1/embeddings",
    "/v1/images/",
    "/v1/audio/",
    "/v1/responses",
    "/v1/rerank",
    "/v1/interactions",
    "/v1/systemone",
];

/// The supported prefixes, as texts.
pub open spec fn escape_prefixes() -> Seq<Seq<char>> {
    seq![
        "/v1/public/"@,
        "/v1/status"@,
        "/v1/models"@,
        "/v1/chat/"@,
        "/v1/messages"@,
        "/v1/embeddings"@,
        "/v1/images/"@,
        "/v1/audio/"@,
        "/v1/responses"@,
        "/v1/rerank"@,
        "/v1/interactions"@,
        "/v1/systemone"@,
    ]
}

/// Index of the first `c` in `s` at or after `i`; `s.len()` when there is none.
pub open spec fn first_of_from(s: Seq<char>, c: char, i: int) -> int
    decreases s.len() - i,
{
    if i < 0 || i >= s.len() {
        s.len() as int
    } else if s[i] == c {
        i
    } else {
        first_of_from(s, c, i + 1)
    }
}

/// `s` up to (not including) its first `c`.
pub open spec fn before_first(s: Seq<char>, c: char) -> Seq<char> {
    s.subrange(0, first_of_from(s, c, 0))
}

/// The parts of `s` between slashes, as `str::split('/')` gives them.
pub open spec fn split_slash(s: Seq<char>) -> Seq<Seq<char>>
    decreases s.len(),
{
    if s.len() == 0 {
        seq![Seq::<char>::empty()]
    } else {
        let prev = split_slash(s.subrange(0, s.len() - 1));
        let c = s[s.len() - 1];
        if c == '/' {
            prev.push(Seq::<char>::empty())
        } else {
            prev.update(prev.len() - 1, prev[prev.len() - 1].push(c))
        }
    }
}

/// One step of dot-segment resolution: empty and `.` segments are dropped, `..` removes the
/// segment before it, any other segment is kept.
pub open spec fn resolve_step(stack: Seq<Seq<char>>, part: Seq<char>) -> Seq<Seq<char>> {
    if part.len() == 0 || part == seq!['.'] {
        stack
    } else if part == seq!['.', '.'] {
        if stack.len() > 0 { stack.drop_last() } else { stack }
    } else {
        stack.push(part)
    }
}

/// Resolves a list of segments from left to right.
pub open spec fn resolve(parts: Seq<Seq<char>>) -> Seq<Seq<char>>
    decreases parts.len(),
{
    if parts.len() == 0 {
        Seq::empty()
    } else {
        resolve_step(resolve(parts.drop_last()), parts.last())
    }
}

/// Segments joined by single slashes.
pub open spec fn join_slash(segs: Seq<Seq<char>>) -> Seq<char>
    decreases segs.len(),
{
    if segs.len() == 0 {
        Seq::empty()
    } else if segs.len() == 1 {
        segs[0]
    } else {
        join_slash(segs.drop_last()) + seq!['/'] + segs.last()
    }
}

/// The normal form of a request path: trimmed, cut before any `?` or `#`, with empty and `.`
/// segments dropped, `..` resolved, and one leading slash.
pub open spec fn spec_normalize_path(path: Seq<char>) -> Seq<char> {
    let t = trim(path);
    let no_query = before_first(t, '?');
    let no_fragment = before_first(no_query, '#');
    seq!['/'] + join_slash(resolve(split_slash(no_fragment)))
}

/// `prefix` admits the normalized path `n`: a prefix ending in `/` admits itself without the
/// slash and what starts with it; any other prefix admits itself and what starts with it and `/`.
pub open spec fn prefix_allows(prefix: Seq<char>, n: Seq<char>) -> bool {
    if prefix.len() > 0 && prefix[prefix.len() - 1] == '/' {
        n == prefix.drop_last() || starts_with(n, prefix)
    } else {
        n == prefix || starts_with(n, prefix + seq!['/'])
    }
}

pub open spec fn path_allowed(n: Seq<char>) -> bool {
    exists|i: int| 0 <= i < escape_prefixes().len() && prefix_allows(#[trigger] escape_prefixes()[i], n)
}

/// What [`assert_path_allowed`] gives for a path.
pub open spec fn spec_assert_path_allowed(path: Seq<char>) -> Result<Seq<char>, ErrorView> {
    let n = spec_normalize_path(path);
    if path_allowed(n) {
        Ok(n)
    } else {
        Err(client_error(
            "Path is not supported by this SDK: "@ + n,
            ErrorKind::PathNotAllowed,
            "client_error"@,
            "path_not_allowed"@,
            Some(false),
        ))
    }
}

pub open spec fn segs_view(v: Seq<Vec<char>>) -> Seq<Seq<char>> {
    v.map_values(|x: Vec<char>| x@)
}

fn first_of(s: &[char], c: char) -> (r: usize)
    ensures
        r == first_of_from(s@, c, 0),
        r <= s@.len(),
{
    let mut i: usize = 0;
    while i < s.len()
        invariant
            i <= s@.len(),
            first_of_from(s@, c, 0) == first_of_from(s@, c, i as int),
        decreases s.len() - i,
    {
        if s[i] == c {
            return i;
        }
        i = i + 1;
    }
    i
}

fn resolve_step_exec(stack: &mut Vec<Vec<char>>, part: Vec<char>)
    ensures
        segs_view(final(stack)@) == resolve_step(segs_view(old(stack)@), part@),
{
    let ghost old_view = segs_view(stack@);
    let n = part.len();
    if n == 0 || (n == 1 && part[0] == '.') {
        if n == 1 {
            assert(part@ =~= seq!['.']);
        }
        return;
    }
    if n == 2 && part[0] == '.' && part[1] == '.' {
        assert(part@ =~= seq!['.', '.']);
        if stack.len() > 0 {
            stack.pop();
            assert(segs_view(stack@) =~= old_view.drop_last());
        }
        return;
    }
    assert(part@ != seq!['.']) by {
        if part@ == seq!['.'] {
            assert(part@.len() == 1);
        }
    }
    assert(part@ != seq!['.', '.']) by {
        if part@ == seq!['.', '.'] {
            assert(part@.len() == 2);
            assert(part@[0] == '.' && part@[1] == '.');
        }
    }
    stack.push(part);
    assert(segs_view(stack@) =~= old_view.push(part@));
}

proof fn lemma_split_step(s: Seq<char>, i: int)
    requires
        0 <= i < s.len(),
    ensures
        split_slash(s.subrange(0, i + 1)) == ({
            let prev = split_slash(s.subrange(0, i));
            if s[i] == '/' {
                prev.push(Seq::<char>::empty())
            } else {
                prev.update(prev.len() - 1, prev[prev.len() - 1].push(s[i]))
            }
        }),
{
    assert(s.subrange(0, i + 1).subrange(0, i) =~= s.subrange(0, i));
}

proof fn lemma_split_nonempty(s: Seq<char>)
    ensures
        split_slash(s).len() >= 1,
    decreases s.len(),
{
    if s.len() > 0 {
        lemma_split_nonempty(s.subrange(0, s.len() - 1));
    }
}

/// The resolved segments of `s`.
fn resolve_segments(s: &[char]) -> (r: Vec<Vec<char>>)
    ensures
        segs_view(r@) == resolve(split_slash(s@)),
{
    let mut stack: Vec<Vec<char>> = Vec::new();
    let mut cur: Vec<char> = Vec::new();
    let mut i: usize = 0;
    proof {
        assert(s@.subrange(0, 0) =~= Seq::<char>::empty());
        assert(segs_view(stack@) =~= Seq::<Seq<char>>::empty());
        assert(split_slash(Seq::<char>::empty()).drop_last() =~= Seq::<Seq<char>>::empty());
    }
    while i < s.len()
        invariant
            i <= s@.len(),
            split_slash(s@.subrange(0, i as int)).len() >= 1,
            cur@ == split_slash(s@.subrange(0, i as int)).last(),
            segs_view(stack@) == resolve(split_slash(s@.subrange(0, i as int)).drop_last()),
        decreases s.len() - i,
    {
        let c = s[i];
        let ghost prev = split_slash(s@.subrange(0, i as int));
        proof {
            lemma_split_step(s@, i as int);
        }
        if c == '/' {
            let mut part: Vec<char> = Vec::new();
            std::mem::swap(&mut part, &mut cur);
            resolve_step_exec(&mut stack, part);
            proof {
                let next = prev.push(Seq::<char>::empty());
                assert(next.drop_last() =~= prev);
                assert(prev =~= prev.drop_last().push(prev.last()));
                assert(resolve(prev) == resolve_step(resolve(prev.drop_last()), prev.last()));
            }
        } else {
            cur.push(c);
            proof {
                let next = prev.update(prev.len() - 1, prev[prev.len() - 1].push(c));
                assert(next.drop_last() =~= prev.drop_last());
            }
        }
        i = i + 1;
    }
    assert(s@.subrange(0, s@.len() as int) =~= s@);
    let ghost parts = split_slash(s@);
    let last = cur;
    resolve_step_exec(&mut stack, last);
    proof {
        assert(parts =~= parts.drop_last().push(parts.last()));
        assert(resolve(parts) == resolve_step(resolve(parts.drop_last()), parts.last()));
    }
    stack
}

/// Joins segments with single slashes behind a leading slash.
fn join_with_slash(segs: &Vec<Vec<char>>) -> (r: Vec<char>)
    ensures
        r@ == seq!['/'] + join_slash(segs_view(segs@)),
{
    let mut r: Vec<char> = Vec::new();
    r.push('/');
    let mut i: usize = 0;
    proof {
        assert(segs_view(segs@).subrange(0, 0) =~= Seq::<Seq<char>>::empty());
        assert(r@ =~= seq!['/'] + join_slash(Seq::<Seq<char>>::empty()));
    }
    while i < segs.len()
        invariant
            i <= segs@.len(),
            r@ == seq!['/'] + join_slash(segs_view(segs@).subrange(0, i as int)),
        decreases segs.len() - i,
    {
        let ghost before = segs_view(segs@).subrange(0, i as int);
        if i > 0 {
            r.push('/');
        }
        let seg = &segs[i];
        let mut j: usize = 0;
        let ghost base = r@;
        while j < seg.len()
            invariant
                j <= seg@.len(),
                r@ == base + seg@.subrange(0, j as int),
            decreases seg.len() - j,
        {
            r.push(seg[j]);
            j = j + 1;
            assert(r@ =~= base + seg@.subrange(0, j as int));
        }
        proof {
            let after = segs_view(segs@).subrange(0, i + 1);
            assert(after.drop_last() =~= before);
            assert(after.last() == seg@);
            assert(seg@.subrange(0, seg@.len() as int) =~= seg@);
            if i == 0 {
                assert(r@ =~= seq!['/'] + join_slash(after));
            } else {
                assert(r@ =~= seq!['/'] + join_slash(after));
            }
        }
        i = i + 1;
    }
    assert(segs_view(segs@).subrange(0, segs@.len() as int) =~= segs_view(segs@));
    r
}

fn normalize_chars(path: &str) -> (r: Vec<char>)
    ensures
        r@ == spec_normalize_path(path@),
{
    let chars = chars_of(path);
    let t = trim_chars(&chars);
    let q = first_of(&t, '?');
    let no_query = crate::text::slice_chars(&t, 0, q);
    let h = first_of(&no_query, '#');
    let no_fragment = crate::text::slice_chars(&no_query, 0, h);
    let segs = resolve_segments(&no_fragment);
    join_with_slash(&segs)
}

/// The normal form of a request path (see [`spec_normalize_path`]).
pub fn normalize_path(path: &str) -> (r: String)
    ensures
        r@ == spec_normalize_path(path@),
{
    let v = normalize_chars(path);
    string_from_chars(&v)
}

fn prefix_allows_exec(prefix: &str, n: &[char]) -> (r: bool)
    ensures
        r == prefix_allows(prefix@, n@),
{
    let p = chars_of(prefix);
    let len = p.len();
    if len > 0 && p[len - 1] == '/' {
        let bare = crate::text::slice_chars(&p, 0, len - 1);
        assert(bare@ =~= p@.drop_last());
        chars_equal(n, &bare) || seq_starts_with(n, &p)
    } else {
        let mut with_slash = p.clone();
        with_slash.push('/');
        assert(with_slash@ =~= p@ + seq!['/']);
        chars_equal(n, &p) || seq_starts_with(n, &with_slash)
    }
}

fn chars_equal(a: &[char], b: &[char]) -> (r: bool)
    ensures
        r == (a@ == b@),
{
    if a.len() != b.len() {
        return false;
    }
    let r = seq_starts_with(a, b);
    assert(a@.subrange(0, b@.len() as int) =~= a@);
    r
}

/// The normalized path when the client supports it; the `path_not_allowed` error otherwise.
pub fn assert_path_allowed(path: &str) -> (r: Result<String, ToniaError>)
    ensures
        match r {
            Ok(p) => spec_assert_path_allowed(path@) == Ok::<Seq<char>, ErrorView>(p@),
            Err(e) => spec_assert_path_allowed(path@) == Err::<Seq<char>, ErrorView>(e@),
        },
{
    let n = normalize_chars(path);
    let prefixes = ESCAPE_HATCH_PREFIXES;
    let mut i: usize = 0;
    while i < 12
        invariant
            i <= 12,
            n@ == spec_normalize_path(path@),
            prefixes@.len() == 12,
            forall|j: int| 0 <= j < 12 ==> (#[trigger] prefixes@[j])@ == escape_prefixes()[j],
            forall|j: int| 0 <= j < i ==> !prefix_allows(#[trigger] escape_prefixes()[j], n@),
        decreases 12 - i,
    {
        if prefix_allows_exec(prefixes[i], &n) {
            let s = string_from_chars(&n);
            return Ok(s);
        }
        i = i + 1;
    }
    let s = string_from_chars(&n);
    Err(ToniaError::path_not_allowed(s.as_str()))
}

/// A segment that resolution keeps as it is.
pub open spec fn plain_segment(x: Seq<char>) -> bool {
    &&& x.len() > 0
    &&& x != seq!['.']
    &&& x != seq!['.', '.']
    &&& forall|k: int| 0 <= k < x.len() ==> x[k] != '/' && x[k] != '?' && x[k] != '#'
}

pub open spec fn all_plain(r: Seq<Seq<char>>) -> bool {
    forall|k: int| 0 <= k < r.len() ==> plain_segment(#[trigger] r[k])
}

pub open spec fn lacks(s: Seq<char>, c: char) -> bool {
    forall|k: int| 0 <= k < s.len() ==> s[k] != c
}

proof fn lemma_first_of_absent(s: Seq<char>, c: char, i: int)
    requires
        0 <= i <= s.len(),
        lacks(s, c),
    ensures
        first_of_from(s, c, i) == s.len(),
    decreases s.len() - i,
{
    if i < s.len() {
        lemma_first_of_absent(s, c, i + 1);
    }
}

proof fn lemma_first_of_bound(s: Seq<char>, c: char, i: int)
    requires
        0 <= i <= s.len(),
    ensures
        i <= first_of_from(s, c, i) <= s.len(),
        forall|k: int| i <= k < first_of_from(s, c, i) ==> s[k] != c,
    decreases s.len() - i,
{
    if i < s.len() && s[i] != c {
        lemma_first_of_bound(s, c, i + 1);
    }
}

/// The parts of a split hold no slash, and only characters of the text.
proof fn lemma_split_parts(s: Seq<char>)
    ensures
        split_slash(s).len() >= 1,
        forall|k: int, m: int| 0 <= k < split_slash(s).len() && 0 <= m < split_slash(s)[k].len()
            ==> split_slash(s)[k][m] != '/' && exists|j: int| 0 <= j < s.len() && s[j] == #[trigger] split_slash(s)[k][m],
    decreases s.len(),
{
    if s.len() > 0 {
        let t = s.subrange(0, s.len() - 1);
        lemma_split_parts(t);
        let prev = split_slash(t);
        let c = s[s.len() - 1];
        assert forall|k: int, m: int| 0 <= k < split_slash(s).len() && 0 <= m < split_slash(s)[k].len()
            implies split_slash(s)[k][m] != '/' && exists|j: int| 0 <= j < s.len() && s[j] == #[trigger] split_slash(s)[k][m] by {
            let x = split_slash(s)[k][m];
            if c == '/' {
                if k < prev.len() {
                    let j = choose|j: int| 0 <= j < t.len() && t[j] == prev[k][m];
                    assert(s[j] == x);
                }
            } else {
                if k < prev.len() - 1 {
                    let j = choose|j: int| 0 <= j < t.len() && t[j] == prev[k][m];
                    assert(s[j] == x);
                } else if m < prev[k].len() {
                    let j = choose|j: int| 0 <= j < t.len() && t[j] == prev[k][m];
                    assert(s[j] == x);
                } else {
                    assert(s[s.len() - 1] == x);
                }
            }
        }
    }
}

/// Resolution keeps only plain parts.
proof fn lemma_resolve_plain(parts: Seq<Seq<char>>)
    requires
        forall|k: int, m: int| 0 <= k < parts.len() && 0 <= m < parts[k].len()
            ==> #[trigger] parts[k][m] != '/' && parts[k][m] != '?' && parts[k][m] != '#',
    ensures
        all_plain(resolve(parts)),
    decreases parts.len(),
{
    if parts.len() > 0 {
        let init = parts.drop_last();
        assert forall|k: int, m: int| 0 <= k < init.len() && 0 <= m < init[k].len()
            implies #[trigger] init[k][m] != '/' && init[k][m] != '?' && init[k][m] != '#' by {
            assert(init[k] == parts[k]);
        }
        lemma_resolve_plain(init);
        let prev = resolve(init);
        let x = parts.last();
        assert forall|m: int| 0 <= m < x.len() implies x[m] != '/' && x[m] != '?' && x[m] != '#' by {
            assert(x == parts[parts.len() - 1]);
            assert(parts[parts.len() - 1][m] != '/');
        }
        let next = resolve_step(prev, x);
        assert forall|k: int| 0 <= k < next.len() implies plain_segment(#[trigger] next[k]) by {
            if k < prev.len() {
                assert(next[k] == prev[k]);
            }
        }
    }
}

/// Normalized paths are plain segments behind a slash.
proof fn lemma_normalize_shape(path: Seq<char>)
    ensures
        all_plain(resolve(split_slash(before_first(before_first(trim(path), '?'), '#')))),
{
    let t = trim(path);
    let q = before_first(t, '?');
    let h = before_first(q, '#');
    lemma_first_of_bound(t, '?', 0);
    lemma_first_of_bound(q, '#', 0);
    lemma_split_parts(h);
    let parts = split_slash(h);
    assert forall|k: int, m: int| 0 <= k < parts.len() && 0 <= m < parts[k].len()
        implies #[trigger] parts[k][m] != '/' && parts[k][m] != '?' && parts[k][m] != '#' by {
        let j = choose|j: int| 0 <= j < h.len() && h[j] == parts[k][m];
        assert(h[j] == q[j]);
        assert(q[j] == t[j]);
    }
    lemma_resolve_plain(parts);
}

proof fn lemma_trim_start_id(s: Seq<char>)
    requires
        s.len() > 0 ==> !crate::text::is_ws(s[0]),
    ensures
        crate::text::trim_start(s) == s,
{
}

proof fn lemma_trim_end_id(s: Seq<char>)
    requires
        s.len() > 0 ==> !crate::text::is_ws(s[s.len() - 1]),
    ensures
        crate::text::trim_end(s) == s,
{
}

/// Appending characters without a slash extends the last part of a split.
proof fn lemma_split_append(t: Seq<char>, x: Seq<char>)
    requires
        lacks(x, '/'),
    ensures
        split_slash(t).len() >= 1,
        split_slash(t + x) == split_slash(t).update(split_slash(t).len() - 1, split_slash(t).last() + x),
    decreases x.len(),
{
    lemma_split_nonempty(t);
    if x.len() == 0 {
        assert(t + x =~= t);
        assert(split_slash(t).last() + x =~= split_slash(t).last());
        assert(split_slash(t).update(split_slash(t).len() - 1, split_slash(t).last()) =~= split_slash(t));
    } else {
        let y = x.drop_last();
        lemma_split_append(t, y);
        let s = t + x;
        assert(s.subrange(0, s.len() - 1) =~= t + y);
        assert(s[s.len() - 1] == x.last());
        let p = split_slash(t);
        let q = p.update(p.len() - 1, p.last() + y);
        assert(q.update(q.len() - 1, q[q.len() - 1].push(x.last())) =~= p.update(p.len() - 1, p.last() + x)) by {
            assert((p.last() + y).push(x.last()) =~= p.last() + x);
        }
    }
}

/// A slash followed by joined plain segments splits back into an empty part and the segments.
proof fn lemma_split_join(r: Seq<Seq<char>>)
    requires
        r.len() >= 1,
        all_plain(r),
    ensures
        split_slash(seq!['/'] + join_slash(r)) == seq![Seq::<char>::empty()] + r,
    decreases r.len(),
{
    let slash = seq!['/'];
    assert(lacks(r.last(), '/')) by {
        assert(plain_segment(r[r.len() - 1]));
    }
    if r.len() == 1 {
        lemma_split_slash_alone();
        lemma_split_append(slash, r[0]);
        assert(join_slash(r) == r[0]);
        assert(seq![Seq::<char>::empty(), Seq::<char>::empty()].update(1, Seq::<char>::empty() + r[0]) =~= seq![Seq::<char>::empty()] + r) by {
            assert(Seq::<char>::empty() + r[0] =~= r[0]);
        }
    } else {
        let init = r.drop_last();
        assert(all_plain(init)) by {
            assert forall|k: int| 0 <= k < init.len() implies plain_segment(#[trigger] init[k]) by {
                assert(init[k] == r[k]);
            }
        }
        lemma_split_join(init);
        let a = slash + join_slash(init);
        let b = a + slash;
        assert(slash + join_slash(r) =~= b + r.last());
        assert(b.subrange(0, b.len() - 1) =~= a);
        assert(split_slash(b) == split_slash(a).push(Seq::<char>::empty()));
        lemma_split_append(b, r.last());
        let p = split_slash(b);
        assert(p.update(p.len() - 1, p.last() + r.last()) =~= seq![Seq::<char>::empty()] + r) by {
            assert(Seq::<char>::empty() + r.last() =~= r.last());
            assert(init =~= r.subrange(0, r.len() - 1));
        }
    }
}

proof fn lemma_split_slash_alone()
    ensures
        split_slash(seq!['/']) == seq![Seq::<char>::empty(), Seq::<char>::empty()],
{
    let s = seq!['/'];
    assert(s.subrange(0, 0) =~= Seq::<char>::empty());
    assert(split_slash(Seq::<char>::empty()) == seq![Seq::<char>::empty()]);
    assert(s[0] == '/');
    assert(seq![Seq::<char>::empty()].push(Seq::<char>::empty()) =~= seq![Seq::<char>::empty(), Seq::<char>::empty()]);
}

/// Resolving an empty part and plain segments gives the segments back.
proof fn lemma_resolve_plain_id(r: Seq<Seq<char>>)
    requires
        all_plain(r),
    ensures
        resolve(seq![Seq::<char>::empty()] + r) == r,
    decreases r.len(),
{
    let e = seq![Seq::<char>::empty()];
    if r.len() == 0 {
        assert(e + r =~= e);
        assert(e.drop_last() =~= Seq::<Seq<char>>::empty());
        assert(resolve(Seq::<Seq<char>>::empty()) == Seq::<Seq<char>>::empty());
        assert(resolve(e) == resolve_step(resolve(e.drop_last()), e.last()));
    } else {
        let init = r.drop_last();
        assert(all_plain(init)) by {
            assert forall|k: int| 0 <= k < init.len() implies plain_segment(#[trigger] init[k]) by {
                assert(init[k] == r[k]);
            }
        }
        lemma_resolve_plain_id(init);
        assert((e + r).drop_last() =~= e + init);
        assert((e + r).last() == r.last());
        assert(plain_segment(r[r.len() - 1]));
        assert(resolve(e + r) == resolve_step(resolve(e + init), r.last()));
        assert(init.push(r.last()) =~= r);
    }
}

/// Normalizing twice gives what normalizing once gave, when that does not end in whitespace
/// (a trailing space before a final slash survives the first pass and is trimmed by the second).
pub proof fn law_normalize_idempotent(path: Seq<char>)
    requires
        !crate::text::is_ws(spec_normalize_path(path).last()),
    ensures
        spec_normalize_path(spec_normalize_path(path)) == spec_normalize_path(path),
{
    let n = spec_normalize_path(path);
    let r = resolve(split_slash(before_first(before_first(trim(path), '?'), '#')));
    lemma_normalize_shape(path);
    assert(n == seq!['/'] + join_slash(r));
    assert(n[0] == '/');
    lemma_trim_start_id(n);
    lemma_trim_end_id(n);
    assert(trim(n) == n);
    assert(lacks(n, '?') && lacks(n, '#')) by {
        lemma_join_lacks(r);
    }
    lemma_first_of_absent(n, '?', 0);
    assert(before_first(n, '?') =~= n);
    lemma_first_of_absent(n, '#', 0);
    assert(before_first(n, '#') =~= n);
    if r.len() == 0 {
        assert(n =~= seq!['/']);
        lemma_split_slash_alone();
        let two = seq![Seq::<char>::empty(), Seq::<char>::empty()];
        let one = seq![Seq::<char>::empty()];
        assert(two.drop_last() =~= one);
        assert(one.drop_last() =~= Seq::<Seq<char>>::empty());
        assert(resolve(one) == resolve_step(resolve(one.drop_last()), one.last()));
        assert(resolve(one) == Seq::<Seq<char>>::empty());
        assert(resolve(two) == resolve_step(resolve(two.drop_last()), two.last()));
        assert(resolve(split_slash(n)) == Seq::<Seq<char>>::empty());
        assert(spec_normalize_path(n) == seq!['/'] + join_slash(resolve(split_slash(n))));
        assert(seq!['/'] + join_slash(Seq::<Seq<char>>::empty()) =~= n);
    } else {
        lemma_split_join(r);
        lemma_resolve_plain_id(r);
        assert(resolve(split_slash(n)) == r);
        assert(spec_normalize_path(n) == seq!['/'] + join_slash(resolve(split_slash(n))));
    }
}

proof fn lemma_join_lacks(r: Seq<Seq<char>>)
    requires
        all_plain(r),
    ensures
        lacks(seq!['/'] + join_slash(r), '?'),
        lacks(seq!['/'] + join_slash(r), '#'),
    decreases r.len(),
{
    if r.len() >= 2 {
        let init = r.drop_last();
        assert(all_plain(init)) by {
            assert forall|k: int| 0 <= k < init.len() implies plain_segment(#[trigger] init[k]) by {
                assert(init[k] == r[k]);
            }
        }
        lemma_join_lacks(init);
        assert(plain_segment(r[r.len() - 1]));
        let j = seq!['/'] + join_slash(r);
        assert(j =~= (seq!['/'] + join_slash(init)) + seq!['/'] + r.last());
    } else if r.len() == 1 {
        assert(plain_segment(r[0]));
    }
}

/// A slash and plain segments, not ending in whitespace, are their own normal form.
pub(crate) proof fn lemma_normal_form(r: Seq<Seq<char>>)
    requires
        r.len() >= 1,
        all_plain(r),
        !crate::text::is_ws(r.last().last()),
    ensures
        spec_normalize_path(seq!['/'] + join_slash(r)) == seq!['/'] + join_slash(r),
    decreases r.len(),
{
    let n = seq!['/'] + join_slash(r);
    assert(plain_segment(r[r.len() - 1]));
    if r.len() == 1 {
        assert(join_slash(r) == r[0]);
    } else {
        assert(join_slash(r) == join_slash(r.drop_last()) + seq!['/'] + r.last());
    }
    assert(n.last() == r.last().last());
    assert(n[0] == '/');
    lemma_trim_start_id(n);
    lemma_trim_end_id(n);
    assert(trim(n) == n);
    lemma_join_lacks(r);
    lemma_first_of_absent(n, '?', 0);
    assert(before_first(n, '?') =~= n);
    lemma_first_of_absent(n, '#', 0);
    assert(before_first(n, '#') =~= n);
    lemma_split_join(r);
    lemma_resolve_plain_id(r);
    assert(resolve(split_slash(n)) == r);
}

/// The segments of the normal form of a path: those of its trimmed text before any `?` or `#`,
/// with dot segments resolved.
pub open spec fn normal_segments(path: Seq<char>) -> Seq<Seq<char>> {
    resolve(split_slash(before_first(before_first(trim(path), '?'), '#')))
}

/// Each segment that resolution keeps is one of the parts it was given.
proof fn lemma_resolve_elems(parts: Seq<Seq<char>>)
    ensures
        forall|k: int| 0 <= k < resolve(parts).len() ==>
            exists|i: int| 0 <= i < parts.len() && #[trigger] resolve(parts)[k] == parts[i],
    decreases parts.len(),
{
    if parts.len() > 0 {
        let init = parts.drop_last();
        lemma_resolve_elems(init);
        let prev = resolve(init);
        assert forall|k: int| 0 <= k < resolve(parts).len() implies
            exists|i: int| 0 <= i < parts.len() && #[trigger] resolve(parts)[k] == parts[i] by {
            if k < prev.len() && resolve(parts)[k] == prev[k] {
                let i = choose|i: int| 0 <= i < init.len() && prev[k] == init[i];
                assert(parts[i] == init[i]);
            } else {
                assert(resolve(parts)[k] == parts[parts.len() - 1]);
            }
        }
    }
}

/// The normal form of a path is a slash followed by plain segments joined by single slashes:
/// it holds no `?` or `#`, no empty, `.` or `..` segment (so no `//`), and ends in a slash only
/// when it is `/` itself, which is what a blank path gives.
pub proof fn law_normal_form_shape(path: Seq<char>)
    ensures
        spec_normalize_path(path) == seq!['/'] + join_slash(normal_segments(path)),
        all_plain(normal_segments(path)),
        lacks(spec_normalize_path(path), '?'),
        lacks(spec_normalize_path(path), '#'),
        normal_segments(path).len() >= 1 ==> split_slash(spec_normalize_path(path))
            == seq![Seq::<char>::empty()] + normal_segments(path),
        normal_segments(path).len() >= 1 ==> spec_normalize_path(path).last() != '/',
        normal_segments(path).len() == 0 ==> spec_normalize_path(path) == seq!['/'],
        trim(path).len() == 0 ==> spec_normalize_path(path) == seq!['/'],
{
    let r = normal_segments(path);
    let n = spec_normalize_path(path);
    lemma_normalize_shape(path);
    lemma_join_lacks(r);
    if r.len() >= 1 {
        lemma_split_join(r);
        assert(plain_segment(r[r.len() - 1]));
        if r.len() == 1 {
            assert(join_slash(r) == r[0]);
        } else {
            assert(join_slash(r) == join_slash(r.drop_last()) + seq!['/'] + r.last());
        }
        assert(n.last() == r.last().last());
    } else {
        assert(n =~= seq!['/']);
    }
    if trim(path).len() == 0 {
        let t = trim(path);
        let e = Seq::<char>::empty();
        assert(first_of_from(t, '?', 0) == 0);
        assert(before_first(t, '?') =~= e);
        assert(first_of_from(e, '#', 0) == 0);
        assert(before_first(e, '#') =~= e);
        let one = seq![e];
        assert(split_slash(e) == one);
        assert(one.drop_last() =~= Seq::<Seq<char>>::empty());
        assert(resolve(one) == resolve_step(resolve(one.drop_last()), one.last()));
        assert(resolve(one) =~= Seq::<Seq<char>>::empty());
    }
}

/// Normalizing a path without whitespace twice gives what normalizing it once gave.
pub proof fn law_normalize_idempotent_without_whitespace(path: Seq<char>)
    requires
        forall|k: int| 0 <= k < path.len() ==> !crate::text::is_ws(#[trigger] path[k]),
    ensures
        spec_normalize_path(spec_normalize_path(path)) == spec_normalize_path(path),
{
    let n = spec_normalize_path(path);
    let r = normal_segments(path);
    law_normal_form_shape(path);
    if r.len() == 0 {
        assert(n.last() == '/');
    } else {
        if path.len() > 0 {
            assert(!crate::text::is_ws(path[0]));
            assert(!crate::text::is_ws(path[path.len() - 1]));
        }
        lemma_trim_start_id(path);
        lemma_trim_end_id(path);
        let t = trim(path);
        assert(t == path);
        let q = before_first(t, '?');
        let h = before_first(q, '#');
        lemma_first_of_bound(t, '?', 0);
        lemma_first_of_bound(q, '#', 0);
        let parts = split_slash(h);
        lemma_split_parts(h);
        lemma_resolve_elems(parts);
        let k = r.len() - 1;
        assert(plain_segment(r[k]));
        let i = choose|i: int| 0 <= i < parts.len() && r[k] == parts[i];
        let m = parts[i].len() - 1;
        assert(r.last().last() == parts[i][m]);
        let j = choose|j: int| 0 <= j < h.len() && h[j] == #[trigger] parts[i][m];
        assert(h[j] == q[j]);
        assert(q[j] == t[j]);
        assert(!crate::text::is_ws(path[j]));
        if r.len() == 1 {
            assert(join_slash(r) == r[0]);
        } else {
            assert(join_slash(r) == join_slash(r.drop_last()) + seq!['/'] + r.last());
        }
        assert(n.last() == r.last().last());
    }
    law_normalize_idempotent(path);
}

/// A path that the client accepts comes back unchanged when it is checked again, unless it
/// ends in whitespace.
pub proof fn law_allowed_path_is_stable(path: Seq<char>)
    requires
        spec_assert_path_allowed(path) is Ok,
        !crate::text::is_ws(spec_normalize_path(path).last()),
    ensures
        spec_assert_path_allowed(spec_normalize_path(path)) == spec_assert_path_allowed(path),
{
    law_normalize_idempotent(path);
}

} // verus!

//! Soft-limit warning headers on successful runtime responses.
use vstd::prelude::*;
use crate::text::{chars_of, eq_ignore_case, eq_ignore_case_exec};

verus! {

/// The view of a list of header pairs.
pub open spec fn hview(h: Seq<(String, String)>) -> Seq<(Seq<char>, Seq<char>)> {
    h.map_values(|p: (String, String)| (p.0@, p.1@))
}

/// The value of the first header named `name` (ASCII case ignored) whose value is not empty.
pub open spec fn spec_header_get(h: Seq<(Seq<char>, Seq<char>)>, name: Seq<char>) -> Option<Seq<char>>
    decreases h.len(),
{
    if h.len() == 0 {
        None
    } else if eq_ignore_case(h[0].0, name) && h[0].1.len() > 0 {
        Some(h[0].1)
    } else {
        spec_header_get(h.subrange(1, h.len() as int), name)
    }
}

pub open spec fn opt_view(o: Option<String>) -> Option<Seq<char>> {
    match o {
        Some(s) => Some(s@),
        None => None,
    }
}

proof fn lemma_header_get_skip(h: Seq<(Seq<char>, Seq<char>)>, name: Seq<char>, i: int)
    requires
        0 <= i < h.len(),
        !(eq_ignore_case(h[i].0, name) && h[i].1.len() > 0),
    ensures
        spec_header_get(h.subrange(i, h.len() as int), name) == spec_header_get(h.subrange(i + 1, h.len() as int), name),
{
    assert(h.subrange(i, h.len() as int).subrange(1, h.len() - i) =~= h.subrange(i + 1, h.len() as int));
}

/// The value of the first header named `name`, ignoring ASCII case, whose value is not empty.
pub fn header_get<'a>(headers: &'a [(String, String)], name: &str) -> (r: Option<&'a str>)
    ensures
        match r {
            Some(v) => spec_header_get(hview(headers@), name@) == Some(v@),
            None => spec_header_get(hview(headers@), name@) is None,
        },
{
    let ghost h = hview(headers@);
    assert(h.subrange(0, h.len() as int) =~= h);
    let name_chars = chars_of(name);
    let mut i: usize = 0;
    while i < headers.len()
        invariant
            i <= headers@.len(),
            h == hview(headers@),
            name_chars@ == name@,
            spec_header_get(h, name@) == spec_header_get(h.subrange(i as int, h.len() as int), name@),
        decreases headers.len() - i,
    {
        let key_chars = chars_of(headers[i].0.as_str());
        let value = headers[i].1.as_str();
        if eq_ignore_case_exec(&key_chars, &name_chars) && !value.is_empty() {
            assert(h.subrange(i as int, h.len() as int)[0] == h[i as int]);
            return Some(value);
        }
        proof { lemma_header_get_skip(h, name@, i as int); }
        i = i + 1;
    }
    None
}

/// The soft-limit headers of a response.
#[derive(Debug, Clone, PartialEq, Eq)]
pub struct LimitInfo {
    pub warning: Option<String>,
    pub scope: Option<String>,
    pub kind: Option<String>,
    pub used: Option<String>,
    pub value: Option<String>,
    pub remaining: Option<String>,
    pub period_ends_at: Option<String>,
}

/// The mathematical value of a [`LimitInfo`].
pub struct LimitView {
    pub warning: Option<Seq<char>>,
    pub scope: Option<Seq<char>>,
    pub kind: Option<Seq<char>>,
    pub used: Option<Seq<char>>,
    pub value: Option<Seq<char>>,
    pub remaining: Option<Seq<char>>,
    pub period_ends_at: Option<Seq<char>>,
}

impl View for LimitInfo {
    type V = LimitView;

    open spec fn view(&self) -> LimitView {
        LimitView {
            warning: opt_view(self.warning),
            scope: opt_view(self.scope),
            kind: opt_view(self.kind),
            used: opt_view(self.used),
            value: opt_view(self.value),
            remaining: opt_view(self.remaining),
            period_ends_at: opt_view(self.period_ends_at),
        }
    }
}

pub open spec fn opt_limits(o: Option<LimitInfo>) -> Option<LimitView> {
    match o {
        Some(l) => Some(l@),
        None => None,
    }
}

/// The seven soft-limit headers read from `h`.
pub open spec fn limit_fields(h: Seq<(Seq<char>, Seq<char>)>) -> LimitView {
    LimitView {
        warning: spec_header_get(h, "x-tonia-limit-warning"@),
        scope: spec_header_get(h, "x-tonia-limit-scope"@),
        kind: spec_header_get(h, "x-tonia-limit-kind"@),
        used: spec_header_get(h, "x-tonia-limit-used"@),
        value: spec_header_get(h, "x-tonia-limit-value"@),
        remaining: spec_header_get(h, "x-tonia-limit-remaining"@),
        period_ends_at: spec_header_get(h, "x-tonia-limit-period-ends-at"@),
    }
}

/// The limit information of a response: `None` when no soft-limit header is set.
pub open spec fn spec_limits_from_headers(h: Seq<(Seq<char>, Seq<char>)>) -> Option<LimitView> {
    let f = limit_fields(h);
    if h.len() > 0 && (f.warning is Some || f.scope is Some || f.kind is Some || f.used is Some
        || f.value is Some || f.remaining is Some || f.period_ends_at is Some) {
        Some(f)
    } else {
        None
    }
}

fn owned_header(headers: &[(String, String)], name: &str) -> (r: Option<String>)
    ensures
        opt_view(r) == spec_header_get(hview(headers@), name@),
{
    match header_get(headers, name) {
        Some(v) => Some(v.to_owned()),
        None => None,
    }
}

/// Reads the soft-limit headers of a successful response.
pub fn limits_from_headers(headers: &[(String, String)]) -> (r: Option<LimitInfo>)
    ensures
        opt_limits(r) == spec_limits_from_headers(hview(headers@)),
{
    if headers.len() == 0 {
        return None;
    }
    let info = LimitInfo {
        warning: owned_header(headers, "x-tonia-limit-warning"),
        scope: owned_header(headers, "x-tonia-limit-scope"),
        kind: owned_header(headers, "x-tonia-limit-kind"),
        used: owned_header(headers, "x-tonia-limit-used"),
        value: owned_header(headers, "x-tonia-limit-value"),
        remaining: owned_header(headers, "x-tonia-limit-remaining"),
        period_ends_at: owned_header(headers, "x-tonia-limit-period-ends-at"),
    };
    let any_set = info.warning.is_some() || info.scope.is_some() || info.kind.is_some()
        || info.used.is_some() || info.value.is_some() || info.remaining.is_some()
        || info.period_ends_at.is_some();
    if any_set {
        Some(info)
    } else {
        None
    }
}

/// The pair sets header `name`: its name is `name`, ASCII case ignored, and its value is not empty.
pub open spec fn sets_header(p: (Seq<char>, Seq<char>), name: Seq<char>) -> bool {
    eq_ignore_case(p.0, name) && p.1.len() > 0
}

/// Pair `i` is the first of `h` that sets header `name`.
pub open spec fn first_setting(h: Seq<(Seq<char>, Seq<char>)>, name: Seq<char>, i: int) -> bool {
    &&& 0 <= i < h.len()
    &&& sets_header(h[i], name)
    &&& forall|j: int| 0 <= j < i ==> !sets_header(#[trigger] h[j], name)
}

/// No pair of `h` sets header `name`.
pub open spec fn never_set(h: Seq<(Seq<char>, Seq<char>)>, name: Seq<char>) -> bool {
    forall|i: int| 0 <= i < h.len() ==> !sets_header(#[trigger] h[i], name)
}

proof fn lemma_header_get_first(h: Seq<(Seq<char>, Seq<char>)>, name: Seq<char>, i: int)
    requires
        first_setting(h, name, i),
    ensures
        spec_header_get(h, name) == Some(h[i].1),
    decreases i,
{
    if i > 0 {
        assert(!sets_header(h[0], name));
        let t = h.subrange(1, h.len() as int);
        assert forall|j: int| 0 <= j < i - 1 implies !sets_header(#[trigger] t[j], name) by {
            assert(t[j] == h[j + 1]);
        }
        assert(t[i - 1] == h[i]);
        lemma_header_get_first(t, name, i - 1);
    }
}

proof fn lemma_header_get_none(h: Seq<(Seq<char>, Seq<char>)>, name: Seq<char>)
    requires
        never_set(h, name),
    ensures
        spec_header_get(h, name) is None,
    decreases h.len(),
{
    if h.len() > 0 {
        assert(!sets_header(h[0], name));
        let t = h.subrange(1, h.len() as int);
        assert forall|j: int| 0 <= j < t.len() implies !sets_header(#[trigger] t[j], name) by {
            assert(t[j] == h[j + 1]);
        }
        lemma_header_get_none(t, name);
    }
}

/// The header that field `k` of the limit information reads, in the order warning, scope, kind,
/// used, value, remaining, period end.
pub open spec fn limit_header(k: int) -> Seq<char> {
    if k == 0 { "x-tonia-limit-warning"@ }
    else if k == 1 { "x-tonia-limit-scope"@ }
    else if k == 2 { "x-tonia-limit-kind"@ }
    else if k == 3 { "x-tonia-limit-used"@ }
    else if k == 4 { "x-tonia-limit-value"@ }
    else if k == 5 { "x-tonia-limit-remaining"@ }
    else { "x-tonia-limit-period-ends-at"@ }
}

/// Field `k` of the limit information, in the same order.
pub open spec fn limit_field(v: LimitView, k: int) -> Option<Seq<char>> {
    if k == 0 { v.warning }
    else if k == 1 { v.scope }
    else if k == 2 { v.kind }
    else if k == 3 { v.used }
    else if k == 4 { v.value }
    else if k == 5 { v.remaining }
    else { v.period_ends_at }
}

/// Each field of the limit information is the value of the first pair that sets its own
/// header (name compared ignoring ASCII case, empty values skipped), and is absent when no pair
/// sets it; the information is given exactly when some pair sets one of the seven headers.
pub proof fn law_limits_read_their_own_headers(h: Seq<(Seq<char>, Seq<char>)>)
    ensures
        spec_limits_from_headers(h) is Some
            <==> exists|k: int, i: int| 0 <= k < 7 && 0 <= i < h.len() && #[trigger] sets_header(h[i], limit_header(k)),
        forall|k: int, i: int| 0 <= k < 7 && #[trigger] first_setting(h, limit_header(k), i)
            ==> (spec_limits_from_headers(h) matches Some(v) && limit_field(v, k) == Some(h[i].1)),
        forall|k: int| 0 <= k < 7 && #[trigger] never_set(h, limit_header(k))
            ==> (spec_limits_from_headers(h) matches Some(v) ==> limit_field(v, k) is None),
{
    let f = limit_fields(h);
    assert forall|k: int| 0 <= k < 7 implies #[trigger] limit_field(f, k) == spec_header_get(h, limit_header(k)) by {}
    assert forall|k: int, i: int| 0 <= k < 7 && #[trigger] first_setting(h, limit_header(k), i)
        implies (spec_limits_from_headers(h) matches Some(v) && limit_field(v, k) == Some(h[i].1)) by {
        lemma_header_get_first(h, limit_header(k), i);
        assert(limit_field(f, k) == spec_header_get(h, limit_header(k)));
    }
    assert forall|k: int| 0 <= k < 7 && #[trigger] never_set(h, limit_header(k))
        implies (spec_limits_from_headers(h) matches Some(v) ==> limit_field(v, k) is None) by {
        lemma_header_get_none(h, limit_header(k));
        assert(limit_field(f, k) == spec_header_get(h, limit_header(k)));
    }
    if exists|k: int, i: int| 0 <= k < 7 && 0 <= i < h.len() && #[trigger] sets_header(h[i], limit_header(k)) {
        let (k, i) = choose|k: int, i: int| 0 <= k < 7 && 0 <= i < h.len() && #[trigger] sets_header(h[i], limit_header(k));
        let name = limit_header(k);
        lemma_first_exists(h, name, i);
        let i0 = choose|i0: int| first_setting(h, name, i0);
        lemma_header_get_first(h, name, i0);
        assert(limit_field(f, k) == spec_header_get(h, name));
    } else {
        assert forall|k: int| 0 <= k < 7 implies limit_field(f, k) is None by {
            assert forall|i: int| 0 <= i < h.len() implies !sets_header(#[trigger] h[i], limit_header(k)) by {}
            lemma_header_get_none(h, limit_header(k));
        }
        assert(limit_field(f, 0) is None && limit_field(f, 1) is None && limit_field(f, 2) is None
            && limit_field(f, 3) is None && limit_field(f, 4) is None && limit_field(f, 5) is None
            && limit_field(f, 6) is None);
    }
}

proof fn lemma_first_exists(h: Seq<(Seq<char>, Seq<char>)>, name: Seq<char>, i: int)
    requires
        0 <= i < h.len(),
        sets_header(h[i], name),
    ensures
        exists|i0: int| first_setting(h, name, i0),
    decreases i,
{
    if forall|j: int| 0 <= j < i ==> !sets_header(#[trigger] h[j], name) {
        assert(first_setting(h, name, i));
    } else {
        let j = choose|j: int| 0 <= j < i && !!sets_header(#[trigger] h[j], name);
        lemma_first_exists(h, name, j);
    }
}

} // verus!

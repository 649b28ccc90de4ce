//! Matching of a request's `Host` value against a site's configured host
//! patterns.
//!
//! A `HostMatcher` holds a duplicate-free collection of patterns, each either
//! a literal host name or a wildcard pattern.  Construction keeps the
//! distinct pattern strings in ascending lexicographic order, so the stored
//! collection — and with it every observable result — depends only on the
//! set of inputs, never on their order or multiplicity.  A matcher with no
//! patterns is the catch-all state and matches every host.

use vstd::prelude::*;

use crate::text::chars_lt;
use crate::text::lemma_chars_lt_total;
use crate::text::lemma_chars_lt_trans;
use crate::text::str_contains_char;
use crate::text::str_eq;
use crate::text::str_lt;
use crate::wildcard::wildcard_match;
use crate::wildcard::WildcardMatcher;

verus! {

/// The abstract form of one configured host pattern.
pub enum HostPattern {
    Literal(Seq<char>),
    Wildcard(Seq<char>),
}

/// How a raw pattern string is classified at construction: a string with a
/// `*` becomes a wildcard pattern, any other string a literal.
pub open spec fn classify(p: Seq<char>) -> HostPattern {
    if p.contains('*') {
        HostPattern::Wildcard(p)
    } else {
        HostPattern::Literal(p)
    }
}

/// Whether the strings stand in strictly ascending lexicographic order.
pub open spec fn strictly_sorted(xs: Seq<Seq<char>>) -> bool {
    forall|i: int, j: int| 0 <= i < j < xs.len() ==> chars_lt(xs[i], xs[j])
}

/// `x` placed before the first member above it.
pub open spec fn sorted_insert(xs: Seq<Seq<char>>, x: Seq<char>) -> Seq<Seq<char>>
    decreases xs.len(),
{
    if xs.len() == 0 {
        seq![x]
    } else if chars_lt(x, xs[0]) {
        seq![x] + xs
    } else {
        seq![xs[0]] + sorted_insert(xs.skip(1), x)
    }
}

/// The canonical form of the input pattern strings: every repeated value
/// dropped, the rest in ascending lexicographic order.
pub open spec fn canon_patterns(xs: Seq<Seq<char>>) -> Seq<Seq<char>>
    decreases xs.len(),
{
    if xs.len() == 0 {
        Seq::empty()
    } else {
        let front = canon_patterns(xs.drop_last());
        if front.contains(xs.last()) {
            front
        } else {
            sorted_insert(front, xs.last())
        }
    }
}

/// Classification of a whole sequence of raw pattern strings.
pub open spec fn classify_all(ps: Seq<Seq<char>>) -> Seq<HostPattern> {
    ps.map_values(|p: Seq<char>| classify(p))
}

/// Whether one pattern accepts the host.
pub open spec fn host_pattern_matches(p: HostPattern, host: Seq<char>) -> bool {
    match p {
        HostPattern::Literal(s) => s == host,
        HostPattern::Wildcard(w) => wildcard_match(w, host),
    }
}

/// Whether a pattern collection accepts the host: an empty collection accepts
/// everything, otherwise some member must match.
pub open spec fn host_matches(ps: Seq<HostPattern>, host: Seq<char>) -> bool {
    ps.len() == 0 || exists|i: int| 0 <= i < ps.len() && host_pattern_matches(ps[i], host)
}

/// The literal members of a pattern collection, in order.
pub open spec fn literal_patterns(ps: Seq<HostPattern>) -> Seq<Seq<char>>
    decreases ps.len(),
{
    if ps.len() == 0 {
        Seq::empty()
    } else {
        let front = literal_patterns(ps.drop_last());
        match ps.last() {
            HostPattern::Literal(s) => front.push(s),
            HostPattern::Wildcard(_) => front,
        }
    }
}

#[derive(Debug, Clone)]
enum HostMode {
    Text(String),
    Wild(WildcardMatcher),
}

/// A deduplicated collection of host patterns in canonical order; its view
/// is the abstract pattern collection.
#[derive(Debug, Clone)]
pub struct HostMatcher {
    modes: Vec<HostMode>,
}

impl View for HostMatcher {
    type V = Seq<HostPattern>;

    closed spec fn view(&self) -> Seq<HostPattern> {
        Seq::new(self.modes@.len(), |i: int| mode_view(self.modes@[i]))
    }
}

spec fn mode_view(m: HostMode) -> HostPattern {
    match m {
        HostMode::Text(s) => HostPattern::Literal(s@),
        HostMode::Wild(w) => HostPattern::Wildcard(w@),
    }
}

impl Default for HostMatcher {
    /// The catch-all matcher, with no patterns.
    fn default() -> (r: HostMatcher)
        ensures
            r@ =~= Seq::<HostPattern>::empty(),
    {
        HostMatcher { modes: Vec::new() }
    }
}

impl HostMatcher {
    /// Build a matcher from raw pattern strings: duplicates are dropped, the
    /// rest are kept in ascending order, and each is classified as a
    /// wildcard or a literal.
    pub fn new(items: Vec<&str>) -> (r: HostMatcher)
        ensures
            r@ == classify_all(canon_patterns(items.deep_view())),
    {
        let ghost all = items.deep_view();
        let mut modes: Vec<HostMode> = Vec::new();
        let mut seen: Vec<String> = Vec::new();
        let mut i: usize = 0;
        proof {
            assert(all.take(0) =~= Seq::<Seq<char>>::empty());
            assert(seen.deep_view() =~= canon_patterns(all.take(0)));
            assert(Seq::new(modes@.len(), |k: int| mode_view(modes@[k])) =~= classify_all(
                canon_patterns(all.take(0)),
            ));
        }
        while i < items.len()
            invariant
                i <= items.len(),
                all == items.deep_view(),
                all.len() == items.len(),
                seen.deep_view() == canon_patterns(all.take(i as int)),
                Seq::new(modes@.len(), |k: int| mode_view(modes@[k])) == classify_all(
                    canon_patterns(all.take(i as int)),
                ),
            decreases items.len() - i,
        {
            let item = items[i];
            proof {
                assert(all[i as int] == item@);
                assert(all.take(i as int + 1).drop_last() =~= all.take(i as int));
                assert(all.take(i as int + 1).last() == item@);
            }
            if !contains_string(&seen, item) {
                let is_wild = str_contains_char(item, '*');
                let mode = if is_wild {
                    HostMode::Wild(WildcardMatcher::new(item))
                } else {
                    HostMode::Text(item.to_owned())
                };
                proof {
                    assert(mode_view(mode) == classify(item@));
                }
                let j = insert_position(&seen, item);
                let ghost front = canon_patterns(all.take(i as int));
                let ghost target = sorted_insert(front, item@);
                proof {
                    lemma_sorted_insert_at(front, item@, j as int);
                    assert(canon_patterns(all.take(i as int + 1)) == target);
                    assert(target == front.take(j as int) + seq![item@] + front.skip(j as int));
                    assert(front.len() == seen@.len());
                    assert(classify_all(front).len() == front.len());
                    assert(modes@.len() == front.len());
                }
                let ghost prevv = seen@;
                let ghost prevm = modes@;
                modes.insert(j, mode);
                seen.insert(j, item.to_owned());
                proof {
                    assert(seen@.len() == prevv.len() + 1);
                    assert(modes@.len() == prevm.len() + 1);
                    assert(target.len() == front.len() + 1);
                    assert forall|k: int| 0 <= k < seen@.len() implies seen.deep_view()[k]
                        == target[k] by {
                        if k < j {
                            assert(seen@[k] == prevv[k]);
                            assert(prevv[k]@ == front[k]);
                            assert(target[k] == front[k]);
                        } else if k == j {
                            assert(target[k] == item@);
                            assert(seen@[k]@ == item@);
                        } else {
                            assert(seen@[k] == prevv[k - 1]);
                            assert(prevv[k - 1]@ == front[k - 1]);
                            assert(target[k] == front[k - 1]);
                        }
                    }
                    assert(seen.deep_view() =~= target);
                    assert forall|k: int| 0 <= k < modes@.len() implies mode_view(modes@[k])
                        == classify_all(target)[k] by {
                        assert(classify_all(target)[k] == classify(target[k]));
                        if k < j {
                            assert(modes@[k] == prevm[k]);
                            assert(mode_view(prevm[k]) == classify_all(front)[k]);
                            assert(classify_all(front)[k] == classify(front[k]));
                            assert(target[k] == front[k]);
                        } else if k == j {
                            assert(modes@[k] == mode);
                            assert(target[k] == item@);
                        } else {
                            assert(modes@[k] == prevm[k - 1]);
                            assert(mode_view(prevm[k - 1]) == classify_all(front)[k - 1]);
                            assert(classify_all(front)[k - 1] == classify(front[k - 1]));
                            assert(target[k] == front[k - 1]);
                        }
                    }
                    assert(Seq::new(modes@.len(), |k: int| mode_view(modes@[k])) =~= classify_all(
                        target,
                    ));
                }
            }
            i = i + 1;
        }
        proof {
            assert(all.take(items.len() as int) =~= all);
        }
        HostMatcher { modes }
    }

    /// The literal (non-wildcard) patterns, for diagnostics and display.
    pub fn get_raw(&self) -> (r: Vec<&String>)
        ensures
            r.deep_view() == literal_patterns(self@),
    {
        let mut r: Vec<&String> = Vec::new();
        let mut i: usize = 0;
        proof {
            assert(self@.take(0) =~= Seq::<HostPattern>::empty());
            assert(r.deep_view() =~= literal_patterns(self@.take(0)));
        }
        while i < self.modes.len()
            invariant
                i <= self.modes.len(),
                self@.len() == self.modes.len(),
                r.deep_view() == literal_patterns(self@.take(i as int)),
            decreases self.modes.len() - i,
        {
            proof {
                assert(self@.take(i as int + 1).drop_last() =~= self@.take(i as int));
                assert(self@.take(i as int + 1).last() == self@[i as int]);
                assert(self@[i as int] == mode_view(self.modes@[i as int]));
            }
            match &self.modes[i] {
                HostMode::Text(s) => {
                    r.push(s);
                    proof {
                        assert(r.deep_view() =~= literal_patterns(self@.take(i as int + 1)));
                    }
                },
                HostMode::Wild(_) => {
                    proof {
                        assert(r.deep_view() =~= literal_patterns(self@.take(i as int + 1)));
                    }
                },
            }
            i = i + 1;
        }
        proof {
            assert(self@.take(self.modes.len() as int) =~= self@);
        }
        r
    }

    /// Whether the matcher holds no patterns at all.
    pub fn is_empty(&self) -> (r: bool)
        ensures
            r == (self@.len() == 0),
    {
        self.modes.is_empty()
    }

    /// Whether the host belongs to this site: true for the catch-all matcher,
    /// otherwise true exactly when some configured pattern matches.
    pub fn is_match(&self, host: &str) -> (r: bool)
        ensures
            r == host_matches(self@, host@),
    {
        if self.is_empty() {
            return true;
        }
        let mut i: usize = 0;
        while i < self.modes.len()
            invariant
                i <= self.modes.len(),
                self@.len() == self.modes.len(),
                forall|j: int| 0 <= j < i ==> !host_pattern_matches(self@[j], host@),
            decreases self.modes.len() - i,
        {
            proof {
                assert(self@[i as int] == mode_view(self.modes@[i as int]));
            }
            match &self.modes[i] {
                HostMode::Text(text) => {
                    if str_eq(text.as_str(), host) {
                        return true;
                    }
                },
                HostMode::Wild(wildcard) => {
                    if wildcard.is_match(host) {
                        return true;
                    }
                },
            }
            i = i + 1;
        }
        false
    }
}

/// Whether `s` equals some member of `v`.
fn contains_string(v: &Vec<String>, s: &str) -> (r: bool)
    ensures
        r == v.deep_view().contains(s@),
{
    let mut i: usize = 0;
    while i < v.len()
        invariant
            i <= v.len(),
            forall|j: int| 0 <= j < i ==> v.deep_view()[j] != s@,
        decreases v.len() - i,
    {
        if str_eq(v[i].as_str(), s) {
            proof {
                assert(v.deep_view()[i as int] == s@);
            }
            return true;
        }
        i = i + 1;
    }
    false
}

/// The index `item` belongs at: the first member above it, or the end.
fn insert_position(seen: &Vec<String>, item: &str) -> (j: usize)
    ensures
        j <= seen@.len(),
        forall|k: int| 0 <= k < j ==> !chars_lt(item@, seen.deep_view()[k]),
        j < seen@.len() ==> chars_lt(item@, seen.deep_view()[j as int]),
{
    let mut j: usize = 0;
    while j < seen.len()
        invariant
            j <= seen@.len(),
            forall|k: int| 0 <= k < j ==> !chars_lt(item@, seen.deep_view()[k]),
        decreases seen@.len() - j,
    {
        proof {
            assert(seen.deep_view()[j as int] == seen@[j as int]@);
        }
        if str_lt(item, seen[j].as_str()) {
            return j;
        }
        j = j + 1;
    }
    j
}

/// If no member before `j` is above `x` and the member at `j` (when there is
/// one) is, then inserting places `x` exactly at `j`.
proof fn lemma_sorted_insert_at(xs: Seq<Seq<char>>, x: Seq<char>, j: int)
    requires
        0 <= j <= xs.len(),
        forall|k: int| 0 <= k < j ==> !chars_lt(x, xs[k]),
        j < xs.len() ==> chars_lt(x, xs[j]),
    ensures
        sorted_insert(xs, x) == xs.take(j) + seq![x] + xs.skip(j),
    decreases xs.len(),
{
    if xs.len() == 0 {
        assert(seq![x] =~= xs.take(0) + seq![x] + xs.skip(0));
    } else if chars_lt(x, xs[0]) {
        assert(j == 0);
        assert(seq![x] + xs =~= xs.take(0) + seq![x] + xs.skip(0));
    } else {
        assert(j >= 1);
        let t = xs.skip(1);
        assert forall|k: int| 0 <= k < j - 1 implies !chars_lt(x, t[k]) by {
            assert(t[k] == xs[k + 1]);
        }
        if j - 1 < t.len() {
            assert(t[j - 1] == xs[j]);
        }
        lemma_sorted_insert_at(t, x, j - 1);
        assert(seq![xs[0]] + (t.take(j - 1) + seq![x] + t.skip(j - 1)) =~= xs.take(j) + seq![x]
            + xs.skip(j));
    }
}

/// Inserting a fresh string keeps the order strict, adds exactly that
/// member, and grows the length by one.
proof fn lemma_sorted_insert(xs: Seq<Seq<char>>, x: Seq<char>)
    requires
        strictly_sorted(xs),
        !xs.contains(x),
    ensures
        strictly_sorted(sorted_insert(xs, x)),
        forall|p: Seq<char>|
            sorted_insert(xs, x).contains(p) <==> (xs.contains(p) || p == x),
        sorted_insert(xs, x).len() == xs.len() + 1,
    decreases xs.len(),
{
    let r = sorted_insert(xs, x);
    if xs.len() == 0 {
        assert forall|p: Seq<char>| r.contains(p) <==> (xs.contains(p) || p == x) by {
            if r.contains(p) {
                let k = choose|k: int| 0 <= k < r.len() && r[k] == p;
                assert(p == x);
            }
            if p == x {
                assert(r[0] == p);
                assert(r.contains(p));
            }
        }
    } else if chars_lt(x, xs[0]) {
        assert forall|p: Seq<char>| r.contains(p) <==> (xs.contains(p) || p == x) by {
            if r.contains(p) {
                let k = choose|k: int| 0 <= k < r.len() && r[k] == p;
                if k > 0 {
                    assert(xs[k - 1] == p);
                    assert(xs.contains(p));
                }
            }
            if xs.contains(p) {
                let k = choose|k: int| 0 <= k < xs.len() && xs[k] == p;
                assert(r[k + 1] == p);
                assert(r.contains(p));
            }
            if p == x {
                assert(r[0] == p);
                assert(r.contains(p));
            }
        }
        assert forall|i: int, j: int| 0 <= i < j < r.len() implies chars_lt(r[i], r[j]) by {
            if i == 0 {
                assert(r[j] == xs[j - 1]);
                if j > 1 {
                    assert(chars_lt(xs[0], xs[j - 1]));
                    lemma_chars_lt_trans(x, xs[0], xs[j - 1]);
                }
            } else {
                assert(r[i] == xs[i - 1] && r[j] == xs[j - 1]);
            }
        }
    } else {
        assert(xs[0] != x) by {
            if xs[0] == x {
                assert(xs.contains(x));
            }
        }
        lemma_chars_lt_total(x, xs[0]);
        assert(chars_lt(xs[0], x));
        let t = xs.skip(1);
        assert(strictly_sorted(t)) by {
            assert forall|i: int, j: int| 0 <= i < j < t.len() implies chars_lt(t[i], t[j]) by {
                assert(t[i] == xs[i + 1] && t[j] == xs[j + 1]);
            }
        }
        assert(!t.contains(x)) by {
            if t.contains(x) {
                let k = choose|k: int| 0 <= k < t.len() && t[k] == x;
                assert(xs[k + 1] == x);
                assert(xs.contains(x));
            }
        }
        lemma_sorted_insert(t, x);
        let r2 = sorted_insert(t, x);
        assert forall|p: Seq<char>| r.contains(p) <==> (xs.contains(p) || p == x) by {
            if r.contains(p) {
                let k = choose|k: int| 0 <= k < r.len() && r[k] == p;
                if k == 0 {
                    assert(xs[0] == p);
                    assert(xs.contains(p));
                } else {
                    assert(r2[k - 1] == p);
                    assert(r2.contains(p));
                    if t.contains(p) {
                        let m = choose|m: int| 0 <= m < t.len() && t[m] == p;
                        assert(xs[m + 1] == p);
                        assert(xs.contains(p));
                    }
                }
            }
            if xs.contains(p) {
                let k = choose|k: int| 0 <= k < xs.len() && xs[k] == p;
                if k == 0 {
                    assert(r[0] == p);
                } else {
                    assert(t[k - 1] == p);
                    assert(t.contains(p));
                    assert(r2.contains(p));
                    let m = choose|m: int| 0 <= m < r2.len() && r2[m] == p;
                    assert(r[m + 1] == p);
                }
                assert(r.contains(p));
            }
            if p == x {
                assert(r2.contains(p));
                let m = choose|m: int| 0 <= m < r2.len() && r2[m] == p;
                assert(r[m + 1] == p);
                assert(r.contains(p));
            }
        }
        assert forall|i: int, j: int| 0 <= i < j < r.len() implies chars_lt(r[i], r[j]) by {
            if i == 0 {
                assert(r[j] == r2[j - 1]);
                assert(r2.contains(r2[j - 1]));
                if t.contains(r2[j - 1]) {
                    let m = choose|m: int| 0 <= m < t.len() && t[m] == r2[j - 1];
                    assert(xs[m + 1] == r2[j - 1]);
                    assert(chars_lt(xs[0], xs[m + 1]));
                } else {
                    assert(r2[j - 1] == x);
                }
            } else {
                assert(r[i] == r2[i - 1] && r[j] == r2[j - 1]);
            }
        }
    }
}

/// A value is a member of `xs` exactly when it is a member of the front or
/// is the last element.
proof fn lemma_members_drop_last(xs: Seq<Seq<char>>, p: Seq<char>)
    requires
        xs.len() > 0,
    ensures
        xs.contains(p) <==> (xs.drop_last().contains(p) || p == xs.last()),
{
    if xs.contains(p) {
        let k = choose|k: int| 0 <= k < xs.len() && xs[k] == p;
        if k < xs.len() - 1 {
            assert(xs.drop_last()[k] == p);
            assert(xs.drop_last().contains(p));
        }
    }
    if xs.drop_last().contains(p) {
        let k = choose|k: int| 0 <= k < xs.drop_last().len() && xs.drop_last()[k] == p;
        assert(xs[k] == p);
        assert(xs.contains(p));
    }
    if p == xs.last() {
        assert(xs[xs.len() - 1] == p);
        assert(xs.contains(p));
    }
}

/// The canonical form is strictly sorted and holds exactly the values of the
/// input: nothing is lost and nothing invented.
pub proof fn lemma_canon_patterns(xs: Seq<Seq<char>>)
    ensures
        strictly_sorted(canon_patterns(xs)),
        forall|p: Seq<char>| canon_patterns(xs).contains(p) <==> xs.contains(p),
    decreases xs.len(),
{
    if xs.len() > 0 {
        lemma_canon_patterns(xs.drop_last());
        let front = canon_patterns(xs.drop_last());
        let d = canon_patterns(xs);
        if front.contains(xs.last()) {
            assert forall|p: Seq<char>| d.contains(p) <==> xs.contains(p) by {
                lemma_members_drop_last(xs, p);
            }
        } else {
            lemma_sorted_insert(front, xs.last());
            assert forall|p: Seq<char>| d.contains(p) <==> xs.contains(p) by {
                lemma_members_drop_last(xs, p);
            }
        }
    }
}

/// No two members of the canonical form are equal.
pub proof fn lemma_canon_unique(xs: Seq<Seq<char>>)
    ensures
        forall|i: int, j: int|
            0 <= i < j < canon_patterns(xs).len() ==> canon_patterns(xs)[i] != canon_patterns(
                xs,
            )[j],
{
    lemma_canon_patterns(xs);
    let d = canon_patterns(xs);
    assert forall|i: int, j: int| 0 <= i < j < d.len() implies d[i] != d[j] by {
        assert(chars_lt(d[i], d[j]));
        lemma_chars_lt_total(d[i], d[j]);
    }
}

/// Two strictly sorted sequences with the same members are the same
/// sequence.
proof fn lemma_sorted_same_members_eq(s1: Seq<Seq<char>>, s2: Seq<Seq<char>>)
    requires
        strictly_sorted(s1),
        strictly_sorted(s2),
        forall|p: Seq<char>| s1.contains(p) <==> s2.contains(p),
    ensures
        s1 == s2,
    decreases s1.len(),
{
    if s1.len() == 0 {
        if s2.len() > 0 {
            assert(s2.contains(s2[0]));
            assert(s1.contains(s2[0]));
        }
        assert(s1 =~= s2);
    } else {
        assert(s1.contains(s1[0]));
        assert(s2.contains(s1[0]));
        let j = choose|j: int| 0 <= j < s2.len() && s2[j] == s1[0];
        assert(s2.contains(s2[0]));
        assert(s1.contains(s2[0]));
        let i = choose|i: int| 0 <= i < s1.len() && s1[i] == s2[0];
        assert(s1[0] == s2[0]) by {
            if j > 0 && i > 0 {
                assert(chars_lt(s2[0], s2[j]));
                assert(chars_lt(s1[0], s1[i]));
                lemma_chars_lt_total(s1[0], s2[0]);
            }
        }
        let t1 = s1.skip(1);
        let t2 = s2.skip(1);
        assert(strictly_sorted(t1)) by {
            assert forall|a: int, b: int| 0 <= a < b < t1.len() implies chars_lt(t1[a], t1[b]) by {
                assert(t1[a] == s1[a + 1] && t1[b] == s1[b + 1]);
            }
        }
        assert(strictly_sorted(t2)) by {
            assert forall|a: int, b: int| 0 <= a < b < t2.len() implies chars_lt(t2[a], t2[b]) by {
                assert(t2[a] == s2[a + 1] && t2[b] == s2[b + 1]);
            }
        }
        assert forall|p: Seq<char>| t1.contains(p) <==> t2.contains(p) by {
            assert(t1.contains(p) <==> (s1.contains(p) && p != s1[0])) by {
                if t1.contains(p) {
                    let k = choose|k: int| 0 <= k < t1.len() && t1[k] == p;
                    assert(s1[k + 1] == p);
                    assert(s1.contains(p));
                    assert(chars_lt(s1[0], s1[k + 1]));
                    lemma_chars_lt_total(s1[0], p);
                }
                if s1.contains(p) && p != s1[0] {
                    let m = choose|m: int| 0 <= m < s1.len() && s1[m] == p;
                    assert(m > 0);
                    assert(t1[m - 1] == p);
                    assert(t1.contains(p));
                }
            }
            assert(t2.contains(p) <==> (s2.contains(p) && p != s2[0])) by {
                if t2.contains(p) {
                    let k = choose|k: int| 0 <= k < t2.len() && t2[k] == p;
                    assert(s2[k + 1] == p);
                    assert(s2.contains(p));
                    assert(chars_lt(s2[0], s2[k + 1]));
                    lemma_chars_lt_total(s2[0], p);
                }
                if s2.contains(p) && p != s2[0] {
                    let m = choose|m: int| 0 <= m < s2.len() && s2[m] == p;
                    assert(m > 0);
                    assert(t2[m - 1] == p);
                    assert(t2.contains(p));
                }
            }
        }
        lemma_sorted_same_members_eq(t1, t2);
        assert forall|k: int| 0 <= k < s1.len() implies s1[k] == s2[k] by {
            if k > 0 {
                assert(s1[k] == t1[k - 1]);
                assert(s2[k] == t2[k - 1]);
            }
        }
        assert(s1 =~= s2);
    }
}

/// Construction is order-independent: inputs holding the same set of
/// pattern strings, in any order and with any repetitions, build the same
/// abstract pattern collection — and with it the same `is_match` answer for
/// every host, the same `is_empty`, and the same `get_raw` sequence.
pub proof fn lemma_new_order_independent(v1: Seq<Seq<char>>, v2: Seq<Seq<char>>)
    requires
        forall|p: Seq<char>| v1.contains(p) <==> v2.contains(p),
    ensures
        classify_all(canon_patterns(v1)) == classify_all(canon_patterns(v2)),
{
    lemma_canon_patterns(v1);
    lemma_canon_patterns(v2);
    assert forall|p: Seq<char>|
        canon_patterns(v1).contains(p) <==> canon_patterns(v2).contains(p) by {
        assert(canon_patterns(v1).contains(p) <==> v1.contains(p));
        assert(canon_patterns(v2).contains(p) <==> v2.contains(p));
    }
    lemma_sorted_same_members_eq(canon_patterns(v1), canon_patterns(v2));
}

/// Dropping duplicates and reordering never changes the boolean outcome:
/// matching is "does any member match", so a matcher built from the
/// canonical strings answers every host exactly as one built from the raw
/// strings would.
pub proof fn lemma_canon_preserves_matching(xs: Seq<Seq<char>>, host: Seq<char>)
    ensures
        host_matches(classify_all(canon_patterns(xs)), host) == host_matches(
            classify_all(xs),
            host,
        ),
{
    lemma_canon_patterns(xs);
    let d = canon_patterns(xs);
    if xs.len() == 0 {
        assert(d.len() == 0) by {
            if d.len() > 0 {
                assert(d.contains(d[0]));
                assert(xs.contains(d[0]));
            }
        }
    } else {
        assert(xs.contains(xs[0]));
        assert(d.contains(xs[0]));
        assert(d.len() > 0);
        if exists|i: int| 0 <= i < d.len() && host_pattern_matches(classify_all(d)[i], host) {
            let i = choose|i: int|
                0 <= i < d.len() && host_pattern_matches(classify_all(d)[i], host);
            assert(classify_all(d)[i] == classify(d[i]));
            assert(d.contains(d[i]));
            assert(xs.contains(d[i]));
            let j = choose|j: int| 0 <= j < xs.len() && xs[j] == d[i];
            assert(host_pattern_matches(classify_all(xs)[j], host));
        }
        if exists|j: int| 0 <= j < xs.len() && host_pattern_matches(classify_all(xs)[j], host) {
            let j = choose|j: int|
                0 <= j < xs.len() && host_pattern_matches(classify_all(xs)[j], host);
            assert(classify_all(xs)[j] == classify(xs[j]));
            assert(xs.contains(xs[j]));
            assert(d.contains(xs[j]));
            let i = choose|i: int| 0 <= i < d.len() && d[i] == xs[j];
            assert(host_pattern_matches(classify_all(d)[i], host));
        }
    }
}

/// Matching is pure: the answer depends on the pattern collection and the
/// host alone, so matchers built from the same strings agree on every host,
/// and repeated calls agree with each other.
pub proof fn lemma_host_deterministic(a: &HostMatcher, b: &HostMatcher, host: Seq<char>)
    requires
        a@ == b@,
    ensures
        host_matches(a@, host) == host_matches(b@, host),
{
}

/// An empty matcher is the catch-all: it accepts every host.
pub proof fn lemma_empty_matches_all(ps: Seq<HostPattern>, host: Seq<char>)
    requires
        ps.len() == 0,
    ensures
        host_matches(ps, host),
{
}

} // verus!

//! Label-scoped wildcard matching for domain-like strings.
//!
//! A `*` in a pattern stands for exactly one non-empty label of the
//! candidate: it consumes one or more characters, the first of which must not
//! be `.`, up to and including the next `.` of the candidate, which then has
//! to be answered by a literal `.` in the pattern.  Every other pattern
//! character must equal the corresponding candidate character exactly, and a
//! match requires both sides to be exhausted together.

use vstd::prelude::*;

use crate::text::str_to_chars;

verus! {

/// The scanner's state outside a `*`: `p` and `s` are the remaining pattern
/// and candidate, and `dot` records that a candidate `.` was just consumed by
/// a wildcard and still awaits a literal `.` in the pattern.
pub open spec fn wild_match_at(p: Seq<char>, s: Seq<char>, dot: bool) -> bool
    decreases p.len(), s.len(), 1int,
{
    if p.len() == 0 {
        !dot && s.len() == 0
    } else if p[0] == '*' {
        s.len() > 0 && s[0] != '.' && wild_star(p.skip(1), s.skip(1), dot)
    } else if dot {
        p[0] == '.' && wild_match_at(p.skip(1), s, false)
    } else {
        s.len() > 0 && s[0] == p[0] && wild_match_at(p.skip(1), s.skip(1), false)
    }
}

/// The scanner's state inside a `*`, after its first candidate character:
/// candidate characters are consumed until a `.` ends the label; a candidate
/// without a further `.` leaves `dot` as it was and ends the candidate.
pub open spec fn wild_star(p: Seq<char>, s: Seq<char>, dot: bool) -> bool
    decreases p.len(), s.len(), 2int,
{
    if s.len() == 0 {
        wild_match_at(p, s, dot)
    } else if s[0] == '.' {
        wild_match_at(p, s.skip(1), true)
    } else {
        wild_star(p, s.skip(1), dot)
    }
}

/// Whether pattern `p` matches candidate `s`.
pub open spec fn wildcard_match(p: Seq<char>, s: Seq<char>) -> bool {
    wild_match_at(p, s, false)
}

/// A compiled wildcard pattern: the characters of the pattern string.
#[derive(Debug, Clone)]
pub struct WildcardMatcher {
    chars: Vec<char>,
}

impl View for WildcardMatcher {
    type V = Seq<char>;

    closed spec fn view(&self) -> Seq<char> {
        self.chars@
    }
}

impl WildcardMatcher {
    /// Compile a pattern.  Construction never fails: a pattern without `*`
    /// degenerates to a literal-equality matcher.
    pub fn new(s: &str) -> (r: Self)
        ensures
            r@ == s@,
    {
        WildcardMatcher { chars: str_to_chars(s) }
    }

    /// Whether the candidate `s` matches this pattern.
    pub fn is_match(&self, s: &str) -> (r: bool)
        ensures
            r == wildcard_match(self@, s@),
    {
        let sv = str_to_chars(s);
        let plen = self.chars.len();
        let slen = sv.len();
        let mut pi: usize = 0;
        let mut si: usize = 0;
        let mut dot: bool = false;
        proof {
            assert(self@.skip(0) =~= self@);
            assert(sv@.skip(0) =~= sv@);
        }
        while pi < plen
            invariant
                pi <= plen,
                si <= slen,
                plen == self.chars.len(),
                slen == sv.len(),
                sv@ == s@,
                wildcard_match(self@, s@) == wild_match_at(
                    self@.skip(pi as int),
                    sv@.skip(si as int),
                    dot,
                ),
            decreases plen - pi,
        {
            let pc = self.chars[pi];
            proof {
                assert(self@.skip(pi as int)[0] == pc);
                assert(self@.skip(pi as int).skip(1) =~= self@.skip(pi as int + 1));
            }
            if pc == '*' {
                if si >= slen {
                    proof {
                        assert(sv@.skip(si as int).len() == 0);
                    }
                    return false;
                }
                let c = sv[si];
                proof {
                    assert(sv@.skip(si as int)[0] == c);
                    assert(sv@.skip(si as int).skip(1) =~= sv@.skip(si as int + 1));
                }
                if c == '.' {
                    return false;
                }
                si = si + 1;
                pi = pi + 1;
                // Consume candidate characters until the label's closing `.`.
                match find_dot(&sv, si) {
                    Some(j) => {
                        proof {
                            lemma_star_hits_dot(
                                self@.skip(pi as int),
                                sv@.skip(si as int),
                                dot,
                                j - si,
                            );
                            assert(sv@.skip(si as int).skip(j - si + 1) =~= sv@.skip(
                                j as int + 1,
                            ));
                        }
                        si = j + 1;
                        dot = true;
                    },
                    None => {
                        proof {
                            lemma_star_no_dot(self@.skip(pi as int), sv@.skip(si as int), dot);
                            assert(sv@.skip(si as int).skip(sv@.skip(si as int).len() as int)
                                =~= sv@.skip(slen as int));
                        }
                        si = slen;
                    },
                }
            } else if dot {
                if pc == '.' {
                    dot = false;
                    pi = pi + 1;
                } else {
                    return false;
                }
            } else {
                if si >= slen {
                    proof {
                        assert(sv@.skip(si as int).len() == 0);
                    }
                    return false;
                }
                let c = sv[si];
                proof {
                    assert(sv@.skip(si as int)[0] == c);
                    assert(sv@.skip(si as int).skip(1) =~= sv@.skip(si as int + 1));
                }
                if c != pc {
                    return false;
                }
                pi = pi + 1;
                si = si + 1;
            }
        }
        proof {
            assert(self@.skip(plen as int).len() == 0);
        }
        !dot && si == slen
    }
}

/// The index of the first `.` in `v` at or after `from`, if any.
fn find_dot(v: &Vec<char>, from: usize) -> (r: Option<usize>)
    requires
        from <= v@.len(),
    ensures
        match r {
            Some(j) => {
                &&& from <= j < v@.len()
                &&& v@[j as int] == '.'
                &&& forall|k: int| from <= k < j ==> v@[k] != '.'
            },
            None => forall|k: int| from <= k < v@.len() ==> v@[k] != '.',
        },
{
    let mut i: usize = from;
    while i < v.len()
        invariant
            from <= i <= v@.len(),
            forall|k: int| from <= k < i ==> v@[k] != '.',
        decreases v@.len() - i,
    {
        if v[i] == '.' {
            return Some(i);
        }
        i = i + 1;
    }
    None
}

/// If the first `.` of `s` stands at index `j`, the star scan consumes the
/// candidate through that `.` and resumes with `dot` set.
proof fn lemma_star_hits_dot(p: Seq<char>, s: Seq<char>, dot: bool, j: int)
    requires
        0 <= j < s.len(),
        s[j] == '.',
        forall|k: int| 0 <= k < j ==> s[k] != '.',
    ensures
        wild_star(p, s, dot) == wild_match_at(p, s.skip(j + 1), true),
    decreases j,
{
    if j == 0 {
    } else {
        lemma_star_hits_dot(p, s.skip(1), dot, j - 1);
        assert(s.skip(1).skip(j) =~= s.skip(j + 1));
    }
}

/// A candidate without any further `.` is consumed whole by the star scan,
/// leaving `dot` as it was.
proof fn lemma_star_no_dot(p: Seq<char>, s: Seq<char>, dot: bool)
    requires
        forall|k: int| 0 <= k < s.len() ==> s[k] != '.',
    ensures
        wild_star(p, s, dot) == wild_match_at(p, s.skip(s.len() as int), dot),
    decreases s.len(),
{
    if s.len() == 0 {
        assert(s.skip(0) =~= s);
    } else {
        lemma_star_no_dot(p, s.skip(1), dot);
        assert(s.skip(1).skip(s.len() - 1) =~= s.skip(s.len() as int));
    }
}

/// Matching is pure: the answer depends on the compiled pattern and the
/// candidate alone, so matchers built from the same pattern agree on every
/// candidate, and repeated calls agree with each other.
pub proof fn lemma_wildcard_deterministic(a: &WildcardMatcher, b: &WildcardMatcher, s: Seq<char>)
    requires
        a@ == b@,
    ensures
        wildcard_match(a@, s) == wildcard_match(b@, s),
{
}

/// A pattern without `*` matches exactly itself.
pub proof fn lemma_literal_pattern(p: Seq<char>, s: Seq<char>)
    requires
        !p.contains('*'),
    ensures
        wildcard_match(p, s) <==> p == s,
    decreases p.len(),
{
    lemma_literal_pattern_at(p, s);
}

proof fn lemma_literal_pattern_at(p: Seq<char>, s: Seq<char>)
    requires
        !p.contains('*'),
    ensures
        wild_match_at(p, s, false) <==> p == s,
    decreases p.len(),
{
    if p.len() == 0 {
        if s.len() == 0 {
            assert(p =~= s);
        } else {
            assert(p != s);
        }
    } else {
        assert(p[0] != '*');
        assert(!p.skip(1).contains('*')) by {
            assert(forall|i: int|
                0 <= i < p.skip(1).len() ==> p.skip(1)[i] == p[i + 1]);
        }
        lemma_literal_pattern_at(p.skip(1), s.skip(1));
        if s.len() > 0 && s[0] == p[0] && p.skip(1) == s.skip(1) {
            assert forall|i: int| 0 <= i < p.len() implies p[i] == s[i] by {
                if i > 0 {
                    assert(p[i] == p.skip(1)[i - 1]);
                    assert(s[i] == s.skip(1)[i - 1]);
                }
            }
            assert(p =~= s);
        }
        if p == s {
            assert(s.len() > 0 && s[0] == p[0]);
            assert(p.skip(1) =~= s.skip(1));
        }
    }
}

} // verus!

//! Client-address admission: an allow list and a deny list of IP patterns.
//!
//! Each entry is either a literal address or a wildcard pattern matched
//! against the address's dotted-decimal text.  A non-empty allow list admits
//! exactly the addresses matching one of its entries and makes the deny list
//! irrelevant; with no allow list, an address is admitted unless a deny entry
//! matches it.

use vstd::prelude::*;

use crate::addr::ipv4_text;
use crate::addr::ipv4_value;
use crate::addr::is_ipv4_text;
use crate::addr::to_ip_addr;
use crate::addr::IpAddress;
use crate::text::cannot_parse_msg;
use crate::text::str_contains_char;
use crate::wildcard::wildcard_match;
use crate::wildcard::WildcardMatcher;

verus! {

/// The abstract form of one allow or deny entry.
pub enum IpPattern {
    Ip(IpAddress),
    Wildcard(Seq<char>),
}

/// Whether a raw entry string is acceptable: a wildcard pattern, or else a
/// literal that reads as an IPv4 address.
pub open spec fn valid_entry(e: Seq<char>) -> bool {
    e.contains('*') || is_ipv4_text(e)
}

/// How a raw entry string is classified at construction.
pub open spec fn entry_pattern(e: Seq<char>) -> IpPattern {
    if e.contains('*') {
        IpPattern::Wildcard(e)
    } else {
        IpPattern::Ip(ipv4_value(e))
    }
}

/// The index of the first entry that is not acceptable, or `-1`.
pub open spec fn first_bad(es: Seq<Seq<char>>) -> int
    decreases es.len(),
{
    if es.len() == 0 {
        -1
    } else if !valid_entry(es[0]) {
        0
    } else {
        let r = first_bad(es.skip(1));
        if r < 0 {
            -1
        } else {
            r + 1
        }
    }
}

/// `first_bad` yields `-1` exactly when every entry is acceptable, and
/// otherwise the first index of one that is not.
pub proof fn lemma_first_bad(es: Seq<Seq<char>>)
    ensures
        first_bad(es) == -1 ==> forall|k: int| 0 <= k < es.len() ==> valid_entry(es[k]),
        first_bad(es) != -1 ==> {
            let r = first_bad(es);
            &&& 0 <= r < es.len()
            &&& !valid_entry(es[r])
            &&& forall|k: int| 0 <= k < r ==> valid_entry(es[k])
        },
    decreases es.len(),
{
    if es.len() == 0 {
    } else if !valid_entry(es[0]) {
    } else {
        lemma_first_bad(es.skip(1));
        let r = first_bad(es.skip(1));
        if r < 0 {
            assert forall|k: int| 0 <= k < es.len() implies valid_entry(es[k]) by {
                if k > 0 {
                    assert(es.skip(1)[k - 1] == es[k]);
                }
            }
        } else {
            assert(es[r + 1] == es.skip(1)[r]);
            assert forall|k: int| 0 <= k < r + 1 implies valid_entry(es[k]) by {
                if k > 0 {
                    assert(es.skip(1)[k - 1] == es[k]);
                }
            }
        }
    }
}

/// Whether one entry matches the address.
pub open spec fn ip_pattern_matches(p: IpPattern, ip: IpAddress) -> bool {
    match p {
        IpPattern::Ip(m) => m == ip,
        IpPattern::Wildcard(w) => wildcard_match(w, ipv4_text(ip)),
    }
}

/// The admission rule: a non-empty allow list admits exactly its members and
/// silences the deny list entirely; otherwise an address passes unless some
/// deny entry matches it.
pub open spec fn ip_pass(allow: Seq<IpPattern>, deny: Seq<IpPattern>, ip: IpAddress) -> bool {
    if allow.len() > 0 {
        exists|i: int| 0 <= i < allow.len() && ip_pattern_matches(allow[i], ip)
    } else {
        forall|i: int| 0 <= i < deny.len() ==> !ip_pattern_matches(deny[i], ip)
    }
}

#[derive(Debug, Clone)]
enum IpMode {
    Ip(IpAddress),
    Wild(WildcardMatcher),
}

spec fn ip_mode_view(m: IpMode) -> IpPattern {
    match m {
        IpMode::Ip(a) => IpPattern::Ip(a),
        IpMode::Wild(w) => IpPattern::Wildcard(w@),
    }
}

/// An allow list and a deny list of compiled IP patterns; the view is the
/// pair of abstract pattern sequences.
#[derive(Debug, Clone)]
pub struct IpMatcher {
    allow: Vec<IpMode>,
    deny: Vec<IpMode>,
}

impl View for IpMatcher {
    type V = (Seq<IpPattern>, Seq<IpPattern>);

    closed spec fn view(&self) -> (Seq<IpPattern>, Seq<IpPattern>) {
        (
            Seq::new(self.allow@.len(), |i: int| ip_mode_view(self.allow@[i])),
            Seq::new(self.deny@.len(), |i: int| ip_mode_view(self.deny@[i])),
        )
    }
}

/// Compile a list of entries; the first entry that neither holds a `*` nor
/// reads as an address stops construction with the parse error.
fn compile_entries(items: Vec<&str>) -> (r: Result<Vec<IpMode>, String>)
    ensures
        r is Ok <==> first_bad(items.deep_view()) == -1,
        r matches Ok(v) ==> Seq::new(v@.len(), |i: int| ip_mode_view(v@[i]))
            == items.deep_view().map_values(|e: Seq<char>| entry_pattern(e)),
        r matches Err(e) ==> {
            let bad = first_bad(items.deep_view());
            &&& bad != -1
            &&& e@ == cannot_parse_msg(items.deep_view()[bad], "IP addr"@)
        },
{
    let ghost all = items.deep_view();
    let mut v: Vec<IpMode> = Vec::new();
    let mut i: usize = 0;
    proof {
        lemma_first_bad(all);
    }
    while i < items.len()
        invariant
            i <= items.len(),
            all == items.deep_view(),
            all.len() == items.len(),
            v@.len() == i,
            forall|k: int| 0 <= k < i ==> valid_entry(all[k]),
            forall|k: int| 0 <= k < i ==> ip_mode_view(v@[k]) == entry_pattern(all[k]),
        decreases items.len() - i,
    {
        let item = items[i];
        proof {
            assert(all[i as int] == item@);
        }
        if str_contains_char(item, '*') {
            v.push(IpMode::Wild(WildcardMatcher::new(item)));
        } else {
            match to_ip_addr(item) {
                Ok(ip) => {
                    v.push(IpMode::Ip(ip));
                },
                Err(e) => {
                    proof {
                        lemma_first_bad_here(all, i as int);
                    }
                    return Err(e);
                },
            }
        }
        i = i + 1;
    }
    proof {
        lemma_first_bad(all);
        if first_bad(all) != -1 {
            assert(valid_entry(all[first_bad(all)]));
        }
        assert(Seq::new(v@.len(), |k: int| ip_mode_view(v@[k])) =~= all.map_values(
            |e: Seq<char>| entry_pattern(e),
        ));
    }
    Ok(v)
}

/// If every entry before `i` is acceptable and entry `i` is not, then `i` is
/// the first bad index.
proof fn lemma_first_bad_here(es: Seq<Seq<char>>, i: int)
    requires
        0 <= i < es.len(),
        !valid_entry(es[i]),
        forall|k: int| 0 <= k < i ==> valid_entry(es[k]),
    ensures
        first_bad(es) == i,
{
    lemma_first_bad(es);
    if first_bad(es) == -1 {
        assert(valid_entry(es[i]));
    } else {
        let r = first_bad(es);
        if r < i {
            assert(valid_entry(es[r]));
        }
        if r > i {
            assert(valid_entry(es[i]));
        }
    }
}

impl IpMatcher {
    /// Build a matcher from raw allow and deny entries.  Construction
    /// succeeds exactly when every entry is acceptable; the first
    /// unacceptable one (allow entries first) is reported.
    pub fn new(allow: Vec<&str>, deny: Vec<&str>) -> (r: Result<IpMatcher, String>)
        ensures
            r is Ok <==> first_bad(allow.deep_view()) == -1 && first_bad(deny.deep_view()) == -1,
            r is Ok <==> (forall|k: int|
                0 <= k < allow.deep_view().len() ==> valid_entry(allow.deep_view()[k])) && (
            forall|k: int| 0 <= k < deny.deep_view().len() ==> valid_entry(deny.deep_view()[k])),
            r matches Ok(m) ==> m@.0 == allow.deep_view().map_values(
                |e: Seq<char>| entry_pattern(e),
            ) && m@.1 == deny.deep_view().map_values(|e: Seq<char>| entry_pattern(e)),
            r matches Err(e) ==> ({
                let ab = first_bad(allow.deep_view());
                let db = first_bad(deny.deep_view());
                if ab != -1 {
                    e@ == cannot_parse_msg(allow.deep_view()[ab], "IP addr"@)
                } else {
                    db != -1 && e@ == cannot_parse_msg(deny.deep_view()[db], "IP addr"@)
                }
            }),
    {
        proof {
            lemma_first_bad(allow.deep_view());
            lemma_first_bad(deny.deep_view());
        }
        let a = match compile_entries(allow) {
            Ok(v) => v,
            Err(e) => {
                return Err(e);
            },
        };
        let d = match compile_entries(deny) {
            Ok(v) => v,
            Err(e) => {
                return Err(e);
            },
        };
        Ok(IpMatcher { allow: a, deny: d })
    }

    /// Whether the address is admitted.
    pub fn is_pass(&self, ip: IpAddress) -> (r: bool)
        ensures
            r == ip_pass(self@.0, self@.1, ip),
    {
        let text = ip.to_text();
        if !self.allow.is_empty() {
            let mut i: usize = 0;
            while i < self.allow.len()
                invariant
                    i <= self.allow.len(),
                    text@ == ipv4_text(ip),
                    forall|j: int| 0 <= j < i ==> !ip_pattern_matches(self@.0[j], ip),
                decreases self.allow.len() - i,
            {
                proof {
                    assert(self@.0[i as int] == ip_mode_view(self.allow@[i as int]));
                }
                match &self.allow[i] {
                    IpMode::Ip(m) => {
                        if *m == ip {
                            return true;
                        }
                    },
                    IpMode::Wild(w) => {
                        if w.is_match(text.as_str()) {
                            return true;
                        }
                    },
                }
                i = i + 1;
            }
            return false;
        }
        let mut i: usize = 0;
        while i < self.deny.len()
            invariant
                i <= self.deny.len(),
                self.allow@.len() == 0,
                text@ == ipv4_text(ip),
                forall|j: int| 0 <= j < i ==> !ip_pattern_matches(self@.1[j], ip),
            decreases self.deny.len() - i,
        {
            proof {
                assert(self@.1[i as int] == ip_mode_view(self.deny@[i as int]));
            }
            match &self.deny[i] {
                IpMode::Ip(m) => {
                    if *m == ip {
                        return false;
                    }
                },
                IpMode::Wild(w) => {
                    if w.is_match(text.as_str()) {
                        return false;
                    }
                },
            }
            i = i + 1;
        }
        true
    }
}

/// Admission is pure: the answer depends on the two pattern lists and the
/// address alone, so matchers built from the same entries agree on every
/// address, and repeated calls agree with each other.
pub proof fn lemma_ip_deterministic(a: &IpMatcher, b: &IpMatcher, ip: IpAddress)
    requires
        a@ == b@,
    ensures
        ip_pass(a@.0, a@.1, ip) == ip_pass(b@.0, b@.1, ip),
{
}

/// With a non-empty allow list the deny list is irrelevant: any two deny
/// lists give the same outcome for every address.
pub proof fn lemma_allow_overrides_deny(
    allow: Seq<IpPattern>,
    deny1: Seq<IpPattern>,
    deny2: Seq<IpPattern>,
    ip: IpAddress,
)
    requires
        allow.len() > 0,
    ensures
        ip_pass(allow, deny1, ip) == ip_pass(allow, deny2, ip),
{
}

/// With neither an allow nor a deny list, every address is admitted.
pub proof fn lemma_default_permit(allow: Seq<IpPattern>, deny: Seq<IpPattern>, ip: IpAddress)
    requires
        allow.len() == 0,
        deny.len() == 0,
    ensures
        ip_pass(allow, deny, ip),
{
}

} // verus!

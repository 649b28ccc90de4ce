//! IPv4 addresses as plain values: their textual form and a verified parser.
//!
//! The engine reads client addresses only through this type.  An address is
//! four octets; its text is the usual dotted-decimal form, which is also what
//! wildcard patterns are matched against.

use vstd::prelude::*;

use crate::text::cannot_parse;
use crate::text::cannot_parse_msg;
use crate::text::split_char;
use crate::text::split_str;

verus! {

/// An IPv4 address, as four octets.
#[derive(Debug, Clone, Copy, PartialEq, Eq, Structural)]
pub struct IpAddress {
    pub a: u8,
    pub b: u8,
    pub c: u8,
    pub d: u8,
}

/// The decimal digit `d` as a character.
pub open spec fn dec_digit(d: u8) -> char {
    if d == 0 {
        '0'
    } else if d == 1 {
        '1'
    } else if d == 2 {
        '2'
    } else if d == 3 {
        '3'
    } else if d == 4 {
        '4'
    } else if d == 5 {
        '5'
    } else if d == 6 {
        '6'
    } else if d == 7 {
        '7'
    } else if d == 8 {
        '8'
    } else {
        '9'
    }
}

/// The shortest decimal form of one octet.
pub open spec fn dec_text(n: u8) -> Seq<char> {
    if n < 10 {
        seq![dec_digit(n)]
    } else if n < 100 {
        seq![dec_digit(n / 10), dec_digit(n % 10)]
    } else {
        seq![dec_digit(n / 100), dec_digit((n / 10) % 10), dec_digit(n % 10)]
    }
}

/// The dotted-decimal text of an address.
pub open spec fn ipv4_text(ip: IpAddress) -> Seq<char> {
    dec_text(ip.a) + seq!['.'] + dec_text(ip.b) + seq!['.'] + dec_text(ip.c) + seq!['.']
        + dec_text(ip.d)
}

/// Whether `c` is a decimal digit.
pub open spec fn is_digit(c: char) -> bool {
    48 <= c as u32 <= 57
}

/// The value of the digit `c`.
pub open spec fn digit_val(c: char) -> int {
    c as u32 - 48
}

/// The value of a digit string, by place value.
pub open spec fn octet_val(g: Seq<char>) -> int
    decreases g.len(),
{
    if g.len() == 0 {
        0
    } else {
        octet_val(g.drop_last()) * 10 + digit_val(g.last())
    }
}

/// Whether `g` is a well-formed octet: one to three digits, no leading zero,
/// value at most 255.
pub open spec fn is_octet_text(g: Seq<char>) -> bool {
    &&& 1 <= g.len() <= 3
    &&& forall|i: int| 0 <= i < g.len() ==> is_digit(g[i])
    &&& g.len() > 1 ==> g[0] != '0'
    &&& octet_val(g) <= 255
}

/// Whether `s` is a well-formed dotted-decimal IPv4 address.
pub open spec fn is_ipv4_text(s: Seq<char>) -> bool {
    let gs = split_char(s, '.');
    gs.len() == 4 && forall|i: int| 0 <= i < 4 ==> is_octet_text(gs[i])
}

/// The address a well-formed dotted-decimal string denotes.
pub open spec fn ipv4_value(s: Seq<char>) -> IpAddress {
    let gs = split_char(s, '.');
    IpAddress {
        a: octet_val(gs[0]) as u8,
        b: octet_val(gs[1]) as u8,
        c: octet_val(gs[2]) as u8,
        d: octet_val(gs[3]) as u8,
    }
}

/// The digit `d` as a one-character string.
fn digit_str(d: u8) -> (r: &'static str)
    requires
        d < 10,
    ensures
        r@ =~= seq![dec_digit(d)],
{
    let r: &'static str = match d {
        0 => "0",
        1 => "1",
        2 => "2",
        3 => "3",
        4 => "4",
        5 => "5",
        6 => "6",
        7 => "7",
        8 => "8",
        _ => "9",
    };
    proof {
        reveal_strlit("0");
        reveal_strlit("1");
        reveal_strlit("2");
        reveal_strlit("3");
        reveal_strlit("4");
        reveal_strlit("5");
        reveal_strlit("6");
        reveal_strlit("7");
        reveal_strlit("8");
        reveal_strlit("9");
    }
    r
}

/// Append the shortest decimal form of `n`.
fn push_dec(out: &mut String, n: u8)
    ensures
        final(out)@ == old(out)@ + dec_text(n),
{
    if n >= 100 {
        out.append(digit_str(n / 100));
    }
    if n >= 10 {
        out.append(digit_str((n / 10) % 10));
    }
    out.append(digit_str(n % 10));
    proof {
        if n < 10 {
            assert(old(out)@ + dec_text(n) =~= out@);
        } else if n < 100 {
            assert(old(out)@ + dec_text(n) =~= out@);
        } else {
            assert(old(out)@ + dec_text(n) =~= out@);
        }
    }
}

impl IpAddress {
    /// The dotted-decimal text of this address.
    pub fn to_text(&self) -> (r: String)
        ensures
            r@ == ipv4_text(*self),
    {
        let mut s = String::new();
        push_dec(&mut s, self.a);
        s.append(".");
        push_dec(&mut s, self.b);
        s.append(".");
        push_dec(&mut s, self.c);
        s.append(".");
        push_dec(&mut s, self.d);
        proof {
            reveal_strlit(".");
            assert("."@ =~= seq!['.']);
            assert(s@ =~= ipv4_text(*self));
        }
        s
    }
}

/// Parse one octet.
fn parse_octet(g: &str) -> (r: Option<u8>)
    ensures
        r is Some <==> is_octet_text(g@),
        r matches Some(v) ==> v as int == octet_val(g@),
{
    let len = g.unicode_len();
    if len == 0 || len > 3 {
        return None;
    }
    if len > 1 && g.get_char(0) == '0' {
        return None;
    }
    let mut val: u32 = 0;
    let mut i: usize = 0;
    proof {
        assert(g@.take(0) =~= Seq::<char>::empty());
    }
    while i < len
        invariant
            i <= len,
            1 <= len <= 3,
            len == g@.len(),
            forall|k: int| 0 <= k < i ==> is_digit(g@[k]),
            val == octet_val(g@.take(i as int)),
            i <= 1 ==> val <= 9,
            i <= 2 ==> val <= 99,
            val <= 999,
        decreases len - i,
    {
        let c = g.get_char(i);
        let u = c as u32;
        if u < 48 || u > 57 {
            return None;
        }
        proof {
            assert(g@.take(i as int + 1).drop_last() =~= g@.take(i as int));
            assert(g@.take(i as int + 1).last() == g@[i as int]);
        }
        val = val * 10 + (u - 48);
        i = i + 1;
    }
    proof {
        assert(g@.take(len as int) =~= g@);
    }
    if val > 255 {
        return None;
    }
    Some(val as u8)
}

/// A digit character is a digit with its own value, and is not a dot.
proof fn lemma_dec_digit(d: u8)
    requires
        d < 10,
    ensures
        is_digit(dec_digit(d)),
        digit_val(dec_digit(d)) == d,
        dec_digit(d) != '.',
        d >= 1 ==> dec_digit(d) != '0',
{
}

/// The decimal text of an octet is a well-formed octet, holds no dot, and
/// reads back as the same value.
proof fn lemma_dec_text_octet(n: u8)
    ensures
        is_octet_text(dec_text(n)),
        octet_val(dec_text(n)) == n,
        !dec_text(n).contains('.'),
{
    let t = dec_text(n);
    reveal_with_fuel(octet_val, 4);
    if n < 10 {
        lemma_dec_digit(n);
        assert(t.drop_last() =~= Seq::<char>::empty());
        assert(octet_val(t) == n);
    } else if n < 100 {
        lemma_dec_digit(n / 10);
        lemma_dec_digit(n % 10);
        assert(t.drop_last() =~= seq![dec_digit(n / 10)]);
        assert(t.drop_last().drop_last() =~= Seq::<char>::empty());
        assert(octet_val(t) == (n / 10) * 10 + n % 10);
        assert((n / 10) * 10 + n % 10 == n);
    } else {
        lemma_dec_digit(n / 100);
        lemma_dec_digit((n / 10) % 10);
        lemma_dec_digit(n % 10);
        assert(t.drop_last() =~= seq![dec_digit(n / 100), dec_digit((n / 10) % 10)]);
        assert(t.drop_last().drop_last() =~= seq![dec_digit(n / 100)]);
        assert(t.drop_last().drop_last().drop_last() =~= Seq::<char>::empty());
        assert(octet_val(t) == ((n / 100) * 10 + (n / 10) % 10) * 10 + n % 10);
        assert(((n / 100) * 10 + (n / 10) % 10) * 10 + n % 10 == n);
    }
    assert(!t.contains('.')) by {
        if t.contains('.') {
            let i = choose|i: int| 0 <= i < t.len() && t[i] == '.';
        }
    }
}

/// Formatting and parsing agree: the dotted-decimal text of an address is
/// well-formed and reads back as the same address.
#[verifier::rlimit(50)]
pub proof fn lemma_ipv4_text_roundtrip(ip: IpAddress)
    ensures
        is_ipv4_text(ipv4_text(ip)),
        ipv4_value(ipv4_text(ip)) == ip,
{
    lemma_dec_text_octet(ip.a);
    lemma_dec_text_octet(ip.b);
    lemma_dec_text_octet(ip.c);
    lemma_dec_text_octet(ip.d);
    let d1 = dec_text(ip.a);
    let d2 = dec_text(ip.b);
    let d3 = dec_text(ip.c);
    let d4 = dec_text(ip.d);
    let s = ipv4_text(ip);
    let rest2 = d3 + seq!['.'] + d4;
    let rest1 = d2 + seq!['.'] + rest2;
    assert(s =~= d1 + seq!['.'] + rest1);
    crate::text::lemma_split_concat(d1, rest1, '.');
    crate::text::lemma_split_concat(d2, rest2, '.');
    crate::text::lemma_split_concat(d3, d4, '.');
    crate::text::lemma_split_single(d4, '.');
    let gs = crate::text::split_char(s, '.');
    assert(gs =~= seq![d1, d2, d3, d4]);
    assert(gs[0] == d1 && gs[1] == d2 && gs[2] == d3 && gs[3] == d4);
}

/// Parse a dotted-decimal IPv4 address.  Returns `Ok` exactly on well-formed
/// input; the error names the offending string.
pub fn to_ip_addr(s: &str) -> (r: Result<IpAddress, String>)
    ensures
        r is Ok <==> is_ipv4_text(s@),
        r matches Ok(ip) ==> ip == ipv4_value(s@),
        r matches Err(e) ==> e@ == cannot_parse_msg(s@, "IP addr"@),
{
    let groups = split_str(s, '.');
    proof {
        assert(groups.deep_view().len() == groups@.len());
    }
    if groups.len() != 4 {
        return Err(cannot_parse(s, "IP addr"));
    }
    proof {
        assert(groups.deep_view()[0] == groups@[0]@);
        assert(groups.deep_view()[1] == groups@[1]@);
        assert(groups.deep_view()[2] == groups@[2]@);
        assert(groups.deep_view()[3] == groups@[3]@);
    }
    let a = match parse_octet(groups[0]) {
        Some(v) => v,
        None => {
            return Err(cannot_parse(s, "IP addr"));
        },
    };
    let b = match parse_octet(groups[1]) {
        Some(v) => v,
        None => {
            return Err(cannot_parse(s, "IP addr"));
        },
    };
    let c = match parse_octet(groups[2]) {
        Some(v) => v,
        None => {
            return Err(cannot_parse(s, "IP addr"));
        },
    };
    let d = match parse_octet(groups[3]) {
        Some(v) => v,
        None => {
            return Err(cannot_parse(s, "IP addr"));
        },
    };
    Ok(IpAddress { a, b, c, d })
}

} // verus!

//! Small verified helpers over strings and character sequences that the
//! matchers and the HTTP types share.

use vstd::prelude::*;

verus! {

/// The characters of `s`, as a vector.
pub fn str_to_chars(s: &str) -> (r: Vec<char>)
    ensures
        r@ == s@,
{
    let len = s.unicode_len();
    let mut r: Vec<char> = Vec::new();
    let mut i: usize = 0;
    while i < len
        invariant
            i <= len,
            len == s@.len(),
            r@ == s@.subrange(0, i as int),
        decreases len - i,
    {
        r.push(s.get_char(i));
        i = i + 1;
        proof {
            assert(r@ =~= s@.subrange(0, i as int));
        }
    }
    proof {
        assert(s@.subrange(0, len as int) =~= s@);
    }
    r
}

/// String equality, stated over the views.
pub fn str_eq(a: &str, b: &str) -> (r: bool)
    ensures
        r == (a@ == b@),
{
    let x: String = a.to_owned();
    let y: String = b.to_owned();
    x == y
}

/// Whether `p` stands at the beginning of `s`.
pub open spec fn is_prefix(p: Seq<char>, s: Seq<char>) -> bool {
    p.len() <= s.len() && s.subrange(0, p.len() as int) == p
}

/// Whether `p` stands at the end of `s`.
pub open spec fn is_suffix(p: Seq<char>, s: Seq<char>) -> bool {
    p.len() <= s.len() && s.subrange(s.len() - p.len(), s.len() as int) == p
}

/// Whether `s` starts with `p`.
pub fn str_starts_with(s: &str, p: &str) -> (r: bool)
    ensures
        r == is_prefix(p@, s@),
{
    let plen = p.unicode_len();
    let slen = s.unicode_len();
    if plen > slen {
        return false;
    }
    let sub = s.substring_char(0, plen);
    str_eq(sub, p)
}

/// Whether `s` ends with `p`.
pub fn str_ends_with(s: &str, p: &str) -> (r: bool)
    ensures
        r == is_suffix(p@, s@),
{
    let plen = p.unicode_len();
    let slen = s.unicode_len();
    if plen > slen {
        return false;
    }
    let sub = s.substring_char(slen - plen, slen);
    str_eq(sub, p)
}

/// Strict lexicographic order on character sequences, by code point: the
/// order `str`'s own comparison gives, since UTF-8 byte order agrees with
/// code-point order.
pub open spec fn chars_lt(a: Seq<char>, b: Seq<char>) -> bool
    decreases a.len(),
{
    if b.len() == 0 {
        false
    } else if a.len() == 0 {
        true
    } else if a[0] == b[0] {
        chars_lt(a.skip(1), b.skip(1))
    } else {
        (a[0] as u32) < (b[0] as u32)
    }
}

/// The order is strict and total: a sequence never precedes itself, and of
/// two unequal sequences exactly one precedes the other.
pub proof fn lemma_chars_lt_total(a: Seq<char>, b: Seq<char>)
    ensures
        a == b ==> !chars_lt(a, b),
        a != b ==> (chars_lt(a, b) <==> !chars_lt(b, a)),
    decreases a.len(),
{
    if a.len() == 0 || b.len() == 0 {
        if a.len() == 0 && b.len() == 0 {
            assert(a =~= b);
        }
    } else if a[0] == b[0] {
        lemma_chars_lt_total(a.skip(1), b.skip(1));
        if a == b {
            assert(a.skip(1) == b.skip(1));
        } else {
            assert(a.skip(1) != b.skip(1)) by {
                if a.skip(1) == b.skip(1) {
                    assert forall|i: int| 0 <= i < a.len() implies a[i] == b[i] by {
                        if i > 0 {
                            assert(a[i] == a.skip(1)[i - 1]);
                            assert(b[i] == b.skip(1)[i - 1]);
                        }
                    }
                    assert(a =~= b);
                }
            }
        }
    } else {
        assert(a != b) by {
            if a == b {
                assert(a[0] == b[0]);
            }
        }
        assert((a[0] as u32) != (b[0] as u32)) by {
            if (a[0] as u32) == (b[0] as u32) {
                vstd::utf8::char_u32_cast(a[0], a[0] as u32);
                vstd::utf8::char_u32_cast(b[0], b[0] as u32);
                assert(a[0] == b[0]);
            }
        }
    }
}

/// The order is transitive.
pub proof fn lemma_chars_lt_trans(a: Seq<char>, b: Seq<char>, c: Seq<char>)
    requires
        chars_lt(a, b),
        chars_lt(b, c),
    ensures
        chars_lt(a, c),
    decreases a.len(),
{
    if a.len() == 0 || b.len() == 0 || c.len() == 0 {
    } else if a[0] == b[0] && b[0] == c[0] {
        lemma_chars_lt_trans(a.skip(1), b.skip(1), c.skip(1));
    } else {
        assert((a[0] as u32) <= (b[0] as u32)) by {
            if a[0] != b[0] {
            }
        }
        assert((b[0] as u32) <= (c[0] as u32)) by {
            if b[0] != c[0] {
            }
        }
        assert(a[0] != c[0]) by {
            if a[0] == c[0] {
                assert((a[0] as u32) == (c[0] as u32));
                assert((a[0] as u32) == (b[0] as u32));
                vstd::utf8::char_u32_cast(a[0], a[0] as u32);
                vstd::utf8::char_u32_cast(b[0], b[0] as u32);
                assert(a[0] == b[0]);
                assert(b[0] == c[0]);
            }
        }
    }
}

/// Compare two strings in the lexicographic order.
pub fn str_lt(a: &str, b: &str) -> (r: bool)
    ensures
        r == chars_lt(a@, b@),
{
    let alen = a.unicode_len();
    let blen = b.unicode_len();
    let mut i: usize = 0;
    proof {
        assert(a@.skip(0) =~= a@);
        assert(b@.skip(0) =~= b@);
    }
    while i < alen && i < blen
        invariant
            i <= alen,
            i <= blen,
            alen == a@.len(),
            blen == b@.len(),
            chars_lt(a@, b@) == chars_lt(a@.skip(i as int), b@.skip(i as int)),
        decreases alen - i,
    {
        let ca = a.get_char(i);
        let cb = b.get_char(i);
        proof {
            assert(a@.skip(i as int)[0] == ca);
            assert(b@.skip(i as int)[0] == cb);
            assert(a@.skip(i as int).skip(1) =~= a@.skip(i as int + 1));
            assert(b@.skip(i as int).skip(1) =~= b@.skip(i as int + 1));
        }
        if ca != cb {
            return (ca as u32) < (cb as u32);
        }
        i = i + 1;
    }
    proof {
        if i >= blen {
            assert(b@.skip(i as int).len() == 0);
        } else {
            assert(a@.skip(i as int).len() == 0);
            assert(b@.skip(i as int).len() > 0);
        }
    }
    alen < blen
}

/// The text of a construction error: it names the offending input and what it
/// failed to be read as.
pub open spec fn cannot_parse_msg(s: Seq<char>, what: Seq<char>) -> Seq<char> {
    "Cannot parse `"@ + s + "` to "@ + what
}

/// Build the construction-error message for input `s` and target `what`.
pub fn cannot_parse(s: &str, what: &str) -> (r: String)
    ensures
        r@ == cannot_parse_msg(s@, what@),
{
    let mut m = String::from_str("Cannot parse `");
    m.append(s);
    m.append("` to ");
    m.append(what);
    m
}

/// The index of the first occurrence of `c` in `s`, or `-1` if there is
/// none.
pub open spec fn find_char(s: Seq<char>, c: char) -> int
    decreases s.len(),
{
    if s.len() == 0 {
        -1
    } else if s[0] == c {
        0
    } else {
        let r = find_char(s.skip(1), c);
        if r < 0 {
            -1
        } else {
            r + 1
        }
    }
}

/// `find_char` yields `-1` exactly when `c` does not occur, and otherwise
/// the first index at which it does.
pub proof fn lemma_find_char(s: Seq<char>, c: char)
    ensures
        find_char(s, c) == -1 ==> forall|k: int| 0 <= k < s.len() ==> s[k] != c,
        find_char(s, c) != -1 ==> {
            let r = find_char(s, c);
            &&& 0 <= r < s.len()
            &&& s[r] == c
            &&& forall|k: int| 0 <= k < r ==> s[k] != c
        },
    decreases s.len(),
{
    if s.len() == 0 {
    } else if s[0] == c {
    } else {
        lemma_find_char(s.skip(1), c);
        let r = find_char(s.skip(1), c);
        if r < 0 {
            assert forall|k: int| 0 <= k < s.len() implies s[k] != c by {
                if k > 0 {
                    assert(s.skip(1)[k - 1] == s[k]);
                }
            }
        } else {
            assert(s[r + 1] == s.skip(1)[r]);
            assert forall|k: int| 0 <= k < r + 1 implies s[k] != c by {
                if k > 0 {
                    assert(s.skip(1)[k - 1] == s[k]);
                }
            }
        }
    }
}

/// `s` cut at every occurrence of `sep`.  The result always holds at least
/// one piece; separators themselves are dropped, and neighbouring
/// separators produce empty pieces.
pub open spec fn split_char(s: Seq<char>, sep: char) -> Seq<Seq<char>>
    decreases s.len(),
{
    let i = find_char(s, sep);
    if 0 <= i < s.len() {
        seq![s.take(i)] + split_char(s.skip(i + 1), sep)
    } else {
        seq![s]
    }
}

/// If the first `sep` at or after `start` stands at `i`, splitting the tail
/// from `start` cuts off exactly the piece between them.
proof fn lemma_split_step(s: Seq<char>, sep: char, start: int, i: int)
    requires
        0 <= start <= i < s.len(),
        s[i] == sep,
        forall|k: int| start <= k < i ==> s[k] != sep,
    ensures
        split_char(s.skip(start), sep) == seq![s.subrange(start, i)] + split_char(
            s.skip(i + 1),
            sep,
        ),
{
    let t = s.skip(start);
    lemma_find_char(t, sep);
    assert(t[i - start] == sep);
    assert forall|k: int| 0 <= k < i - start implies t[k] != sep by {
        assert(t[k] == s[k + start]);
    }
    let r = find_char(t, sep);
    assert(r == i - start);
    assert(t.take(r) =~= s.subrange(start, i));
    assert(t.skip(r + 1) =~= s.skip(i + 1));
}

/// A tail without any `sep` is a single piece.
proof fn lemma_split_whole(s: Seq<char>, sep: char, start: int)
    requires
        0 <= start <= s.len(),
        forall|k: int| start <= k < s.len() ==> s[k] != sep,
    ensures
        split_char(s.skip(start), sep) == seq![s.subrange(start, s.len() as int)],
{
    let t = s.skip(start);
    lemma_find_char(t, sep);
    let r = find_char(t, sep);
    if 0 <= r < t.len() {
        assert(s[r + start] == sep);
    }
    assert(t =~= s.subrange(start, s.len() as int));
}

/// A separator-free string is a single piece.
pub proof fn lemma_split_single(g: Seq<char>, sep: char)
    requires
        !g.contains(sep),
    ensures
        split_char(g, sep) == seq![g],
{
    assert forall|k: int| 0 <= k < g.len() implies g[k] != sep by {
        if g[k] == sep {
            assert(g.contains(sep));
        }
    }
    lemma_split_whole(g, sep, 0);
    assert(g.skip(0) =~= g);
    assert(g.subrange(0, g.len() as int) =~= g);
}

/// A separator-free piece followed by a separator splits off whole: the
/// rest's pieces follow it.
pub proof fn lemma_split_concat(g: Seq<char>, rest: Seq<char>, sep: char)
    requires
        !g.contains(sep),
    ensures
        split_char(g + seq![sep] + rest, sep) == seq![g] + split_char(rest, sep),
{
    let s = g + seq![sep] + rest;
    assert(s[g.len() as int] == sep);
    assert forall|k: int| 0 <= k < g.len() implies s[k] != sep by {
        assert(s[k] == g[k]);
        if g[k] == sep {
            assert(g.contains(sep));
        }
    }
    lemma_split_step(s, sep, 0, g.len() as int);
    assert(s.skip(0) =~= s);
    assert(s.subrange(0, g.len() as int) =~= g);
    assert(s.skip(g.len() as int + 1) =~= rest);
}

/// Split `s` at every occurrence of `sep`.
pub fn split_str<'a>(s: &'a str, sep: char) -> (r: Vec<&'a str>)
    ensures
        r.deep_view() == split_char(s@, sep),
{
    let len = s.unicode_len();
    let mut r: Vec<&str> = Vec::new();
    let mut start: usize = 0;
    let mut i: usize = 0;
    proof {
        assert(s@.skip(0) =~= s@);
    }
    while i < len
        invariant
            start <= i <= len,
            len == s@.len(),
            forall|k: int| start <= k < i ==> s@[k] != sep,
            split_char(s@, sep) == r.deep_view() + split_char(s@.skip(start as int), sep),
        decreases len - i,
    {
        if s.get_char(i) == sep {
            let piece = s.substring_char(start, i);
            proof {
                lemma_split_step(s@, sep, start as int, i as int);
            }
            let ghost before = r.deep_view();
            r.push(piece);
            proof {
                assert(r.deep_view() =~= before + seq![piece@]);
                assert(before + (seq![piece@] + split_char(s@.skip(i as int + 1), sep)) =~= (
                before + seq![piece@]) + split_char(s@.skip(i as int + 1), sep));
            }
            start = i + 1;
        }
        i = i + 1;
    }
    let piece = s.substring_char(start, len);
    proof {
        lemma_split_whole(s@, sep, start as int);
    }
    let ghost before = r.deep_view();
    r.push(piece);
    proof {
        assert(r.deep_view() =~= before + seq![piece@]);
        assert(r.deep_view() =~= split_char(s@, sep));
    }
    r
}

/// Whether `c` carries Unicode's `White_Space` property: the tab-to-return
/// block, the space, next line, no-break space, the Ogham space mark, the
/// typographic spaces, both line separators, the narrow and medium
/// mathematical spaces and the ideographic space.
pub open spec fn is_space(c: char) -> bool {
    let u = c as u32;
    (9 <= u <= 13) || u == 32 || u == 0x85 || u == 0xA0 || u == 0x1680 || (0x2000 <= u <= 0x200A)
        || u == 0x2028 || u == 0x2029 || u == 0x202F || u == 0x205F || u == 0x3000
}

/// Whether `c` carries Unicode's `White_Space` property.
pub fn is_space_char(c: char) -> (r: bool)
    ensures
        r == is_space(c),
{
    let u = c as u32;
    (9 <= u && u <= 13) || u == 32 || u == 0x85 || u == 0xA0 || u == 0x1680 || (0x2000 <= u && u
        <= 0x200A) || u == 0x2028 || u == 0x2029 || u == 0x202F || u == 0x205F || u == 0x3000
}

/// Whether `s` holds nothing but whitespace.
pub open spec fn is_blank(s: Seq<char>) -> bool {
    forall|i: int| 0 <= i < s.len() ==> is_space(s[i])
}

/// Whether `s` holds nothing but whitespace.
pub fn str_is_blank(s: &str) -> (r: bool)
    ensures
        r == is_blank(s@),
{
    let len = s.unicode_len();
    let mut i: usize = 0;
    while i < len
        invariant
            i <= len,
            len == s@.len(),
            forall|j: int| 0 <= j < i ==> is_space(s@[j]),
        decreases len - i,
    {
        if !is_space_char(s.get_char(i)) {
            return false;
        }
        i = i + 1;
    }
    true
}

/// The index of the first whitespace character of `s`, or `-1`.
pub open spec fn find_space(s: Seq<char>) -> int
    decreases s.len(),
{
    if s.len() == 0 {
        -1
    } else if is_space(s[0]) {
        0
    } else {
        let r = find_space(s.skip(1));
        if r < 0 {
            -1
        } else {
            r + 1
        }
    }
}

/// `find_space` yields `-1` exactly when `s` holds no whitespace, and
/// otherwise the first index at which some stands.
pub proof fn lemma_find_space(s: Seq<char>)
    ensures
        find_space(s) == -1 ==> forall|k: int| 0 <= k < s.len() ==> !is_space(s[k]),
        find_space(s) != -1 ==> {
            let r = find_space(s);
            &&& 0 <= r < s.len()
            &&& is_space(s[r])
            &&& forall|k: int| 0 <= k < r ==> !is_space(s[k])
        },
    decreases s.len(),
{
    if s.len() == 0 {
    } else if is_space(s[0]) {
    } else {
        lemma_find_space(s.skip(1));
        let r = find_space(s.skip(1));
        if r < 0 {
            assert forall|k: int| 0 <= k < s.len() implies !is_space(s[k]) by {
                if k > 0 {
                    assert(s.skip(1)[k - 1] == s[k]);
                }
            }
        } else {
            assert(s[r + 1] == s.skip(1)[r]);
            assert forall|k: int| 0 <= k < r + 1 implies !is_space(s[k]) by {
                if k > 0 {
                    assert(s.skip(1)[k - 1] == s[k]);
                }
            }
        }
    }
}

/// The maximal whitespace-free runs of `s`, in order: what remains when all
/// whitespace is taken for separators and empty pieces are dropped.
pub open spec fn ws_tokens(s: Seq<char>) -> Seq<Seq<char>>
    decreases s.len(),
{
    if s.len() == 0 {
        Seq::empty()
    } else if is_space(s[0]) {
        ws_tokens(s.skip(1))
    } else {
        let i = find_space(s);
        if 1 <= i < s.len() {
            seq![s.take(i)] + ws_tokens(s.skip(i))
        } else {
            seq![s]
        }
    }
}

/// If a token starts at `pos` and runs to `j` (the next whitespace, or the
/// end), tokenizing from `pos` yields that token and then the rest.
proof fn lemma_tokens_step(s: Seq<char>, pos: int, j: int)
    requires
        0 <= pos < j <= s.len(),
        forall|k: int| pos <= k < j ==> !is_space(s[k]),
        j < s.len() ==> is_space(s[j]),
    ensures
        ws_tokens(s.skip(pos)) == seq![s.subrange(pos, j)] + ws_tokens(s.skip(j)),
{
    let t = s.skip(pos);
    assert(t[0] == s[pos]);
    lemma_find_space(t);
    let r = find_space(t);
    if j == s.len() {
        assert(r == -1) by {
            if r != -1 {
                assert(s[r + pos] == t[r]);
            }
        }
        assert(t =~= s.subrange(pos, j));
        assert(s.skip(j).len() == 0);
        assert(ws_tokens(s.skip(j)) == Seq::<Seq<char>>::empty());
        assert(seq![s.subrange(pos, j)] + ws_tokens(s.skip(j)) =~= seq![t]);
    } else {
        assert(r == j - pos) by {
            assert(t[j - pos] == s[j]);
            if r == -1 {
            } else {
                assert forall|k: int| 0 <= k < j - pos implies !is_space(t[k]) by {
                    assert(t[k] == s[k + pos]);
                }
                if r < j - pos {
                    assert(!is_space(t[r]));
                }
            }
        }
        assert(t.take(r) =~= s.subrange(pos, j));
        assert(t.skip(r) =~= s.skip(j));
    }
}

/// The first whitespace index of `s` at or after `from`, or `len`.
fn find_space_from(s: &str, from: usize, len: usize) -> (j: usize)
    requires
        from <= len,
        len == s@.len(),
    ensures
        from <= j <= len,
        forall|k: int| from <= k < j ==> !is_space(s@[k]),
        j < len ==> is_space(s@[j as int]),
{
    let mut i: usize = from;
    while i < len
        invariant
            from <= i <= len,
            len == s@.len(),
            forall|k: int| from <= k < i ==> !is_space(s@[k]),
        decreases len - i,
    {
        if is_space_char(s.get_char(i)) {
            return i;
        }
        i = i + 1;
    }
    len
}

/// Split `s` into its whitespace-separated tokens.
pub fn ws_split<'a>(s: &'a str) -> (r: Vec<&'a str>)
    ensures
        r.deep_view() == ws_tokens(s@),
{
    let len = s.unicode_len();
    let mut r: Vec<&str> = Vec::new();
    let mut pos: usize = 0;
    proof {
        assert(s@.skip(0) =~= s@);
    }
    while pos < len
        invariant
            pos <= len,
            len == s@.len(),
            ws_tokens(s@) == r.deep_view() + ws_tokens(s@.skip(pos as int)),
        decreases len - pos,
    {
        let c = s.get_char(pos);
        if is_space_char(c) {
            proof {
                assert(s@.skip(pos as int)[0] == s@[pos as int]);
                assert(s@.skip(pos as int).skip(1) =~= s@.skip(pos as int + 1));
            }
            pos = pos + 1;
        } else {
            let j = find_space_from(s, pos, len);
            let piece = s.substring_char(pos, j);
            proof {
                lemma_tokens_step(s@, pos as int, j as int);
            }
            let ghost before = r.deep_view();
            r.push(piece);
            proof {
                assert(r.deep_view() =~= before + seq![piece@]);
                assert(before + (seq![piece@] + ws_tokens(s@.skip(j as int))) =~= (before + seq![
                    piece@,
                ]) + ws_tokens(s@.skip(j as int)));
            }
            pos = j;
        }
    }
    proof {
        assert(s@.skip(len as int).len() == 0);
        assert(r.deep_view() + ws_tokens(s@.skip(len as int)) =~= r.deep_view());
    }
    r
}

/// The ASCII upper-case form of `c`; other characters stay as they are.
pub open spec fn upper_char(c: char) -> char {
    if c == 'a' {
        'A'
    } else if c == 'b' {
        'B'
    } else if c == 'c' {
        'C'
    } else if c == 'd' {
        'D'
    } else if c == 'e' {
        'E'
    } else if c == 'f' {
        'F'
    } else if c == 'g' {
        'G'
    } else if c == 'h' {
        'H'
    } else if c == 'i' {
        'I'
    } else if c == 'j' {
        'J'
    } else if c == 'k' {
        'K'
    } else if c == 'l' {
        'L'
    } else if c == 'm' {
        'M'
    } else if c == 'n' {
        'N'
    } else if c == 'o' {
        'O'
    } else if c == 'p' {
        'P'
    } else if c == 'q' {
        'Q'
    } else if c == 'r' {
        'R'
    } else if c == 's' {
        'S'
    } else if c == 't' {
        'T'
    } else if c == 'u' {
        'U'
    } else if c == 'v' {
        'V'
    } else if c == 'w' {
        'W'
    } else if c == 'x' {
        'X'
    } else if c == 'y' {
        'Y'
    } else if c == 'z' {
        'Z'
    } else {
        c
    }
}

/// The ASCII upper-case form of `c`.
pub fn ascii_upper(c: char) -> (r: char)
    ensures
        r == upper_char(c),
{
    match c {
        'a' => 'A',
        'b' => 'B',
        'c' => 'C',
        'd' => 'D',
        'e' => 'E',
        'f' => 'F',
        'g' => 'G',
        'h' => 'H',
        'i' => 'I',
        'j' => 'J',
        'k' => 'K',
        'l' => 'L',
        'm' => 'M',
        'n' => 'N',
        'o' => 'O',
        'p' => 'P',
        'q' => 'Q',
        'r' => 'R',
        's' => 'S',
        't' => 'T',
        'u' => 'U',
        'v' => 'V',
        'w' => 'W',
        'x' => 'X',
        'y' => 'Y',
        'z' => 'Z',
        other => other,
    }
}

/// Whether `s`, taken to ASCII upper case, equals `k`.
pub open spec fn upper_eq(s: Seq<char>, k: Seq<char>) -> bool {
    s.len() == k.len() && forall|i: int| 0 <= i < s.len() ==> upper_char(s[i]) == k[i]
}

/// Compare `s`, taken to ASCII upper case, with `k`.
pub fn str_upper_eq(s: &str, k: &str) -> (r: bool)
    ensures
        r == upper_eq(s@, k@),
{
    let slen = s.unicode_len();
    let klen = k.unicode_len();
    if slen != klen {
        return false;
    }
    let mut i: usize = 0;
    while i < slen
        invariant
            i <= slen,
            slen == s@.len(),
            slen == k@.len(),
            forall|j: int| 0 <= j < i ==> upper_char(s@[j]) == k@[j],
        decreases slen - i,
    {
        if ascii_upper(s.get_char(i)) != k.get_char(i) {
            return false;
        }
        i = i + 1;
    }
    true
}

/// Whether `n` occurs in `h` as a contiguous run.
pub open spec fn contains_sub(h: Seq<char>, n: Seq<char>) -> bool {
    exists|i: int| 0 <= i <= h.len() - n.len() && #[trigger] h.subrange(i, i + n.len() as int)
        == n
}

/// Whether `n` occurs in `h`.
pub fn str_contains(h: &str, n: &str) -> (r: bool)
    ensures
        r == contains_sub(h@, n@),
{
    let hl = h.unicode_len();
    let nl = n.unicode_len();
    if nl > hl {
        return false;
    }
    if nl == 0 {
        proof {
            assert(h@.subrange(0, 0 + n@.len() as int) =~= n@);
        }
        return true;
    }
    let limit = hl - nl;
    let mut i: usize = 0;
    while i <= limit
        invariant
            1 <= nl <= hl,
            limit == hl - nl,
            hl == h@.len(),
            nl == n@.len(),
            i <= limit + 1,
            forall|j: int| 0 <= j < i ==> #[trigger] h@.subrange(j, j + n@.len() as int) != n@,
        decreases limit + 1 - i,
    {
        let piece = h.substring_char(i, i + nl);
        if str_eq(piece, n) {
            return true;
        }
        i = i + 1;
    }
    false
}

/// The index of the first pair in `ps` whose key is `k`, or `-1`.
pub open spec fn find_key(ps: Seq<(Seq<char>, Seq<char>)>, k: Seq<char>) -> int
    decreases ps.len(),
{
    if ps.len() == 0 {
        -1
    } else if ps[0].0 == k {
        0
    } else {
        let r = find_key(ps.skip(1), k);
        if r < 0 {
            -1
        } else {
            r + 1
        }
    }
}

/// `find_key` yields `-1` exactly when no pair carries the key, and
/// otherwise the first index of one that does.
pub proof fn lemma_find_key(ps: Seq<(Seq<char>, Seq<char>)>, k: Seq<char>)
    ensures
        find_key(ps, k) == -1 ==> forall|j: int| 0 <= j < ps.len() ==> ps[j].0 != k,
        find_key(ps, k) != -1 ==> {
            let r = find_key(ps, k);
            &&& 0 <= r < ps.len()
            &&& ps[r].0 == k
            &&& forall|j: int| 0 <= j < r ==> ps[j].0 != k
        },
    decreases ps.len(),
{
    if ps.len() == 0 {
    } else if ps[0].0 == k {
    } else {
        lemma_find_key(ps.skip(1), k);
        let r = find_key(ps.skip(1), k);
        if r < 0 {
            assert forall|j: int| 0 <= j < ps.len() implies ps[j].0 != k by {
                if j > 0 {
                    assert(ps.skip(1)[j - 1] == ps[j]);
                }
            }
        } else {
            assert(ps[r + 1] == ps.skip(1)[r]);
            assert forall|j: int| 0 <= j < r + 1 implies ps[j].0 != k by {
                if j > 0 {
                    assert(ps.skip(1)[j - 1] == ps[j]);
                }
            }
        }
    }
}

/// `ps` with the value for `k` set to `v`: an existing pair keeps its place
/// with its value replaced, a fresh key is appended.
pub open spec fn upsert(
    ps: Seq<(Seq<char>, Seq<char>)>,
    k: Seq<char>,
    v: Seq<char>,
) -> Seq<(Seq<char>, Seq<char>)> {
    let i = find_key(ps, k);
    if 0 <= i < ps.len() {
        ps.update(i, (k, v))
    } else {
        ps.push((k, v))
    }
}

/// Set the value for `k` to `v`, replacing an existing pair in place or
/// appending a fresh one.
pub fn upsert_pair(ps: &mut Vec<(String, String)>, k: String, v: String)
    ensures
        final(ps).deep_view() == upsert(old(ps).deep_view(), k@, v@),
{
    proof {
        lemma_find_key(old(ps).deep_view(), k@);
    }
    let mut i: usize = 0;
    while i < ps.len()
        invariant
            i <= ps.len(),
            *ps == *old(ps),
            forall|j: int| 0 <= j < i ==> ps.deep_view()[j].0 != k@,
        decreases ps.len() - i,
    {
        if str_eq(ps[i].0.as_str(), k.as_str()) {
            proof {
                assert(old(ps).deep_view()[i as int].0 == k@);
            }
            let _ = ps.remove(i);
            ps.insert(i, (k, v));
            proof {
                let od = old(ps).deep_view();
                let w = i as int;
                assert(find_key(od, k@) == w) by {
                    lemma_find_key(od, k@);
                    if find_key(od, k@) == -1 {
                        assert(od[w].0 == k@);
                    } else {
                        let r = find_key(od, k@);
                        if r < w {
                            assert(od[r].0 != k@);
                        }
                        if r > w {
                            assert(od[w].0 != k@);
                        }
                    }
                }
                assert(ps@ =~= old(ps)@.update(w, ps@[w]));
                assert(ps.deep_view()[w] == (k@, v@));
                assert forall|j: int| 0 <= j < ps.deep_view().len() implies ps.deep_view()[j]
                    == upsert(od, k@, v@)[j] by {
                    if j != w {
                        assert(ps@[j] == old(ps)@[j]);
                    }
                }
                assert(ps.deep_view() =~= upsert(od, k@, v@));
            }
            return ;
        }
        i = i + 1;
    }
    ps.push((k, v));
    proof {
        let od = old(ps).deep_view();
        lemma_find_key(od, k@);
        if find_key(od, k@) != -1 {
            assert(od[find_key(od, k@)].0 == k@);
        }
        assert(ps.deep_view() =~= upsert(od, k@, v@));
    }
}

/// Whether `c` occurs in `s`.
pub fn str_contains_char(s: &str, c: char) -> (r: bool)
    ensures
        r == s@.contains(c),
{
    let len = s.unicode_len();
    let mut i: usize = 0;
    while i < len
        invariant
            i <= len,
            len == s@.len(),
            forall|j: int| 0 <= j < i ==> s@[j] != c,
        decreases len - i,
    {
        if s.get_char(i) == c {
            return true;
        }
        i = i + 1;
    }
    false
}

} // verus!

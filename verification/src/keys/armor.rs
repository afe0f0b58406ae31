//! The armored text form of a public key:
//!
//! ```text
//! -----BEGIN DIEGOX PUBLIC KEY-----
//! <base64 of the key's binary form>
//! -----END DIEGOX PUBLIC KEY-----
//! ```
use crate::keys::encoding::parsed_public_key;
use crate::text::{base64_standard_decode, is_base64_symbol};
use vstd::prelude::*;

verus! {

/// The line that opens an armored public key.
pub const KEY_HEADER: &'static str = "-----BEGIN DIEGOX PUBLIC KEY-----";

/// The line that closes an armored public key.
pub const KEY_FOOTER: &'static str = "-----END DIEGOX PUBLIC KEY-----";

/// `needle` occurs in `hay` at position `p`.
pub open spec fn matches_at(hay: Seq<char>, needle: Seq<char>, p: int) -> bool {
    0 <= p && p + needle.len() <= hay.len() && hay.subrange(p, p + needle.len()) == needle
}

/// `p` is the first position where `needle` occurs in `hay`.
pub open spec fn is_first_match(hay: Seq<char>, needle: Seq<char>, p: int) -> bool {
    &&& matches_at(hay, needle, p)
    &&& forall|r: int| 0 <= r < p ==> !#[trigger] matches_at(hay, needle, r)
}

/// The first position where `needle` occurs in `hay`, if it occurs.
pub open spec fn first_match(hay: Seq<char>, needle: Seq<char>) -> Option<int> {
    if exists|p: int| is_first_match(hay, needle, p) {
        Some(choose|p: int| is_first_match(hay, needle, p))
    } else {
        None
    }
}

/// Unicode `White_Space`, the characters `str::trim` removes.
pub open spec fn is_white_space(c: char) -> bool {
    let u = c as u32;
    (0x09 <= u && u <= 0x0D) || u == 0x20 || u == 0x85 || u == 0xA0 || u == 0x1680 || (0x2000 <= u
        && u <= 0x200A) || u == 0x2028 || u == 0x2029 || u == 0x202F || u == 0x205F || u == 0x3000
}

/// Every character of `s` is white space.
pub open spec fn all_white(s: Seq<char>) -> bool {
    forall|i: int| 0 <= i < s.len() ==> is_white_space(#[trigger] s[i])
}

/// `lo` is the position of the first character of `s` that is not white
/// space.
pub open spec fn is_trim_start(s: Seq<char>, lo: int) -> bool {
    &&& 0 <= lo < s.len()
    &&& !is_white_space(s[lo])
    &&& forall|i: int| 0 <= i < lo ==> is_white_space(#[trigger] s[i])
}

/// `hi` is one past the position of the last character of `s` that is not
/// white space.
pub open spec fn is_trim_end(s: Seq<char>, hi: int) -> bool {
    &&& 0 < hi <= s.len()
    &&& !is_white_space(s[hi - 1])
    &&& forall|i: int| hi <= i < s.len() ==> is_white_space(#[trigger] s[i])
}

/// `s` without leading and trailing white space.
pub open spec fn trimmed(s: Seq<char>) -> Seq<char> {
    if all_white(s) {
        Seq::empty()
    } else {
        s.subrange(choose|lo: int| is_trim_start(s, lo), choose|hi: int| is_trim_end(s, hi))
    }
}

/// The characters that the key text may be broken with: line feed,
/// carriage return, space.
pub open spec fn is_break(c: char) -> bool {
    c == '\n' || c == '\r' || c == ' '
}

/// `s` with every line feed, carriage return and space removed.
pub open spec fn without_breaks(s: Seq<char>) -> Seq<char>
    decreases s.len(),
{
    if s.len() == 0 {
        s
    } else {
        let rest = without_breaks(s.drop_last());
        if is_break(s.last()) {
            rest
        } else {
            rest.push(s.last())
        }
    }
}

/// The base64 body of an armored key: the text between the first header
/// and the first footer, trimmed and without breaks; `None` when a header
/// or a footer is missing.
pub open spec fn armor_body(text: Seq<char>) -> Option<Seq<char>> {
    match (first_match(text, KEY_HEADER@), first_match(text, KEY_FOOTER@)) {
        (Some(h), Some(f)) => Some(without_breaks(trimmed(text.subrange(h + KEY_HEADER@.len(), f)))),
        _ => None,
    }
}

/// The first footer does not start inside the first header: the body
/// between them can be cut out.
pub open spec fn armor_is_ordered(text: Seq<char>) -> bool {
    match (first_match(text, KEY_HEADER@), first_match(text, KEY_FOOTER@)) {
        (Some(h), Some(f)) => h + KEY_HEADER@.len() <= f,
        _ => true,
    }
}

/// The armored text around a base64 body.
pub open spec fn armored(body: Seq<char>) -> Seq<char> {
    KEY_HEADER@ + seq!['\n'] + body + seq!['\n'] + KEY_FOOTER@
}

/// What reading a public key from its armored text gives: the seed and the
/// coefficients, or the error message.
pub open spec fn public_key_from_armor(text: Seq<char>) -> Result<(Seq<u8>, Seq<i64>), Seq<char>> {
    match armor_body(text) {
        None => Err("Invalid armored format: missing headers"@),
        Some(body) => match base64_standard_decode(body) {
            None => Err("Invalid or corrupted Base64"@),
            Some(bytes) => match parsed_public_key(bytes) {
                None => Err("Invalid public key structure"@),
                Some(key) => Ok(key),
            },
        },
    }
}

/// The first position of `needle` in `hay`, by a left-to-right scan.
pub(crate) fn find_chars(hay: &Vec<char>, needle: &Vec<char>) -> (pos: Option<usize>)
    ensures
        match pos {
            Some(p) => first_match(hay@, needle@) == Some(p as int),
            None => first_match(hay@, needle@) is None,
        },
{
    let n = hay.len();
    let m = needle.len();
    if m > n {
        assert forall|p: int| !is_first_match(hay@, needle@, p) by {}
        return None;
    }
    let mut p: usize = 0;
    while p <= n - m
        invariant
            n == hay@.len(),
            m == needle@.len(),
            m <= n,
            p <= n - m + 1,
            forall|r: int| 0 <= r < p ==> !#[trigger] matches_at(hay@, needle@, r),
        decreases n - p,
    {
        let mut k: usize = 0;
        let mut same = true;
        while k < m
            invariant
                n == hay@.len(),
                m == needle@.len(),
                p + m <= n,
                k <= m,
                same == (forall|t: int| 0 <= t < k ==> hay@[p + t] == needle@[t]),
            decreases m - k,
        {
            if hay[p + k] != needle[k] {
                same = false;
            }
            k = k + 1;
        }
        if same {
            assert(hay@.subrange(p as int, p + m) =~= needle@);
            assert(is_first_match(hay@, needle@, p as int));
            assert forall|r: int| is_first_match(hay@, needle@, r) implies r == p by {
                if r < p {
                } else if r > p {
                    assert(!matches_at(hay@, needle@, p as int));
                }
            }
            return Some(p);
        }
        assert(!matches_at(hay@, needle@, p as int)) by {
            if matches_at(hay@, needle@, p as int) {
                assert forall|t: int| 0 <= t < m implies hay@[p + t] == needle@[t] by {
                    assert(hay@.subrange(p as int, p + m)[t] == needle@[t]);
                }
            }
        }
        p = p + 1;
    }
    assert forall|r: int| !is_first_match(hay@, needle@, r) by {
        if is_first_match(hay@, needle@, r) {
            assert(r < p);
        }
    }
    None
}

/// `c` is Unicode white space.
fn white_space(c: char) -> (w: bool)
    ensures
        w == is_white_space(c),
{
    let u = c as u32;
    (0x09 <= u && u <= 0x0D) || u == 0x20 || u == 0x85 || u == 0xA0 || u == 0x1680 || (0x2000 <= u
        && u <= 0x200A) || u == 0x2028 || u == 0x2029 || u == 0x202F || u == 0x205F || u == 0x3000
}

/// `s[lo..hi]` as a `Vec`.
fn copy_range(s: &Vec<char>, lo: usize, hi: usize) -> (out: Vec<char>)
    requires
        lo <= hi <= s@.len(),
    ensures
        out@ == s@.subrange(lo as int, hi as int),
{
    let mut out: Vec<char> = Vec::new();
    let mut k = lo;
    while k < hi
        invariant
            lo <= k <= hi,
            hi <= s@.len(),
            out@ == s@.subrange(lo as int, k as int),
        decreases hi - k,
    {
        out.push(s[k]);
        k = k + 1;
        assert(out@ =~= s@.subrange(lo as int, k as int));
    }
    out
}

/// Where `s` starts and ends once leading and trailing white space is
/// removed.
pub(crate) fn trim_bounds(s: &Vec<char>) -> (r: (usize, usize))
    ensures
        r.0 <= r.1 <= s@.len(),
        s@.subrange(r.0 as int, r.1 as int) == trimmed(s@),
        (r.0 == r.1) == all_white(s@),
{
    let n = s.len();
    let mut lo: usize = 0;
    while lo < n && white_space(s[lo])
        invariant
            n == s@.len(),
            lo <= n,
            forall|i: int| 0 <= i < lo ==> is_white_space(#[trigger] s@[i]),
        decreases n - lo,
    {
        lo = lo + 1;
    }
    if lo == n {
        assert(all_white(s@));
        assert(s@.subrange(n as int, n as int) =~= trimmed(s@));
        return (n, n);
    }
    let mut hi: usize = n;
    while hi > lo + 1 && white_space(s[hi - 1])
        invariant
            n == s@.len(),
            lo < hi <= n,
            forall|i: int| hi <= i < n ==> is_white_space(#[trigger] s@[i]),
        decreases hi,
    {
        hi = hi - 1;
    }
    assert(is_trim_start(s@, lo as int));
    assert(is_trim_end(s@, hi as int));
    assert(!all_white(s@));
    assert forall|l: int| is_trim_start(s@, l) implies l == lo by {
        if l < lo {
            assert(is_white_space(s@[l]));
        }
        if l > lo {
            assert(is_white_space(s@[lo as int]));
        }
    }
    assert forall|h: int| is_trim_end(s@, h) implies h == hi by {
        if h < hi {
            assert(is_white_space(s@[hi - 1]));
        }
        if h > hi {
            assert(is_white_space(s@[h - 1]));
        }
    }
    (lo, hi)
}

/// `s` without leading and trailing white space.
pub(crate) fn trim_chars(s: &Vec<char>) -> (t: Vec<char>)
    ensures
        t@ == trimmed(s@),
{
    let (lo, hi) = trim_bounds(s);
    copy_range(s, lo, hi)
}

/// `s` with every line feed, carriage return and space removed.
pub(crate) fn remove_breaks(s: &Vec<char>) -> (out: Vec<char>)
    ensures
        out@ == without_breaks(s@),
{
    let mut out: Vec<char> = Vec::new();
    let mut k: usize = 0;
    while k < s.len()
        invariant
            k <= s@.len(),
            out@ == without_breaks(s@.subrange(0, k as int)),
        decreases s@.len() - k,
    {
        let c = s[k];
        assert(s@.subrange(0, k + 1).drop_last() =~= s@.subrange(0, k as int));
        if !(c == '\n' || c == '\r' || c == ' ') {
            out.push(c);
        }
        k = k + 1;
    }
    assert(s@.subrange(0, s@.len() as int) =~= s@);
    out
}

/// A base64 symbol is neither white space, nor a break, nor a dash.
proof fn lemma_base64_symbol_is_plain(c: char)
    requires
        is_base64_symbol(c),
    ensures
        !is_white_space(c),
        !is_break(c),
        c != '-',
{
}

/// Removing breaks from a text without breaks changes nothing.
proof fn lemma_without_breaks_unchanged(s: Seq<char>)
    requires
        forall|i: int| 0 <= i < s.len() ==> !is_break(#[trigger] s[i]),
    ensures
        without_breaks(s) == s,
    decreases s.len(),
{
    if s.len() > 0 {
        lemma_without_breaks_unchanged(s.drop_last());
        assert(s.drop_last().push(s.last()) =~= s);
    }
}

/// A line break, a base64 body, a line break: trimmed, the body.
proof fn lemma_trim_framed(body: Seq<char>)
    requires
        forall|i: int| 0 <= i < body.len() ==> is_base64_symbol(#[trigger] body[i]),
    ensures
        trimmed(seq!['\n'] + body + seq!['\n']) == body,
{
    let m = seq!['\n'] + body + seq!['\n'];
    let l = body.len() as int;
    assert(is_white_space('\n'));
    assert forall|i: int| 0 <= i < l implies !is_white_space(#[trigger] m[i + 1]) by {
        assert(m[i + 1] == body[i]);
        lemma_base64_symbol_is_plain(body[i]);
    }
    if l == 0 {
        assert(all_white(m));
        assert(body =~= Seq::<char>::empty());
    } else {
        assert(!is_white_space(m[1]));
        assert(!is_white_space(m[l]));
        assert(is_trim_start(m, 1));
        assert(is_trim_end(m, 1 + l));
        assert(!all_white(m));
        assert forall|lo: int| is_trim_start(m, lo) implies lo == 1 by {
            if lo > 1 {
                assert(is_white_space(m[1]));
            }
        }
        assert forall|hi: int| is_trim_end(m, hi) implies hi == 1 + l by {
            if hi < 1 + l {
                assert(!is_white_space(m[l]));
                assert(is_white_space(m[l]));
            }
        }
        assert(m.subrange(1, 1 + l) =~= body);
    }
}

/// A symbol of the body of a wrapped key text: a base64 symbol or a line
/// feed.
pub open spec fn is_body_char(c: char) -> bool {
    is_base64_symbol(c) || c == '\n'
}

/// Breaks removed from two texts in turn are removed from the two joined.
proof fn lemma_without_breaks_concat(a: Seq<char>, b: Seq<char>)
    ensures
        without_breaks(a + b) == without_breaks(a) + without_breaks(b),
    decreases b.len(),
{
    if b.len() == 0 {
        assert(a + b =~= a);
        assert(without_breaks(b) =~= Seq::<char>::empty());
        assert(without_breaks(a) + without_breaks(b) =~= without_breaks(a));
    } else {
        lemma_without_breaks_concat(a, b.drop_last());
        assert((a + b).drop_last() =~= a + b.drop_last());
        assert((a + b).last() == b.last());
        if is_break(b.last()) {
        } else {
            assert(without_breaks(a) + without_breaks(b.drop_last()).push(b.last()) =~= (
            without_breaks(a) + without_breaks(b.drop_last())).push(b.last()));
        }
    }
}

/// White space on either side of a text that starts and ends with other
/// characters is what trimming removes.
proof fn lemma_trim_between(pre: Seq<char>, body: Seq<char>, suf: Seq<char>)
    requires
        all_white(pre),
        all_white(suf),
        body.len() > 0,
        !is_white_space(body[0]),
        !is_white_space(body.last()),
    ensures
        trimmed(pre + body + suf) == body,
{
    let m = pre + body + suf;
    let lo = pre.len() as int;
    let hi = lo + body.len();
    assert(m[lo] == body[0]);
    assert(m[hi - 1] == body.last());
    assert forall|i: int| 0 <= i < lo implies is_white_space(#[trigger] m[i]) by {
        assert(m[i] == pre[i]);
    }
    assert forall|i: int| hi <= i < m.len() implies is_white_space(#[trigger] m[i]) by {
        assert(m[i] == suf[i - hi]);
    }
    assert(is_trim_start(m, lo));
    assert(is_trim_end(m, hi));
    assert(!all_white(m));
    assert forall|l: int| is_trim_start(m, l) implies l == lo by {
        if l > lo {
            assert(is_white_space(m[lo]));
        }
        if l < lo {
            assert(is_white_space(m[l]));
        }
    }
    assert forall|h: int| is_trim_end(m, h) implies h == hi by {
        if h < hi {
            assert(is_white_space(m[hi - 1]));
        }
        if h > hi {
            assert(is_white_space(m[h - 1]));
        }
    }
    assert(m.subrange(lo, hi) =~= body);
}

/// In an armored text whose body holds base64 symbols and line feeds, the
/// first header is at the start and the first footer right after the body,
/// so the body read back is the one framed by the two line breaks.
proof fn lemma_armor_frame(body: Seq<char>)
    requires
        forall|i: int| 0 <= i < body.len() ==> is_body_char(#[trigger] body[i]),
    ensures
        armor_body(armored(body)) == Some(
            without_breaks(trimmed(seq!['\n'] + body + seq!['\n'])),
        ),
        armor_is_ordered(armored(body)),
{
    reveal_strlit("-----BEGIN DIEGOX PUBLIC KEY-----");
    reveal_strlit("-----END DIEGOX PUBLIC KEY-----");
    let h = KEY_HEADER@;
    let f = KEY_FOOTER@;
    let text = armored(body);
    let l = body.len() as int;
    assert(h.len() == 33);
    assert(f.len() == 31);
    // The header is first found at 0.
    assert(text.subrange(0, 33) =~= h);
    assert(is_first_match(text, h, 0));
    assert forall|r: int| is_first_match(text, h, r) implies r == 0 by {
        if r > 0 {
            assert(!matches_at(text, h, 0));
        }
    }
    // The footer is first found after the body.
    let fp = 35 + l;
    assert(text.subrange(fp, fp + 31) =~= f);
    assert forall|r: int| 0 <= r < fp implies !#[trigger] matches_at(text, f, r) by {
        if matches_at(text, f, r) {
            let w = text.subrange(r, r + 31);
            if r <= 2 {
                assert(text[5] == 'B');
                assert(w[5 - r] == text[5]);
                assert(f[5 - r] != 'B');
            } else if r <= 33 {
                assert(text[33] == '\n');
                assert(w[33 - r] == text[33]);
                assert(f[33 - r] != '\n');
            } else if r < 34 + l {
                assert(text[r] == body[r - 34]);
                assert(is_body_char(body[r - 34]));
                assert(w[0] == text[r]);
                assert(f[0] == '-');
            } else {
                assert(text[r] == '\n');
                assert(w[0] == text[r]);
            }
        }
    }
    assert(is_first_match(text, f, fp));
    assert forall|r: int| is_first_match(text, f, r) implies r == fp by {
        if r > fp {
            assert(!matches_at(text, f, fp));
        }
    }
    assert(text.subrange(33, fp) =~= seq!['\n'] + body + seq!['\n']);
}

/// In an armored text the first header is at the start, the first footer
/// right after the body, and the body comes back out.
pub proof fn lemma_armor_body(body: Seq<char>)
    requires
        forall|i: int| 0 <= i < body.len() ==> is_base64_symbol(#[trigger] body[i]),
    ensures
        armor_body(armored(body)) == Some(body),
        armor_is_ordered(armored(body)),
{
    lemma_armor_frame(body);
    lemma_trim_framed(body);
    assert forall|i: int| 0 <= i < body.len() implies !is_break(#[trigger] body[i]) by {
        lemma_base64_symbol_is_plain(body[i]);
    }
    lemma_without_breaks_unchanged(body);
}

/// A key text whose base64 body is wrapped onto two lines reads as the
/// text with the body on one line: the line feed between the two parts is
/// ignored, whatever the split.
pub proof fn lemma_wrapped_body_reads_as_one_line(b1: Seq<char>, b2: Seq<char>)
    requires
        forall|i: int| 0 <= i < b1.len() ==> is_base64_symbol(#[trigger] b1[i]),
        forall|i: int| 0 <= i < b2.len() ==> is_base64_symbol(#[trigger] b2[i]),
    ensures
        public_key_from_armor(
            KEY_HEADER@ + seq!['\n'] + b1 + seq!['\n'] + b2 + seq!['\n'] + KEY_FOOTER@,
        ) == public_key_from_armor(armored(b1 + b2)),
        armor_is_ordered(
            KEY_HEADER@ + seq!['\n'] + b1 + seq!['\n'] + b2 + seq!['\n'] + KEY_FOOTER@,
        ),
{
    let nl = seq!['\n'];
    let w = b1 + nl + b2;
    let joined = b1 + b2;
    assert(KEY_HEADER@ + nl + b1 + nl + b2 + nl + KEY_FOOTER@ =~= armored(w));
    assert forall|i: int| 0 <= i < w.len() implies is_body_char(#[trigger] w[i]) by {
        if i < b1.len() {
            assert(w[i] == b1[i]);
        } else if i > b1.len() {
            assert(w[i] == b2[i - b1.len() - 1]);
        }
    }
    lemma_armor_frame(w);
    assert forall|i: int| 0 <= i < joined.len() implies is_base64_symbol(#[trigger] joined[i]) by {
        if i < b1.len() {
            assert(joined[i] == b1[i]);
        } else {
            assert(joined[i] == b2[i - b1.len()]);
        }
    }
    lemma_armor_body(joined);
    assert forall|i: int| 0 <= i < b1.len() implies !is_break(#[trigger] b1[i]) by {
        lemma_base64_symbol_is_plain(b1[i]);
    }
    assert forall|i: int| 0 <= i < b2.len() implies !is_break(#[trigger] b2[i]) by {
        lemma_base64_symbol_is_plain(b2[i]);
    }
    lemma_without_breaks_unchanged(b1);
    lemma_without_breaks_unchanged(b2);
    assert(is_white_space('\n'));
    assert(all_white(nl));
    assert(all_white(nl + nl)) by {
        assert forall|i: int| 0 <= i < (nl + nl).len() implies is_white_space(#[trigger] (nl
            + nl)[i]) by {
            assert((nl + nl)[i] == '\n');
        }
    }
    assert(all_white(Seq::<char>::empty()));
    let framed = nl + w + nl;
    // The trimmed body, by whether each part is empty.
    if b1.len() > 0 && b2.len() > 0 {
        lemma_base64_symbol_is_plain(b1[0]);
        lemma_base64_symbol_is_plain(b2.last());
        assert(w[0] == b1[0]);
        assert(w.last() == b2.last());
        assert(framed =~= nl + w + nl);
        lemma_trim_between(nl, w, nl);
        lemma_without_breaks_concat(b1 + nl, b2);
        lemma_without_breaks_concat(b1, nl);
        assert(without_breaks(nl) =~= Seq::<char>::empty()) by {
            assert(nl.drop_last() =~= Seq::<char>::empty());
            assert(without_breaks(nl.drop_last()) =~= Seq::<char>::empty());
            assert(nl.last() == '\n');
            assert(is_break(nl.last()));
        }
        assert(without_breaks(b1) + Seq::<char>::empty() =~= b1);
    } else if b1.len() > 0 {
        lemma_base64_symbol_is_plain(b1[0]);
        lemma_base64_symbol_is_plain(b1.last());
        assert(b2 =~= Seq::<char>::empty());
        assert(framed =~= nl + b1 + (nl + nl));
        lemma_trim_between(nl, b1, nl + nl);
        assert(joined =~= b1);
    } else if b2.len() > 0 {
        lemma_base64_symbol_is_plain(b2[0]);
        lemma_base64_symbol_is_plain(b2.last());
        assert(b1 =~= Seq::<char>::empty());
        assert(framed =~= (nl + nl) + b2 + nl);
        lemma_trim_between(nl + nl, b2, nl);
        assert(joined =~= b2);
    } else {
        assert(framed =~= nl + nl + nl);
        assert(all_white(framed)) by {
            assert forall|i: int| 0 <= i < framed.len() implies is_white_space(#[trigger] framed[i]) by {
                assert(framed[i] == '\n');
            }
        }
        assert(trimmed(framed) =~= Seq::<char>::empty());
        assert(without_breaks(Seq::<char>::empty()) =~= Seq::<char>::empty());
        assert(joined =~= Seq::<char>::empty());
    }
}

} // verus!

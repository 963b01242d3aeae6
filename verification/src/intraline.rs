//! Which part of a changed line actually changed.

use std::ops::Range;
use vstd::prelude::*;
use vstd::utf8::*;

verus! {

/// Length of the UTF-8 encoding of `s`.
pub open spec fn byte_len(s: Seq<char>) -> nat {
    encode_utf8(s).len()
}

/// Number of leading characters that `a` and `b` share.
pub open spec fn common_prefix(a: Seq<char>, b: Seq<char>) -> nat
    decreases a.len(),
{
    if a.len() > 0 && b.len() > 0 && a[0] == b[0] {
        1 + common_prefix(a.drop_first(), b.drop_first())
    } else {
        0
    }
}

/// Number of trailing characters that `a` and `b` share.
pub open spec fn common_suffix(a: Seq<char>, b: Seq<char>) -> nat
    decreases a.len(),
{
    if a.len() > 0 && b.len() > 0 && a.last() == b.last() {
        1 + common_suffix(a.drop_last(), b.drop_last())
    } else {
        0
    }
}

/// The byte range of `s` from character `from` up to character `to`.
pub open spec fn char_span(s: Seq<char>, from: int, to: int) -> Range<usize> {
    Range { start: byte_len(s.take(from)) as usize, end: byte_len(s.take(to)) as usize }
}

/// The byte ranges in which two lines differ: what is left of each once their
/// common prefix, and then their common suffix, are trimmed. Nothing for equal
/// lines and for lines that share neither.
pub open spec fn intraline(old: Seq<char>, new: Seq<char>) -> Option<(Range<usize>, Range<usize>)> {
    let p = common_prefix(old, new) as int;
    let s = common_suffix(old.skip(p), new.skip(p)) as int;
    if old == new || (p == 0 && s == 0) {
        None
    } else {
        Some((char_span(old, p, old.len() - s), char_span(new, p, new.len() - s)))
    }
}

/// The shared prefix is shared, and a longer one is not.
proof fn lemma_common_prefix(a: Seq<char>, b: Seq<char>)
    ensures
        common_prefix(a, b) <= a.len(),
        common_prefix(a, b) <= b.len(),
        a.take(common_prefix(a, b) as int) == b.take(common_prefix(a, b) as int),
        forall|k: int|
            0 <= k <= a.len() && k <= b.len() && #[trigger] a.take(k) == b.take(k) ==> k
                <= common_prefix(a, b),
    decreases a.len(),
{
    let p = common_prefix(a, b) as int;
    if a.len() > 0 && b.len() > 0 && a[0] == b[0] {
        let x = a.drop_first();
        let y = b.drop_first();
        lemma_common_prefix(x, y);
        assert(a.take(p) =~= seq![a[0]] + x.take(p - 1));
        assert(b.take(p) =~= seq![b[0]] + y.take(p - 1));
        assert forall|k: int|
            0 <= k <= a.len() && k <= b.len() && #[trigger] a.take(k) == b.take(k) implies k
            <= p by {
            if k > 0 {
                assert(x.take(k - 1) =~= a.take(k).drop_first());
                assert(y.take(k - 1) =~= b.take(k).drop_first());
            }
        }
    } else {
        assert(a.take(0) =~= b.take(0));
        assert forall|k: int|
            0 <= k <= a.len() && k <= b.len() && #[trigger] a.take(k) == b.take(k) implies k
            <= 0 by {
            if k > 0 {
                assert(a[0] == a.take(k)[0]);
                assert(b[0] == b.take(k)[0]);
            }
        }
    }
}

/// The shared suffix is shared, and a longer one is not.
proof fn lemma_common_suffix(a: Seq<char>, b: Seq<char>)
    ensures
        common_suffix(a, b) <= a.len(),
        common_suffix(a, b) <= b.len(),
        a.skip(a.len() - common_suffix(a, b)) == b.skip(b.len() - common_suffix(a, b)),
        forall|k: int|
            0 <= k <= a.len() && k <= b.len() && #[trigger] a.skip(a.len() - k) == b.skip(
                b.len() - k,
            ) ==> k <= common_suffix(a, b),
    decreases a.len(),
{
    let q = common_suffix(a, b) as int;
    if a.len() > 0 && b.len() > 0 && a.last() == b.last() {
        let x = a.drop_last();
        let y = b.drop_last();
        lemma_common_suffix(x, y);
        assert(a.skip(a.len() - q) =~= x.skip(x.len() - (q - 1)).push(a.last()));
        assert(b.skip(b.len() - q) =~= y.skip(y.len() - (q - 1)).push(b.last()));
        assert forall|k: int|
            0 <= k <= a.len() && k <= b.len() && #[trigger] a.skip(a.len() - k) == b.skip(
                b.len() - k,
            ) implies k <= q by {
            if k > 0 {
                assert(x.skip(x.len() - (k - 1)) =~= a.skip(a.len() - k).drop_last());
                assert(y.skip(y.len() - (k - 1)) =~= b.skip(b.len() - k).drop_last());
            }
        }
    } else {
        assert(a.skip(a.len() as int) =~= b.skip(b.len() as int));
        assert forall|k: int|
            0 <= k <= a.len() && k <= b.len() && #[trigger] a.skip(a.len() - k) == b.skip(
                b.len() - k,
            ) implies k <= 0 by {
            if k > 0 {
                assert(a.last() == a.skip(a.len() - k).last());
                assert(b.last() == b.skip(b.len() - k).last());
            }
        }
    }
}

/// Encoding goes piece by piece.
pub proof fn lemma_encode_concat(a: Seq<char>, b: Seq<char>)
    ensures
        encode_utf8(a + b) == encode_utf8(a) + encode_utf8(b),
    decreases a.len(),
{
    if a.len() == 0 {
        assert(a + b =~= b);
        assert(encode_utf8(a) + encode_utf8(b) =~= encode_utf8(b));
    } else {
        assert((a + b).drop_first() =~= a.drop_first() + b);
        lemma_encode_concat(a.drop_first(), b);
        assert(encode_utf8(a + b) =~= encode_utf8(a) + encode_utf8(b));
    }
}

/// A character is encoded in one to four bytes.
pub proof fn lemma_char_bytes(c: char)
    ensures
        encode_utf8(seq![c]) == encode_scalar(c as u32),
        1 <= byte_len(seq![c]) <= 4,
{
    let s = seq![c];
    assert(s.drop_first() =~= Seq::<char>::empty());
    assert(encode_utf8(s.drop_first()) =~= Seq::<u8>::empty());
    assert(encode_utf8(s) =~= encode_scalar(c as u32));
}

/// A cut between characters splits the encoding at the length of the first
/// part, and a later cut lies further on.
pub proof fn lemma_byte_len_take(s: Seq<char>, k: int, l: int)
    requires
        0 <= k <= l <= s.len(),
    ensures
        encode_utf8(s) == encode_utf8(s.take(k)) + encode_utf8(s.skip(k)),
        byte_len(s.take(k)) + (l - k) <= byte_len(s.take(l)) <= byte_len(s),
        byte_len(s.take(0)) == 0,
        byte_len(s.take(s.len() as int)) == byte_len(s),
{
    lemma_cut(s, k);
    lemma_cut(s, l);
    assert(s.take(0) =~= Seq::<char>::empty());
    assert(s.take(s.len() as int) =~= s);
    lemma_byte_len_grows(s, k, l);
}

/// A cut between characters splits the encoding.
proof fn lemma_cut(s: Seq<char>, k: int)
    requires
        0 <= k <= s.len(),
    ensures
        encode_utf8(s) == encode_utf8(s.take(k)) + encode_utf8(s.skip(k)),
{
    assert(s =~= s.take(k) + s.skip(k));
    lemma_encode_concat(s.take(k), s.skip(k));
}

/// A later cut lies further on.
proof fn lemma_byte_len_grows(s: Seq<char>, k: int, l: int)
    requires
        0 <= k <= l <= s.len(),
    ensures
        byte_len(s.take(k)) + (l - k) <= byte_len(s.take(l)),
    decreases l - k,
{
    if k < l {
        lemma_byte_len_grows(s, k, l - 1);
        lemma_one_more(s, l);
    }
}

/// One more character takes at least one more byte.
proof fn lemma_one_more(s: Seq<char>, l: int)
    requires
        0 < l <= s.len(),
    ensures
        byte_len(s.take(l - 1)) + 1 <= byte_len(s.take(l)),
{
    let c = s[l - 1];
    assert(s.take(l) =~= s.take(l - 1) + seq![c]);
    lemma_encode_concat(s.take(l - 1), seq![c]);
    lemma_char_bytes(c);
}

/// Every cut between characters is a character boundary of the encoding.
proof fn lemma_boundary_at(s: Seq<char>, k: int)
    requires
        0 <= k <= s.len(),
    ensures
        is_char_boundary(encode_utf8(s), byte_len(s.take(k)) as int),
    decreases s.len(),
{
    encode_utf8_valid_utf8(s);
    if k == 0 {
        assert(s.take(0) =~= Seq::<char>::empty());
    } else {
        let rest = s.drop_first();
        encode_utf8_first_scalar(s);
        encode_utf8_valid_utf8(rest);
        assert(pop_first_scalar(encode_utf8(s)) =~= encode_utf8(rest));
        lemma_boundary_at(rest, k - 1);
        assert(s.take(k).drop_first() =~= rest.take(k - 1));
        assert(s.take(k)[0] == s[0]);
        lemma_byte_len_take(s, k, k);
    }
}

/// Every character boundary of the encoding is a cut between characters.
proof fn lemma_cut_at(s: Seq<char>, b: int) -> (k: int)
    requires
        is_char_boundary(encode_utf8(s), b),
    ensures
        0 <= k <= s.len(),
        byte_len(s.take(k)) == b,
        encode_utf8(s.take(k)) == encode_utf8(s).subrange(0, b),
        encode_utf8(s.skip(k)) == encode_utf8(s).subrange(b, byte_len(s) as int),
{
    let bytes = encode_utf8(s);
    encode_utf8_valid_utf8(s);
    encode_utf8_decode_utf8(s);
    valid_utf8_split(bytes, b);
    decode_utf8_split(bytes, b);
    let head = bytes.subrange(0, b);
    let tail = bytes.subrange(b, bytes.len() as int);
    decode_utf8_encode_utf8(head);
    decode_utf8_encode_utf8(tail);
    let k = decode_utf8(head).len() as int;
    assert(s.take(k) =~= decode_utf8(head));
    assert(s.skip(k) =~= decode_utf8(tail));
    k
}

/// Equal encodings come from equal texts.
proof fn lemma_encode_injective(a: Seq<char>, b: Seq<char>)
    requires
        encode_utf8(a) == encode_utf8(b),
    ensures
        a == b,
{
    encode_utf8_decode_utf8(a);
    encode_utf8_decode_utf8(b);
}

/// The last position at or before the first differing byte that is a
/// character boundary on both sides ends the common prefix.
proof fn lemma_prefix_found(old: Seq<char>, new: Seq<char>, m: int, b: int)
    requires
        0 <= b <= m <= byte_len(old),
        m <= byte_len(new),
        encode_utf8(old).subrange(0, m) == encode_utf8(new).subrange(0, m),
        m == byte_len(old) || m == byte_len(new) || encode_utf8(old)[m] != encode_utf8(new)[m],
        is_char_boundary(encode_utf8(old), b),
        is_char_boundary(encode_utf8(new), b),
        forall|x: int|
            b < x <= m ==> !(#[trigger] is_char_boundary(encode_utf8(old), x) && is_char_boundary(
                encode_utf8(new),
                x,
            )),
    ensures
        b == byte_len(old.take(common_prefix(old, new) as int)),
        b == byte_len(new.take(common_prefix(old, new) as int)),
{
    let eo = encode_utf8(old);
    let en = encode_utf8(new);
    let p = common_prefix(old, new) as int;
    lemma_common_prefix(old, new);
    let pb = byte_len(old.take(p)) as int;
    lemma_byte_len_take(old, p, p);
    lemma_byte_len_take(new, p, p);
    lemma_boundary_at(old, p);
    lemma_boundary_at(new, p);
    assert(eo.subrange(0, pb) =~= encode_utf8(old.take(p)));
    assert(en.subrange(0, pb) =~= encode_utf8(new.take(p)));
    if pb > m {
        assert(eo[m] == eo.subrange(0, pb)[m]);
        assert(en[m] == en.subrange(0, pb)[m]);
    }
    assert(pb <= b);
    let k = lemma_cut_at(old, b);
    let l = lemma_cut_at(new, b);
    assert(eo.subrange(0, b) =~= eo.subrange(0, m).subrange(0, b));
    assert(en.subrange(0, b) =~= en.subrange(0, m).subrange(0, b));
    lemma_encode_injective(old.take(k), new.take(l));
    assert(k == old.take(k).len() && l == new.take(l).len());
    assert(k <= p);
    lemma_byte_len_take(old, k, p);
}

/// The longest common byte suffix past the common prefix, shortened to
/// character boundaries on both sides, is the common suffix of the rest.
proof fn lemma_suffix_found(old: Seq<char>, new: Seq<char>, m: int, t: int)
    requires
        ({
            let p = common_prefix(old, new) as int;
            let pb = byte_len(old.take(p)) as int;
            let no = byte_len(old) as int;
            let nn = byte_len(new) as int;
            &&& 0 <= t <= m
            &&& pb + m <= no
            &&& pb + m <= nn
            &&& encode_utf8(old).subrange(no - m, no) == encode_utf8(new).subrange(nn - m, nn)
            &&& pb + m == no || pb + m == nn || encode_utf8(old)[no - m - 1] != encode_utf8(
                new,
            )[nn - m - 1]
            &&& is_char_boundary(encode_utf8(old), no - t)
            &&& is_char_boundary(encode_utf8(new), nn - t)
            &&& forall|x: int|
                t < x <= m ==> !(#[trigger] is_char_boundary(encode_utf8(old), no - x)
                    && is_char_boundary(encode_utf8(new), nn - x))
        }),
    ensures
        ({
            let p = common_prefix(old, new) as int;
            let s = common_suffix(old.skip(p), new.skip(p)) as int;
            &&& p + s <= old.len()
            &&& p + s <= new.len()
            &&& byte_len(old) - t == byte_len(old.take(old.len() - s))
            &&& byte_len(new) - t == byte_len(new.take(new.len() - s))
            &&& (t == 0 <==> s == 0)
        }),
{
    let eo = encode_utf8(old);
    let en = encode_utf8(new);
    let no = byte_len(old) as int;
    let nn = byte_len(new) as int;
    let p = common_prefix(old, new) as int;
    lemma_common_prefix(old, new);
    let ro = old.skip(p);
    let rn = new.skip(p);
    let s = common_suffix(ro, rn) as int;
    lemma_common_suffix(ro, rn);
    let io = old.len() - s;
    let iw = new.len() - s;
    assert(ro.skip(ro.len() - s) =~= old.skip(io));
    assert(rn.skip(rn.len() - s) =~= new.skip(iw));
    let tail = old.skip(io);
    assert(tail == new.skip(iw));
    let sb = byte_len(tail) as int;
    lemma_byte_len_take(old, p, io);
    lemma_byte_len_take(old, io, io);
    lemma_byte_len_take(new, p, iw);
    lemma_byte_len_take(new, iw, iw);
    lemma_boundary_at(old, io);
    lemma_boundary_at(new, iw);
    assert(byte_len(old.take(io)) == no - sb);
    assert(byte_len(new.take(iw)) == nn - sb);
    assert(eo.subrange(no - sb, no) =~= encode_utf8(tail));
    assert(en.subrange(nn - sb, nn) =~= encode_utf8(tail));
    let pb = byte_len(old.take(p)) as int;
    assert(byte_len(new.take(p)) == pb);
    if sb > m {
        assert(eo[no - m - 1] == eo.subrange(no - sb, no)[sb - m - 1]);
        assert(en[nn - m - 1] == en.subrange(nn - sb, nn)[sb - m - 1]);
    }
    assert(is_char_boundary(eo, no - sb) && is_char_boundary(en, nn - sb));
    assert(sb <= t);
    let k = lemma_cut_at(old, no - t);
    let l = lemma_cut_at(new, nn - t);
    assert(eo.subrange(no - t, no) =~= eo.subrange(no - m, no).subrange(m - t, m));
    assert(en.subrange(nn - t, nn) =~= en.subrange(nn - m, nn).subrange(m - t, m));
    lemma_encode_injective(old.skip(k), new.skip(l));
    if k < p {
        lemma_byte_len_take(old, k, p);
    }
    if l < p {
        lemma_byte_len_take(new, l, p);
    }
    let c = old.len() - k;
    assert(c == new.len() - l) by {
        assert(old.skip(k).len() == c);
    }
    assert(ro.skip(ro.len() - c) =~= old.skip(k));
    assert(rn.skip(rn.len() - c) =~= new.skip(l));
    assert(c <= s);
    lemma_byte_len_take(old, io, k);
    if s > 0 {
        lemma_byte_len_take(tail, 0, s);
        assert(tail.take(s) =~= tail);
    }
}

/// The byte ranges of `old` and `new` that differ, found by trimming the
/// common prefix and suffix to character boundaries. `None` when the lines are
/// equal or have nothing in common.
pub fn intraline_ranges(old: &str, new: &str) -> (ranges: Option<(Range<usize>, Range<usize>)>)
    ensures
        ranges == intraline(old@, new@),
{
    let old_bytes = old.as_bytes();
    let new_bytes = new.as_bytes();
    let old_len = old_bytes.len();
    let new_len = new_bytes.len();
    let ghost eo = encode_utf8(old@);
    let ghost en = encode_utf8(new@);
    proof {
        encode_utf8_valid_utf8(old@);
        encode_utf8_valid_utf8(new@);
        is_char_boundary_start_end_of_seq(eo);
        is_char_boundary_start_end_of_seq(en);
        lemma_common_prefix(old@, new@);
    }
    let mut prefix: usize = 0;
    while prefix < old_len && prefix < new_len && old_bytes[prefix] == new_bytes[prefix]
        invariant
            old_bytes@ == eo,
            new_bytes@ == en,
            old_len == eo.len(),
            new_len == en.len(),
            prefix <= old_len,
            prefix <= new_len,
            eo.subrange(0, prefix as int) == en.subrange(0, prefix as int),
        decreases old_len - prefix,
    {
        assert(eo.subrange(0, prefix + 1) =~= eo.subrange(0, prefix as int).push(
            eo[prefix as int],
        ));
        assert(en.subrange(0, prefix + 1) =~= en.subrange(0, prefix as int).push(
            en[prefix as int],
        ));
        prefix += 1;
    }
    if prefix == old_len && prefix == new_len {
        proof {
            assert(eo.subrange(0, prefix as int) =~= eo);
            assert(en.subrange(0, prefix as int) =~= en);
            lemma_encode_injective(old@, new@);
        }
        return None;
    }
    let ghost m = prefix as int;
    while prefix > 0 && !(old.is_char_boundary(prefix) && new.is_char_boundary(prefix))
        invariant
            eo == encode_utf8(old@),
            en == encode_utf8(new@),
            0 <= prefix <= m,
            forall|x: int|
                prefix < x <= m ==> !(#[trigger] is_char_boundary(eo, x) && is_char_boundary(
                    en,
                    x,
                )),
        decreases prefix,
    {
        prefix -= 1;
    }
    let ghost p = common_prefix(old@, new@) as int;
    proof {
        lemma_prefix_found(old@, new@, m, prefix as int);
    }
    let shorter = if old_len < new_len {
        old_len
    } else {
        new_len
    };
    let max_suffix: usize = shorter - prefix;
    let mut suffix: usize = 0;
    while suffix < max_suffix && old_bytes[old_len - suffix - 1] == new_bytes[new_len - suffix - 1]
        invariant
            old_bytes@ == eo,
            new_bytes@ == en,
            old_len == eo.len(),
            new_len == en.len(),
            suffix <= max_suffix,
            max_suffix <= old_len,
            max_suffix <= new_len,
            eo.subrange(old_len - suffix, old_len as int) == en.subrange(
                new_len - suffix,
                new_len as int,
            ),
        decreases max_suffix - suffix,
    {
        let ghost a = eo.subrange(old_len - suffix, old_len as int);
        let ghost b = en.subrange(new_len - suffix, new_len as int);
        assert(eo.subrange(old_len - suffix - 1, old_len as int) =~= seq![eo[old_len - suffix - 1]]
            + a);
        assert(en.subrange(new_len - suffix - 1, new_len as int) =~= seq![en[new_len - suffix - 1]]
            + b);
        suffix += 1;
    }
    let ghost n = suffix as int;
    while suffix > 0 && !(old.is_char_boundary(old_len - suffix) && new.is_char_boundary(
        new_len - suffix,
    ))
        invariant
            eo == encode_utf8(old@),
            en == encode_utf8(new@),
            0 <= suffix <= n,
            n <= old_len,
            n <= new_len,
            forall|x: int|
                suffix < x <= n ==> !(#[trigger] is_char_boundary(eo, old_len - x)
                    && is_char_boundary(en, new_len - x)),
        decreases suffix,
    {
        suffix -= 1;
    }
    proof {
        lemma_suffix_found(old@, new@, n, suffix as int);
        lemma_byte_len_take(old@, 0, p);
        if old@ == new@ {
            assert(old@.take(old@.len() as int) =~= old@);
            assert(p == old@.len());
        }
    }
    if prefix == 0 && suffix == 0 {
        return None;
    }
    Some(
        (
            Range { start: prefix, end: old_len - suffix },
            Range { start: prefix, end: new_len - suffix },
        ),
    )
}

/// The highlighted ranges lie on character boundaries of their lines, and
/// cutting them out leaves the same text before and after on both sides. The
/// remaining middles share no first and no last character.
pub proof fn law_intraline_cuts_common_ends(old: Seq<char>, new: Seq<char>)
    requires
        intraline(old, new) is Some,
    ensures
        ({
            let p = common_prefix(old, new) as int;
            let s = common_suffix(old.skip(p), new.skip(p)) as int;
            let mid_old = old.subrange(p, old.len() - s);
            let mid_new = new.subrange(p, new.len() - s);
            &&& 0 <= p <= p + s <= old.len()
            &&& p + s <= new.len()
            &&& old == old.take(p) + mid_old + old.skip(old.len() - s)
            &&& new == old.take(p) + mid_new + old.skip(old.len() - s)
            &&& is_char_boundary(encode_utf8(old), byte_len(old.take(p)) as int)
            &&& is_char_boundary(encode_utf8(old), byte_len(old.take(old.len() - s)) as int)
            &&& is_char_boundary(encode_utf8(new), byte_len(new.take(p)) as int)
            &&& is_char_boundary(encode_utf8(new), byte_len(new.take(new.len() - s)) as int)
            &&& mid_old.len() > 0 && mid_new.len() > 0 ==> mid_old[0] != mid_new[0]
                && mid_old.last() != mid_new.last()
        }),
{
    let p = common_prefix(old, new) as int;
    lemma_common_prefix(old, new);
    let ro = old.skip(p);
    let rn = new.skip(p);
    let s = common_suffix(ro, rn) as int;
    lemma_common_suffix(ro, rn);
    let io = old.len() - s;
    let iw = new.len() - s;
    assert(ro.skip(ro.len() - s) =~= old.skip(io));
    assert(rn.skip(rn.len() - s) =~= new.skip(iw));
    lemma_boundary_at(old, p);
    lemma_boundary_at(old, io);
    lemma_boundary_at(new, p);
    lemma_boundary_at(new, iw);
    lemma_middles(old, new, p, s);
}

/// What the common ends leave of two lines.
proof fn lemma_middles(old: Seq<char>, new: Seq<char>, p: int, s: int)
    requires
        p == common_prefix(old, new),
        s == common_suffix(old.skip(p), new.skip(p)),
    ensures
        ({
            let mid_old = old.subrange(p, old.len() - s);
            let mid_new = new.subrange(p, new.len() - s);
            &&& old == old.take(p) + mid_old + old.skip(old.len() - s)
            &&& new == old.take(p) + mid_new + old.skip(old.len() - s)
            &&& mid_old.len() > 0 && mid_new.len() > 0 ==> mid_old[0] != mid_new[0]
                && mid_old.last() != mid_new.last()
        }),
{
    lemma_common_prefix(old, new);
    let ro = old.skip(p);
    let rn = new.skip(p);
    lemma_common_suffix(ro, rn);
    let io = old.len() - s;
    let iw = new.len() - s;
    assert(ro.skip(ro.len() - s) =~= old.skip(io));
    assert(rn.skip(rn.len() - s) =~= new.skip(iw));
    let mid_old = old.subrange(p, io);
    let mid_new = new.subrange(p, iw);
    assert(old =~= old.take(p) + mid_old + old.skip(io));
    assert(new =~= new.take(p) + mid_new + new.skip(iw));
    if mid_old.len() > 0 && mid_new.len() > 0 {
        if mid_old[0] == mid_new[0] {
            assert(old.take(p + 1) =~= old.take(p).push(mid_old[0]));
            assert(new.take(p + 1) =~= new.take(p).push(mid_new[0]));
        }
        if mid_old.last() == mid_new.last() {
            assert(ro.skip(ro.len() - (s + 1)) =~= seq![mid_old.last()] + old.skip(io));
            assert(rn.skip(rn.len() - (s + 1)) =~= seq![mid_new.last()] + new.skip(iw));
        }
    }
}

/// `p` is the length of the longest common prefix of two lines, and `s` that of
/// the longest common suffix of what follows it.
pub open spec fn are_common_ends(old: Seq<char>, new: Seq<char>, p: int, s: int) -> bool {
    &&& 0 <= p && 0 <= s && p + s <= old.len() && p + s <= new.len()
    &&& forall|i: int| 0 <= i < p ==> #[trigger] old[i] == new[i]
    &&& p == old.len() || p == new.len() || old[p] != new[p]
    &&& forall|i: int|
        old.len() - s <= i < old.len() ==> #[trigger] old[i] == new[i - old.len() + new.len()]
    &&& p + s == old.len() || p + s == new.len() || old[old.len() - 1 - s] != new[new.len() - 1
        - s]
}

/// Two lines have highlighted ranges exactly when they differ and share their
/// first or their last character. The range of each line begins where the
/// longest common prefix ends, and ends where the longest common suffix of what
/// follows the prefix begins.
pub proof fn law_highlights_are_what_differs(old: Seq<char>, new: Seq<char>) -> (r: (int, int))
    requires
        encode_utf8(old).len() <= usize::MAX,
        encode_utf8(new).len() <= usize::MAX,
    ensures
        intraline(old, new) is Some <==> old != new && old.len() > 0 && new.len() > 0 && (old[0]
            == new[0] || old[old.len() - 1] == new[new.len() - 1]),
        are_common_ends(old, new, r.0, r.1),
        intraline(old, new) matches Some((o, n)) ==> {
            &&& o.start == encode_utf8(old.take(r.0)).len()
            &&& o.end == encode_utf8(old.take(old.len() - r.1)).len()
            &&& n.start == encode_utf8(new.take(r.0)).len()
            &&& n.end == encode_utf8(new.take(new.len() - r.1)).len()
        },
{
    let p = common_prefix(old, new) as int;
    lemma_common_prefix(old, new);
    let ro = old.skip(p);
    let rn = new.skip(p);
    let s = common_suffix(ro, rn) as int;
    lemma_common_suffix(ro, rn);
    let a = old.len() as int;
    let b = new.len() as int;
    assert forall|i: int| 0 <= i < p implies #[trigger] old[i] == new[i] by {
        assert(old.take(p)[i] == new.take(p)[i]);
    }
    if p < a && p < b && old[p] == new[p] {
        assert(old.take(p + 1) =~= old.take(p).push(old[p]));
        assert(new.take(p + 1) =~= new.take(p).push(new[p]));
    }
    assert forall|i: int| a - s <= i < a implies #[trigger] old[i] == new[i - a + b] by {
        let k = i - (a - s);
        assert(ro.skip(ro.len() - s)[k] == rn.skip(rn.len() - s)[k]);
    }
    if p + s < a && p + s < b && old[a - 1 - s] == new[b - 1 - s] {
        assert(ro.skip(ro.len() - (s + 1)) =~= seq![old[a - 1 - s]] + ro.skip(ro.len() - s));
        assert(rn.skip(rn.len() - (s + 1)) =~= seq![new[b - 1 - s]] + rn.skip(rn.len() - s));
    }
    if old != new && a > 0 && b > 0 && old[a - 1] == new[b - 1] && p == 0 {
        assert(s > 0);
    }
    if p == a && p == b {
        assert(old =~= new);
    }
    lemma_byte_len_take(old, p, a);
    lemma_byte_len_take(old, a - s, a);
    lemma_byte_len_take(new, p, b);
    lemma_byte_len_take(new, b - s, b);
    assert(old.take(a) =~= old);
    assert(new.take(b) =~= new);
    (p, s)
}

/// There is only one way to cut the common ends off two lines.
pub proof fn law_common_ends_are_unique(
    old: Seq<char>,
    new: Seq<char>,
    p: int,
    s: int,
    q: int,
    t: int,
)
    requires
        are_common_ends(old, new, p, s),
        are_common_ends(old, new, q, t),
    ensures
        p == q,
        s == t,
{
    if p < q {
        assert(old[p] == new[p]);
    }
    if q < p {
        assert(old[q] == new[q]);
    }
    let a = old.len() as int;
    let b = new.len() as int;
    if s < t {
        assert(old[a - 1 - s] == new[a - 1 - s - a + b]);
    }
    if t < s {
        assert(old[a - 1 - t] == new[a - 1 - t - a + b]);
    }
}

} // verus!

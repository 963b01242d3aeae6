//! Laws of lines, words and numbers.

use crate::text;
use vstd::prelude::*;

verus! {

/// No character of a text is white space.
pub open spec fn is_solid(text: Seq<char>) -> bool {
    forall|i: int| 0 <= i < text.len() ==> !text::unicode_whitespace(#[trigger] text[i])
}

/// White space separates words and is part of none: a text without it is one
/// word, and the words on both sides of it are those of the two parts.
pub proof fn law_words(a: Seq<char>, c: char, b: Seq<char>)
    requires
        text::unicode_whitespace(c),
    ensures
        text::words(Seq::empty()) == Seq::<Seq<char>>::empty(),
        a.len() > 0 && is_solid(a) ==> text::words(a) == seq![a],
        text::words(a + seq![c] + b) == text::words(a) + text::words(b),
{
    if a.len() > 0 && is_solid(a) {
        lemma_solid(a);
    }
    lemma_words_apart(a, c, b);
}

proof fn lemma_solid(a: Seq<char>)
    requires
        a.len() > 0,
        is_solid(a),
    ensures
        text::words(a) == seq![a],
    decreases a.len(),
{
    let init = a.drop_last();
    if init.len() > 0 {
        assert(is_solid(init)) by {
            assert forall|i: int| 0 <= i < init.len() implies !text::unicode_whitespace(
                #[trigger] init[i],
            ) by {
                assert(init[i] == a[i]);
            }
        }
        lemma_solid(init);
        assert(init.last() == a[a.len() - 2]);
        assert(a =~= init.push(a.last()));
        assert(text::words(a) =~= seq![a]);
    } else {
        assert(text::words(init) =~= Seq::empty());
        assert(a =~= seq![a.last()]);
        assert(text::words(a) =~= seq![a]);
    }
}

proof fn lemma_words_apart(a: Seq<char>, c: char, b: Seq<char>)
    requires
        text::unicode_whitespace(c),
    ensures
        text::words(a + seq![c] + b) == text::words(a) + text::words(b),
    decreases b.len(),
{
    let whole = a + seq![c] + b;
    if b.len() == 0 {
        assert(whole.drop_last() =~= a);
        assert(whole.last() == c);
        assert(text::words(a) + text::words(b) =~= text::words(a));
    } else {
        let init = b.drop_last();
        assert(whole.drop_last() =~= a + seq![c] + init);
        assert(whole.last() == b.last());
        lemma_words_apart(a, c, init);
        let before = whole.drop_last();
        if init.len() > 0 {
            assert(before.last() == init.last());
            if !text::unicode_whitespace(b.last()) && !text::unicode_whitespace(init.last()) {
                lemma_last_word(init);
                let all = text::words(a) + text::words(init);
                assert(all.drop_last() =~= text::words(a) + text::words(init).drop_last());
            }
        } else {
            assert(before.last() == c);
            assert(text::words(init) =~= Seq::empty());
        }
        assert(text::words(whole) =~= text::words(a) + text::words(b));
    }
}

/// A text that does not end in white space ends in a word.
proof fn lemma_last_word(a: Seq<char>)
    requires
        a.len() > 0,
        !text::unicode_whitespace(a.last()),
    ensures
        text::words(a).len() > 0,
{
}

/// Words are joined with one space between any two.
pub proof fn law_join_words(a: Seq<Seq<char>>, b: Seq<Seq<char>>, word: Seq<char>)
    ensures
        text::join_words(Seq::empty()) == Seq::<char>::empty(),
        text::join_words(seq![word]) == word,
        a.len() > 0 && b.len() > 0 ==> text::join_words(a + b) == text::join_words(a) + seq![' ']
            + text::join_words(b),
{
    if a.len() > 0 && b.len() > 0 {
        lemma_join_apart(a, b);
    }
}

proof fn lemma_join_apart(a: Seq<Seq<char>>, b: Seq<Seq<char>>)
    requires
        a.len() > 0,
        b.len() > 0,
    ensures
        text::join_words(a + b) == text::join_words(a) + seq![' '] + text::join_words(b),
    decreases b.len(),
{
    let all = a + b;
    assert(all.last() == b.last());
    if b.len() == 1 {
        assert(all.drop_last() =~= a);
        assert(text::join_words(all) =~= text::join_words(a) + seq![' '] + b[0]);
    } else {
        let init = b.drop_last();
        assert(all.drop_last() =~= a + init);
        lemma_join_apart(a, init);
        assert(text::join_words(all) =~= text::join_words(a) + seq![' '] + text::join_words(b));
    }
}

/// A text of terminated lines, followed by more without a newline: the latter is
/// a line of its own, and its carriage returns are kept.
pub proof fn law_unterminated_last_line(
    list: Seq<Seq<char>>,
    crlf: Seq<bool>,
    last: Seq<char>,
)
    requires
        list.len() == crlf.len(),
        forall|i: int, j: int|
            0 <= i < list.len() && 0 <= j < list[i].len() ==> #[trigger] list[i][j] != '\n',
        forall|i: int|
            0 <= i < list.len() && !crlf[i] && list[i].len() > 0 ==> (#[trigger] list[i]).last()
                != '\r',
        last.len() > 0,
        forall|j: int| 0 <= j < last.len() ==> #[trigger] last[j] != '\n',
    ensures
        text::lines_of(text::terminated(list, crlf) + last) == list.push(last),
    decreases list.len(),
{
    if list.len() == 0 {
        assert(text::terminated(list, crlf) + last =~= last);
        text::lemma_newline_at(last);
        assert(text::lines_of(last) =~= seq![last]);
        assert(list.push(last) =~= seq![last]);
    } else {
        let tail = list.drop_first();
        let rest = crlf.drop_first();
        assert forall|i: int, j: int|
            0 <= i < tail.len() && 0 <= j < tail[i].len() implies #[trigger] tail[i][j] != '\n' by {
            assert(tail[i][j] == list[i + 1][j]);
        }
        assert forall|i: int|
            0 <= i < tail.len() && !rest[i] && tail[i].len() > 0 implies (#[trigger] tail[i]).last()
            != '\r' by {
            assert(tail[i] == list[i + 1]);
        }
        law_unterminated_last_line(tail, rest, last);
        let more = text::terminated(tail, rest) + last;
        let piece = if crlf[0] {
            list[0].push('\r')
        } else {
            list[0]
        };
        let whole = text::terminated(list, crlf) + last;
        assert(whole =~= piece + seq!['\n'] + more);
        assert forall|j: int| 0 <= j < piece.len() implies piece[j] != '\n' by {
            if j < list[0].len() {
                assert(piece[j] == list[0][j]);
            }
        }
        lemma_first_line(piece, more);
        assert(text::strip_cr(piece) =~= list[0]);
        assert(list.push(last) =~= seq![list[0]] + tail.push(last));
    }
}

/// The line before the first newline comes first.
proof fn lemma_first_line(piece: Seq<char>, more: Seq<char>)
    requires
        forall|j: int| 0 <= j < piece.len() ==> #[trigger] piece[j] != '\n',
    ensures
        text::lines_of(piece + seq!['\n'] + more) == seq![text::strip_cr(piece)] + text::lines_of(
            more,
        ),
{
    let whole = piece + seq!['\n'] + more;
    text::lemma_newline_at(whole);
    let n = text::newline_at(whole) as int;
    if n < piece.len() {
        assert(whole[n] == piece[n]);
    }
    if n > piece.len() {
        assert(whole[piece.len() as int] == '\n');
    }
    assert(n == piece.len());
    assert(whole.take(n) =~= piece);
    assert(whole.skip(n + 1) =~= more);
}

/// Contents are binary exactly when there is a zero byte among the first 8192.
pub proof fn law_binary(bytes: Seq<u8>)
    ensures
        text::is_binary(bytes) <==> exists|i: int|
            0 <= i < 8192 && i < bytes.len() && #[trigger] bytes[i] == 0,
{
}

/// The number that decimal digits stand for.
pub open spec fn value(digits: Seq<char>) -> nat
    decreases digits.len(),
{
    if digits.len() == 0 {
        0
    } else {
        10 * value(digits.drop_last()) + (digits.last() as nat - '0' as nat) as nat
    }
}

/// A number in decimal consists of digits that stand for it, and has no zero in
/// front.
pub proof fn law_decimal(n: nat)
    ensures
        text::decimal(n).len() > 0,
        forall|i: int|
            0 <= i < text::decimal(n).len() ==> '0' <= #[trigger] text::decimal(n)[i] && text::decimal(
                n,
            )[i] <= '9',
        value(text::decimal(n)) == n,
        n > 0 ==> text::decimal(n)[0] != '0',
    decreases n,
{
    let digits = text::decimal(n);
    if n < 10 {
        assert(digits.drop_last() =~= Seq::empty());
        reveal_with_fuel(value, 2);
    } else {
        law_decimal(n / 10);
        assert(digits.drop_last() =~= text::decimal(n / 10));
        assert(digits[0] == text::decimal(n / 10)[0]);
        assert forall|i: int| 0 <= i < digits.len() implies '0' <= #[trigger] digits[i] && digits[i]
            <= '9' by {
            if i < digits.len() - 1 {
                assert(digits[i] == text::decimal(n / 10)[i]);
            }
        }
    }
}

/// Different numbers are written differently.
pub proof fn law_decimal_is_injective(a: nat, b: nat)
    requires
        text::decimal(a) == text::decimal(b),
    ensures
        a == b,
{
    law_decimal(a);
    law_decimal(b);
}

} // verus!

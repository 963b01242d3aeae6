//! Plain text helpers: line splitting, whitespace folding, number formatting.

use vstd::prelude::*;
use vstd::string::*;

verus! {

/// `String::push` appends one character.
pub assume_specification[ String::push ](s: &mut String, c: char)
    ensures
        final(s)@ == old(s)@.push(c),
;

/// Whether a character has the Unicode `White_Space` property.
pub open spec fn unicode_whitespace(c: char) -> bool {
    ||| '\u{9}' <= c && c <= '\u{d}'
    ||| c == ' '
    ||| c == '\u{85}'
    ||| c == '\u{a0}'
    ||| c == '\u{1680}'
    ||| '\u{2000}' <= c && c <= '\u{200a}'
    ||| c == '\u{2028}'
    ||| c == '\u{2029}'
    ||| c == '\u{202f}'
    ||| c == '\u{205f}'
    ||| c == '\u{3000}'
}

/// `char::is_whitespace` tells whether a character has the Unicode
/// `White_Space` property.
pub assume_specification[ char::is_whitespace ](c: char) -> (r: bool)
    ensures
        r == unicode_whitespace(c),
;

/// Whether a character is a Unicode letter or number.
pub uninterp spec fn unicode_alphanumeric(c: char) -> bool;

/// A letter or a digit of ASCII.
pub open spec fn ascii_alphanumeric(c: char) -> bool {
    '0' <= c && c <= '9' || 'A' <= c && c <= 'Z' || 'a' <= c && c <= 'z'
}

/// `char::is_alphanumeric` tells whether a character is alphabetic or numeric
/// in the Unicode sense. Of ASCII, these are the letters and digits.
pub assume_specification[ char::is_alphanumeric ](c: char) -> (r: bool)
    ensures
        r == unicode_alphanumeric(c),
        c <= '\u{7f}' ==> r == ascii_alphanumeric(c),
;

/// The text that a lossy UTF-8 decoding of the bytes gives.
pub uninterp spec fn utf8_lossy(bytes: Seq<u8>) -> Seq<char>;

/// `String::from_utf8_lossy` decodes bytes, replacing what is not UTF-8.
/// Valid UTF-8 decodes to itself, and no more characters come out than bytes
/// went in.
#[verifier::external_body]
pub(crate) fn decode_lossy(bytes: &[u8]) -> (r: String)
    ensures
        r@ == utf8_lossy(bytes@),
        vstd::utf8::valid_utf8(bytes@) ==> r@ == vstd::utf8::decode_utf8(bytes@),
        r@.len() <= bytes@.len(),
{
    String::from_utf8_lossy(bytes).into_owned()
}

/// No bytes are no text.
pub proof fn lemma_empty_text()
    ensures
        vstd::utf8::valid_utf8(Seq::empty()),
        vstd::utf8::decode_utf8(Seq::empty()) == Seq::<char>::empty(),
        lines_of(Seq::empty()).len() == 0,
{
    assert(vstd::utf8::decode_utf8(Seq::empty()) =~= Seq::<char>::empty());
}

/// The contents of a list of strings.
pub open spec fn texts(lines: Seq<String>) -> Seq<Seq<char>> {
    lines.map_values(|s: String| s@)
}

/// Position of the first newline of `text`, or its length.
pub open spec fn newline_at(text: Seq<char>) -> nat
    decreases text.len(),
{
    if text.len() == 0 || text[0] == '\n' {
        0
    } else {
        1 + newline_at(text.drop_first())
    }
}

/// A line without the carriage return that stood before its newline.
pub open spec fn strip_cr(line: Seq<char>) -> Seq<char> {
    if line.len() > 0 && line.last() == '\r' {
        line.drop_last()
    } else {
        line
    }
}

/// The lines of `text`: it is cut after every newline, and each piece loses
/// its `\n` or `\r\n`. Text after the last newline is a line of its own.
pub open spec fn lines_of(text: Seq<char>) -> Seq<Seq<char>>
    decreases text.len(),
    via lines_of_decreases
{
    let n = newline_at(text);
    if text.len() == 0 {
        Seq::empty()
    } else if n >= text.len() {
        seq![text]
    } else {
        seq![strip_cr(text.take(n as int))] + lines_of(text.skip(n as int + 1))
    }
}

#[via_fn]
proof fn lines_of_decreases(text: Seq<char>) {
    lemma_newline_at(text);
}

/// `newline_at` stops at a newline or at the end, and passes none before.
pub proof fn lemma_newline_at(text: Seq<char>)
    ensures
        newline_at(text) <= text.len(),
        newline_at(text) < text.len() ==> text[newline_at(text) as int] == '\n',
        forall|i: int| 0 <= i < newline_at(text) ==> text[i] != '\n',
    decreases text.len(),
{
    if text.len() == 0 || text[0] == '\n' {
    } else {
        lemma_newline_at(text.drop_first());
        assert forall|i: int| 0 <= i < newline_at(text) implies text[i] != '\n' by {
            if i > 0 {
                assert(text[i] == text.drop_first()[i - 1]);
            }
        }
    }
}

/// The first newline of a newline-free run followed by a newline.
proof fn lemma_newline_after(run: Seq<char>, rest: Seq<char>)
    requires
        forall|i: int| 0 <= i < run.len() ==> run[i] != '\n',
        rest.len() == 0 || rest[0] == '\n',
    ensures
        newline_at(run + rest) == run.len(),
    decreases run.len(),
{
    if run.len() == 0 {
        assert(run + rest =~= rest);
    } else {
        assert((run + rest).drop_first() =~= run.drop_first() + rest);
        assert forall|i: int| 0 <= i < run.drop_first().len() implies run.drop_first()[i]
            != '\n' by {
            assert(run.drop_first()[i] == run[i + 1]);
        }
        lemma_newline_after(run.drop_first(), rest);
    }
}

/// A newline-free run, a newline and more text: the run is the first line.
pub proof fn lemma_first_line(run: Seq<char>, rest: Seq<char>)
    requires
        forall|i: int| 0 <= i < run.len() ==> run[i] != '\n',
    ensures
        lines_of(run + seq!['\n'] + rest) == seq![strip_cr(run)] + lines_of(rest),
{
    let text = run + seq!['\n'] + rest;
    assert(text =~= run + (seq!['\n'] + rest));
    lemma_newline_after(run, seq!['\n'] + rest);
    assert(text.take(run.len() as int) =~= run);
    assert(text.skip(run.len() as int + 1) =~= rest);
}

/// Splits raw file contents into display lines, without line terminators.
pub fn split_lines(text: &str) -> (lines: Vec<String>)
    ensures
        texts(lines@) == lines_of(text@),
{
    let mut lines: Vec<String> = Vec::new();
    let mut line: String = String::new();
    // A carriage return that is dropped if a newline follows it.
    let mut held_cr: bool = false;
    let ghost mut run: Seq<char> = Seq::empty();
    assert(run + text@.skip(0) =~= text@);
    assert(texts(lines@) + lines_of(text@) =~= lines_of(text@));
    for c in it: text.chars()
        invariant
            it.seq() == text@,
            forall|i: int| 0 <= i < run.len() ==> run[i] != '\n',
            held_cr ==> run == line@.push('\r'),
            !held_cr ==> run == line@ && (run.len() > 0 ==> run.last() != '\r'),
            texts(lines@) + lines_of(run + text@.skip(it.index() as int)) == lines_of(text@),
    {
        let ghost before = run;
        let ghost done = lines@;
        let ghost rest = text@.skip(it.index() as int + 1);
        assert(text@.skip(it.index() as int) =~= seq![c] + rest);
        if c == '\n' {
            proof {
                assert(run + text@.skip(it.index() as int) =~= run + seq!['\n'] + rest);
                lemma_first_line(run, rest);
                assert(strip_cr(run) =~= line@);
                run = Seq::empty();
                assert(run + rest =~= rest);
            }
            let ghost text_line = line@;
            lines.push(line);
            line = String::new();
            held_cr = false;
            assert(texts(lines@) =~= texts(done).push(text_line));
            assert(texts(lines@) + lines_of(rest) =~= texts(done) + (seq![text_line] + lines_of(
                rest,
            )));
        } else {
            if held_cr {
                line.push('\r');
            }
            held_cr = c == '\r';
            if !held_cr {
                line.push(c);
            }
            proof {
                run = run.push(c);
                assert(run + rest =~= before + (seq![c] + rest));
            }
        }
    }
    assert(run + text@.skip(text@.len() as int) =~= run);
    if held_cr {
        line.push('\r');
    }
    proof {
        lemma_newline_at(run);
    }
    if !line.as_str().is_empty() {
        let ghost done = lines@;
        lines.push(line);
        assert(texts(lines@) =~= texts(done).push(run));
        assert(texts(lines@) =~= texts(done) + seq![run]);
    }
    lines
}

/// The words of `text`: its maximal runs of characters that are not white
/// space, in order.
pub open spec fn words(text: Seq<char>) -> Seq<Seq<char>>
    decreases text.len(),
{
    if text.len() == 0 {
        Seq::empty()
    } else {
        let init = text.drop_last();
        let done = words(init);
        if unicode_whitespace(text.last()) {
            done
        } else if init.len() > 0 && !unicode_whitespace(init.last()) {
            done.drop_last().push(done.last().push(text.last()))
        } else {
            done.push(seq![text.last()])
        }
    }
}

/// The words, each but the first preceded by one space.
pub open spec fn join_words(list: Seq<Seq<char>>) -> Seq<char>
    decreases list.len(),
{
    if list.len() == 0 {
        Seq::empty()
    } else if list.len() == 1 {
        list[0]
    } else {
        join_words(list.drop_last()).push(' ') + list.last()
    }
}

/// Joining after one more character was added to the last word.
proof fn lemma_join_grow(list: Seq<Seq<char>>, c: char)
    requires
        list.len() > 0,
    ensures
        join_words(list.drop_last().push(list.last().push(c))) == join_words(list).push(c),
{
    let grown = list.drop_last().push(list.last().push(c));
    assert(grown.drop_last() =~= list.drop_last());
    if list.len() > 1 {
        assert(join_words(list.drop_last()).push(' ') + list.last().push(c) =~= (join_words(
            list.drop_last(),
        ).push(' ') + list.last()).push(c));
    }
}

/// Every word is non-empty and free of white space, and there is a word that
/// ends the text when the text does not end in white space.
proof fn lemma_words(text: Seq<char>)
    ensures
        forall|i: int| 0 <= i < words(text).len() ==> (#[trigger] words(text)[i]).len() > 0,
        forall|i: int, j: int|
            0 <= i < words(text).len() && 0 <= j < words(text)[i].len() ==> !unicode_whitespace(
                #[trigger] words(text)[i][j],
            ),
        text.len() > 0 && !unicode_whitespace(text.last()) ==> words(text).len() > 0,
    decreases text.len(),
{
    if text.len() > 0 {
        let done = words(text.drop_last());
        lemma_words(text.drop_last());
        assert forall|i: int| 0 <= i < words(text).len() implies (#[trigger] words(text)[i]).len()
            > 0 by {
            if i < done.len() {
                assert(done[i].len() > 0);
            }
        }
        assert forall|i: int, j: int|
            0 <= i < words(text).len() && 0 <= j < words(text)[i].len() implies
            !unicode_whitespace(#[trigger] words(text)[i][j]) by {
            if i < done.len() && j < done[i].len() {
                assert(words(text)[i][j] == done[i][j]);
            }
        }
    }
}

/// Folds every run of white space in `line` into one space and drops the
/// white space at both ends.
pub fn normalize_whitespace(line: &str) -> (out: String)
    ensures
        out@ == join_words(words(line@)),
{
    let mut out: String = String::new();
    let mut gap: bool = true;
    for c in it: line.chars()
        invariant
            it.seq() == line@,
            out@ == join_words(words(line@.take(it.index() as int))),
            gap == (it.index() == 0 || unicode_whitespace(line@[it.index() - 1])),
    {
        let ghost init = line@.take(it.index() as int);
        let ghost next = line@.take(it.index() as int + 1);
        proof {
            assert(next.drop_last() =~= init);
            assert(next.last() == c);
            lemma_words(init);
            if words(init).len() > 0 {
                lemma_join_grow(words(init), c);
                lemma_join_nonempty(words(init));
            }
        }
        if c.is_whitespace() {
            gap = true;
        } else {
            if gap {
                if !out.as_str().is_empty() {
                    out.push(' ');
                }
                assert(words(next).drop_last() =~= words(init));
            }
            out.push(c);
            gap = false;
            assert(out@ =~= join_words(words(next)));
        }
    }
    assert(line@.take(line@.len() as int) =~= line@);
    out
}

/// Joined non-empty words are not empty.
proof fn lemma_join_nonempty(list: Seq<Seq<char>>)
    requires
        list.len() > 0,
        forall|i: int| 0 <= i < list.len() ==> (#[trigger] list[i]).len() > 0,
    ensures
        join_words(list).len() > 0,
{
}

/// The words of text to which a space and one more word are added.
proof fn lemma_words_append(text: Seq<char>, word: Seq<char>)
    requires
        word.len() > 0,
        forall|j: int| 0 <= j < word.len() ==> !unicode_whitespace(#[trigger] word[j]),
        text.len() == 0 || unicode_whitespace(text.last()),
    ensures
        words(text + word) == words(text).push(word),
    decreases word.len(),
{
    let whole = text + word;
    assert(whole.drop_last() =~= text + word.drop_last());
    assert(whole.last() == word.last());
    if word.len() == 1 {
        assert(whole.drop_last() =~= text);
        assert(seq![word[0]] =~= word);
    } else {
        assert forall|j: int| 0 <= j < word.drop_last().len() implies !unicode_whitespace(
            #[trigger] word.drop_last()[j],
        ) by {
            assert(word.drop_last()[j] == word[j]);
        }
        lemma_words_append(text, word.drop_last());
        let init = whole.drop_last();
        assert(init.last() == word[word.len() - 2]);
        assert(words(init).drop_last() =~= words(text));
        assert(word.drop_last().push(word.last()) =~= word);
    }
}

/// The words of joined words are those words.
proof fn lemma_words_of_join(list: Seq<Seq<char>>)
    requires
        forall|i: int| 0 <= i < list.len() ==> (#[trigger] list[i]).len() > 0,
        forall|i: int, j: int|
            0 <= i < list.len() && 0 <= j < list[i].len() ==> !unicode_whitespace(
                #[trigger] list[i][j],
            ),
    ensures
        words(join_words(list)) == list,
    decreases list.len(),
{
    if list.len() == 0 {
    } else if list.len() == 1 {
        assert(Seq::<char>::empty() + list[0] =~= list[0]);
        assert(words(Seq::<char>::empty()) =~= Seq::empty());
        assert forall|j: int| 0 <= j < list[0].len() implies !unicode_whitespace(
            #[trigger] list[0][j],
        ) by {}
        lemma_words_append(Seq::empty(), list[0]);
        assert(words(join_words(list)) =~= list);
    } else {
        let init = list.drop_last();
        assert forall|i: int| 0 <= i < init.len() implies (#[trigger] init[i]).len() > 0 by {
            assert(init[i] == list[i]);
        }
        assert forall|i: int, j: int| 0 <= i < init.len() && 0 <= j < init[i].len() implies
            !unicode_whitespace(#[trigger] init[i][j]) by {
            assert(init[i][j] == list[i][j]);
        }
        lemma_words_of_join(init);
        let text = join_words(init).push(' ');
        assert(text.drop_last() =~= join_words(init));
        assert(words(text) == init);
        assert forall|j: int| 0 <= j < list.last().len() implies !unicode_whitespace(
            #[trigger] list.last()[j],
        ) by {
            assert(list.last()[j] == list[list.len() - 1][j]);
        }
        lemma_words_append(text, list.last());
        assert(init.push(list.last()) =~= list);
    }
}

/// Normalizing keeps the words of a line, so normalizing again changes
/// nothing, and two lines normalize alike exactly when their words agree.
pub proof fn law_normalize_keeps_words(a: Seq<char>, b: Seq<char>)
    ensures
        words(join_words(words(a))) == words(a),
        join_words(words(join_words(words(a)))) == join_words(words(a)),
        join_words(words(a)) == join_words(words(b)) <==> words(a) == words(b),
{
    lemma_words(a);
    lemma_words(b);
    lemma_words_of_join(words(a));
    lemma_words_of_join(words(b));
}

/// A text whose line `i` is `list[i]` followed by `\r\n` or, where `crlf[i]`
/// is false, by `\n`.
pub open spec fn terminated(list: Seq<Seq<char>>, crlf: Seq<bool>) -> Seq<char>
    decreases list.len(),
{
    if list.len() == 0 {
        Seq::empty()
    } else {
        let end = if crlf[0] {
            seq!['\r', '\n']
        } else {
            seq!['\n']
        };
        list[0] + end + terminated(list.drop_first(), crlf.drop_first())
    }
}

/// Splitting gives back the lines of a text, whichever terminator each has.
/// (A line that itself ends in a carriage return cannot be told from a
/// shorter one that ends in `\r\n`.)
pub proof fn law_split_inverts_termination(list: Seq<Seq<char>>, crlf: Seq<bool>)
    requires
        list.len() == crlf.len(),
        forall|i: int, j: int|
            0 <= i < list.len() && 0 <= j < list[i].len() ==> #[trigger] list[i][j] != '\n',
        forall|i: int|
            0 <= i < list.len() && !crlf[i] && list[i].len() > 0 ==> (#[trigger] list[i]).last()
                != '\r',
    ensures
        lines_of(terminated(list, crlf)) == list,
    decreases list.len(),
{
    if list.len() > 0 {
        let tail = list.drop_first();
        let rest = terminated(tail, crlf.drop_first());
        assert forall|i: int, j: int|
            0 <= i < tail.len() && 0 <= j < tail[i].len() implies #[trigger] tail[i][j] != '\n' by {
            assert(tail[i][j] == list[i + 1][j]);
        }
        assert forall|i: int|
            0 <= i < tail.len() && !crlf.drop_first()[i] && tail[i].len() > 0 implies (
        #[trigger] tail[i]).last() != '\r' by {
            assert(tail[i] == list[i + 1]);
        }
        law_split_inverts_termination(tail, crlf.drop_first());
        let run = if crlf[0] {
            list[0].push('\r')
        } else {
            list[0]
        };
        assert forall|i: int| 0 <= i < run.len() implies run[i] != '\n' by {
            if i < list[0].len() {
                assert(run[i] == list[0][i]);
            }
        }
        lemma_first_line(run, rest);
        assert(terminated(list, crlf) =~= run + seq!['\n'] + rest);
        assert(strip_cr(run) =~= list[0]);
        assert(seq![list[0]] + tail =~= list);
    }
}

/// No display line holds a newline.
pub proof fn law_lines_hold_no_newline(text: Seq<char>)
    ensures
        forall|i: int, j: int|
            0 <= i < lines_of(text).len() && 0 <= j < lines_of(text)[i].len()
                ==> #[trigger] lines_of(text)[i][j] != '\n',
    decreases text.len(),
{
    lemma_newline_at(text);
    let n = newline_at(text) as int;
    if 0 < text.len() && n < text.len() {
        let rest = text.skip(n + 1);
        law_lines_hold_no_newline(rest);
        assert forall|i: int, j: int|
            0 <= i < lines_of(text).len() && 0 <= j < lines_of(text)[i].len() implies
            #[trigger] lines_of(text)[i][j] != '\n' by {
            if i > 0 {
                assert(lines_of(text)[i][j] == lines_of(rest)[i - 1][j]);
            } else {
                assert(lines_of(text)[i][j] == text[j]);
            }
        }
    }
}

/// Splitting never makes more characters: every line fits into the text, and
/// so does the number of lines.
pub proof fn law_lines_fit(text: Seq<char>)
    ensures
        lines_of(text).len() <= text.len(),
        forall|i: int| 0 <= i < lines_of(text).len() ==> (#[trigger] lines_of(text)[i]).len()
            <= text.len(),
    decreases text.len(),
{
    lemma_newline_at(text);
    let n = newline_at(text) as int;
    if 0 < text.len() && n < text.len() {
        let rest = text.skip(n + 1);
        law_lines_fit(rest);
        assert forall|i: int| 0 <= i < lines_of(text).len() implies (#[trigger] lines_of(
            text,
        )[i]).len() <= text.len() by {
            if i > 0 {
                assert(lines_of(text)[i] == lines_of(rest)[i - 1]);
            }
        }
    }
}

/// How many leading bytes decide whether contents are binary.
pub const BINARY_PROBE: usize = 8192;

/// Contents are binary when a zero byte stands among the first few thousand
/// bytes.
pub open spec fn is_binary(bytes: Seq<u8>) -> bool {
    exists|i: int| 0 <= i < bytes.len() && i < BINARY_PROBE && #[trigger] bytes[i] == 0
}

/// Whether file contents look binary.
pub fn looks_binary(bytes: &[u8]) -> (binary: bool)
    ensures
        binary == is_binary(bytes@),
{
    let mut i: usize = 0;
    while i < bytes.len() && i < BINARY_PROBE
        invariant
            i <= bytes@.len(),
            i <= BINARY_PROBE,
            forall|k: int| 0 <= k < i ==> bytes@[k] != 0,
        decreases bytes@.len() - i,
    {
        if bytes[i] == 0 {
            return true;
        }
        i += 1;
    }
    false
}

/// The decimal digit `d`.
pub open spec fn digit(d: nat) -> char {
    ('0' as nat + d) as char
}

/// `n` in decimal, without leading zeros.
pub open spec fn decimal(n: nat) -> Seq<char>
    decreases n,
{
    if n < 10 {
        seq![digit(n)]
    } else {
        decimal(n / 10).push(digit(n % 10))
    }
}

/// The decimal digit `d` as a character.
fn digit_char(d: u8) -> (c: char)
    requires
        d < 10,
    ensures
        c == digit(d as nat),
{
    (48 + d) as char
}

/// Formats a number in decimal.
pub fn to_decimal(n: u128) -> (out: String)
    ensures
        out@ == decimal(n as nat),
    decreases n,
{
    let mut out: String = if n < 10 {
        String::new()
    } else {
        to_decimal(n / 10)
    };
    out.push(digit_char((n % 10) as u8));
    assert(out@ =~= decimal(n as nat));
    out
}

/// `n` spaces.
pub open spec fn spaces(n: nat) -> Seq<char> {
    Seq::new(n, |i: int| ' ')
}

/// `text` with spaces before it, at least `width` characters in all.
pub open spec fn pad_left(text: Seq<char>, width: nat) -> Seq<char> {
    if text.len() < width {
        spaces((width - text.len()) as nat) + text
    } else {
        text
    }
}

/// `n` spaces.
pub fn blank(n: usize) -> (out: String)
    ensures
        out@ == spaces(n as nat),
{
    let mut out: String = String::new();
    let mut i: usize = 0;
    while i < n
        invariant
            i <= n,
            out@ == spaces(i as nat),
        decreases n - i,
    {
        out.push(' ');
        i += 1;
        assert(out@ =~= spaces(i as nat));
    }
    out
}

/// A number in decimal, right-aligned in `width` columns.
pub fn right_aligned(n: usize, width: usize) -> (out: String)
    ensures
        out@ == pad_left(decimal(n as nat), width as nat),
{
    let number = to_decimal(n as u128);
    let len = number.as_str().unicode_len();
    if len < width {
        let mut out = blank(width - len);
        out.append(number.as_str());
        out
    } else {
        number
    }
}

} // verus!

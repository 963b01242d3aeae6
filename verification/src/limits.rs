//! How many lines a line diff can take.

use crate::align::MAX_LINES;
use crate::text;
use vstd::hash_map::StringHashMap;
use vstd::prelude::*;
use vstd::slice::slice_subrange;

verus! {

/// Most distinct lines that the two sides of a diff may have together.
pub const MAX_DISTINCT: usize = 0x7fff_ffff;

/// Most places that the repeated lines of the old side may take.
pub const MAX_PLACES: u64 = 0x1_0000_0000;

/// How many times a line is frequent.
pub const OFTEN: usize = 64;

/// Most frequent lines that a side of a diff may have.
pub const MAX_FREQUENT: usize = 715_827_882;

/// Lines of each side up to which no limit can be exceeded.
pub const FEW_LINES: usize = 0x400_0000;

/// The first line from line `i` on where the two sides differ or one ends.
pub open spec fn shared_start(old: Seq<Seq<char>>, new: Seq<Seq<char>>, i: int) -> int
    decreases old.len() - i,
{
    if i < old.len() && i < new.len() && old[i] == new[i] {
        shared_start(old, new, i + 1)
    } else {
        i
    }
}

/// How many lines at the end agree, from the `k`-th last on, leaving out the
/// first `start` lines.
pub open spec fn shared_end(
    old: Seq<Seq<char>>,
    new: Seq<Seq<char>>,
    start: int,
    k: int,
) -> int
    decreases old.len() - k,
{
    if start + k < old.len() && start + k < new.len() && 0 <= start && old[old.len() - 1 - k]
        == new[new.len() - 1 - k] {
        shared_end(old, new, start, k + 1)
    } else {
        k
    }
}

/// How often a line occurs.
pub open spec fn occurrences(lines: Seq<Seq<char>>, line: Seq<char>) -> int
    decreases lines.len(),
{
    if lines.len() == 0 {
        0
    } else {
        occurrences(lines.drop_last(), line) + if lines.last() == line {
            1int
        } else {
            0
        }
    }
}

/// The places that are added for the `n`-th occurrence of a line: a block of
/// them when the blocks before it are full.
pub open spec fn added_places(n: int) -> int {
    if n == 2 {
        4
    } else if n == 5 {
        8
    } else if n == 9 {
        16
    } else if n == 17 {
        32
    } else if n == 33 {
        64
    } else {
        0
    }
}

/// The places that repeated lines take.
pub open spec fn places(lines: Seq<Seq<char>>) -> int
    decreases lines.len(),
{
    if lines.len() == 0 {
        0
    } else {
        places(lines.drop_last()) + added_places(occurrences(lines, lines.last()))
    }
}

/// A line occurs often on the old side, and also on the new side.
pub open spec fn is_frequent(
    old: Seq<Seq<char>>,
    new: Seq<Seq<char>>,
    line: Seq<char>,
) -> bool {
    occurrences(old, line) >= OFTEN && occurrences(new, line) > 0
}

/// How many of some lines are frequent.
pub open spec fn frequent_lines(
    old: Seq<Seq<char>>,
    new: Seq<Seq<char>>,
    lines: Seq<Seq<char>>,
) -> int
    decreases lines.len(),
{
    if lines.len() == 0 {
        0
    } else {
        frequent_lines(old, new, lines.drop_last()) + if is_frequent(old, new, lines.last()) {
            1int
        } else {
            0
        }
    }
}

/// How many distinct lines there are on both sides together.
pub open spec fn distinct_lines(old: Seq<Seq<char>>, new: Seq<Seq<char>>) -> nat {
    (old + new).to_set().len()
}

/// The parts of the two sides that differ hold neither too many repeated lines
/// nor too many frequent ones.
pub open spec fn differing_fit(old: Seq<Seq<char>>, new: Seq<Seq<char>>) -> bool {
    ||| old.len() == 0
    ||| new.len() == 0
    ||| places(old) <= MAX_PLACES && frequent_lines(old, new, old) <= MAX_FREQUENT
        && frequent_lines(old, new, new) <= MAX_FREQUENT
}

/// There are not too many lines for a line diff: on neither side, of distinct
/// ones, and of repeated ones in the parts that differ.
pub open spec fn diffable(old: Seq<Seq<char>>, new: Seq<Seq<char>>) -> bool {
    let start = shared_start(old, new, 0);
    let end = shared_end(old, new, start, 0);
    &&& old.len() <= MAX_LINES
    &&& new.len() <= MAX_LINES
    &&& distinct_lines(old, new) <= MAX_DISTINCT
    &&& differing_fit(
        old.subrange(start, old.len() - end),
        new.subrange(start, new.len() - end),
    )
}

/// The map tells how often each line occurs.
spec fn is_count(map: Map<Seq<char>, usize>, lines: Seq<Seq<char>>) -> bool {
    forall|line: Seq<char>|
        {
            &&& (#[trigger] map.contains_key(line)) <==> occurrences(lines, line) > 0
            &&& map.contains_key(line) ==> map[line] == occurrences(lines, line)
        }
}

proof fn lemma_occurrences(lines: Seq<Seq<char>>, line: Seq<char>)
    ensures
        0 <= occurrences(lines, line) <= lines.len(),
        occurrences(lines, line) > 0 <==> lines.contains(line),
    decreases lines.len(),
{
    if lines.len() > 0 {
        lemma_occurrences(lines.drop_last(), line);
        if lines.drop_last().contains(line) {
            let i = lines.drop_last().index_of(line);
            assert(lines[i] == line);
        }
        if lines.last() == line {
            assert(lines[lines.len() - 1] == line);
        }
        if lines.contains(line) && lines.last() != line {
            let i = lines.index_of(line);
            assert(lines.drop_last()[i] == line);
        }
    }
}

proof fn lemma_few_places(lines: Seq<Seq<char>>)
    ensures
        0 <= places(lines) <= 64 * lines.len(),
    decreases lines.len(),
{
    if lines.len() > 0 {
        lemma_few_places(lines.drop_last());
    }
}

proof fn lemma_few_frequent(old: Seq<Seq<char>>, new: Seq<Seq<char>>, lines: Seq<Seq<char>>)
    ensures
        0 <= frequent_lines(old, new, lines) <= lines.len(),
    decreases lines.len(),
{
    if lines.len() > 0 {
        lemma_few_frequent(old, new, lines.drop_last());
    }
}

proof fn lemma_shared_start(old: Seq<Seq<char>>, new: Seq<Seq<char>>, i: int)
    requires
        0 <= i <= old.len(),
        i <= new.len(),
    ensures
        i <= shared_start(old, new, i) <= old.len(),
        shared_start(old, new, i) <= new.len(),
    decreases old.len() - i,
{
    if i < old.len() && i < new.len() {
        lemma_shared_start(old, new, i + 1);
    }
}

proof fn lemma_shared_end(old: Seq<Seq<char>>, new: Seq<Seq<char>>, start: int, k: int)
    requires
        0 <= start,
        0 <= k,
        start + k <= old.len(),
        start + k <= new.len(),
    ensures
        k <= shared_end(old, new, start, k),
        start + shared_end(old, new, start, k) <= old.len(),
        start + shared_end(old, new, start, k) <= new.len(),
    decreases old.len() - k,
{
    if start + k < old.len() && start + k < new.len() {
        lemma_shared_end(old, new, start, k + 1);
    }
}

/// The places that repeated lines take.
pub fn count_places(lines: &[String]) -> (r: u64)
    requires
        lines@.len() <= MAX_LINES,
    ensures
        r == places(text::texts(lines@)),
{
    count_lines(lines).1
}

/// How often each line occurs, and the places that repeated ones take.
fn count_lines(lines: &[String]) -> (r: (StringHashMap<usize>, u64))
    requires
        lines@.len() <= MAX_LINES,
    ensures
        is_count(r.0@, text::texts(lines@)),
        r.1 == places(text::texts(lines@)),
{
    let ghost all = text::texts(lines@);
    let mut counts: StringHashMap<usize> = StringHashMap::new();
    let mut taken: u64 = 0;
    let mut i: usize = 0;
    assert(all.take(0) =~= Seq::empty());
    while i < lines.len()
        invariant
            all == text::texts(lines@),
            i <= lines@.len() <= MAX_LINES,
            is_count(counts@, all.take(i as int)),
            taken == places(all.take(i as int)),
        decreases lines@.len() - i,
    {
        let ghost before = all.take(i as int);
        let ghost here = all.take(i + 1);
        let ghost line = lines@[i as int]@;
        proof {
            assert(here.drop_last() =~= before);
            assert(here.last() == line);
            lemma_occurrences(before, line);
            lemma_few_places(before);
        }
        let seen: usize = match counts.get(lines[i].as_str()) {
            Some(n) => *n,
            None => 0,
        };
        assert(counts@.contains_key(line) <==> occurrences(before, line) > 0);
        assert(seen == occurrences(before, line));
        let n: usize = seen + 1;
        let more: u64 = if n == 2 {
            4
        } else if n == 5 {
            8
        } else if n == 9 {
            16
        } else if n == 17 {
            32
        } else if n == 33 {
            64
        } else {
            0
        };
        taken += more;
        counts.insert(lines[i].clone(), n);
        assert(is_count(counts@, here)) by {
            assert forall|other: Seq<char>|
                {
                    &&& (#[trigger] counts@.contains_key(other)) <==> occurrences(here, other) > 0
                    &&& counts@.contains_key(other) ==> counts@[other] == occurrences(here, other)
                } by {
                lemma_occurrences(before, other);
            }
        }
        i += 1;
    }
    assert(all.take(all.len() as int) =~= all);
    (counts, taken)
}

/// How many of some lines are frequent.
fn count_frequent(
    old_counts: &StringHashMap<usize>,
    new_counts: &StringHashMap<usize>,
    lines: &[String],
    Ghost(old): Ghost<Seq<Seq<char>>>,
    Ghost(new): Ghost<Seq<Seq<char>>>,
) -> (r: usize)
    requires
        is_count(old_counts@, old),
        is_count(new_counts@, new),
    ensures
        r == frequent_lines(old, new, text::texts(lines@)),
{
    let ghost all = text::texts(lines@);
    let mut n: usize = 0;
    let mut i: usize = 0;
    assert(all.take(0) =~= Seq::empty());
    while i < lines.len()
        invariant
            all == text::texts(lines@),
            i <= lines@.len(),
            is_count(old_counts@, old),
            is_count(new_counts@, new),
            n == frequent_lines(old, new, all.take(i as int)),
            n <= i,
        decreases lines@.len() - i,
    {
        let ghost here = all.take(i + 1);
        let ghost line = lines@[i as int]@;
        proof {
            assert(here.drop_last() =~= all.take(i as int));
            assert(here.last() == line);
            lemma_occurrences(old, line);
            assert(old_counts@.contains_key(line) <==> occurrences(old, line) > 0);
            assert(new_counts@.contains_key(line) <==> occurrences(new, line) > 0);
        }
        let often = match old_counts.get(lines[i].as_str()) {
            Some(k) => *k >= OFTEN,
            None => false,
        };
        if often && new_counts.contains_key(lines[i].as_str()) {
            n += 1;
        }
        i += 1;
    }
    assert(all.take(all.len() as int) =~= all);
    n
}

/// Adds lines to those that were seen.
fn note_lines(seen: &mut StringHashMap<()>, lines: &[String], Ghost(before): Ghost<Seq<Seq<char>>>)
    requires
        old(seen)@.dom() == before.to_set(),
    ensures
        final(seen)@.dom() == (before + text::texts(lines@)).to_set(),
{
    let ghost all = text::texts(lines@);
    let mut i: usize = 0;
    assert(before + all.take(0) =~= before);
    while i < lines.len()
        invariant
            all == text::texts(lines@),
            i <= lines@.len(),
            seen@.dom() == (before + all.take(i as int)).to_set(),
        decreases lines@.len() - i,
    {
        let ghost shorter = before + all.take(i as int);
        let ghost longer = before + all.take(i + 1);
        seen.insert(lines[i].clone(), ());
        proof {
            assert(longer =~= shorter.push(all[i as int]));
            lemma_push_to_set(shorter, all[i as int]);
            assert(seen@.dom() =~= longer.to_set());
        }
        i += 1;
    }
    assert(all.take(all.len() as int) =~= all);
}

proof fn lemma_push_to_set(lines: Seq<Seq<char>>, line: Seq<char>)
    ensures
        lines.push(line).to_set() =~= lines.to_set().insert(line),
{
    let longer = lines.push(line);
    assert forall|other: Seq<char>| longer.contains(other) <==> lines.contains(other) || other
        == line by {
        if longer.contains(other) {
            let i = longer.index_of(other);
            if i < lines.len() {
                assert(lines[i] == other);
            }
        }
        if lines.contains(other) {
            let i = lines.index_of(other);
            assert(longer[i] == other);
        }
        assert(longer[lines.len() as int] == line);
    }
}

/// How many distinct lines there are on both sides together.
pub fn count_distinct(old_lines: &[String], new_lines: &[String]) -> (r: usize)
    ensures
        r == distinct_lines(text::texts(old_lines@), text::texts(new_lines@)),
{
    let ghost old = text::texts(old_lines@);
    let ghost new = text::texts(new_lines@);
    let mut seen: StringHashMap<()> = StringHashMap::new();
    assert(seen@.dom() =~= Seq::<Seq<char>>::empty().to_set());
    note_lines(&mut seen, old_lines, Ghost(Seq::empty()));
    assert(Seq::empty() + old =~= old);
    note_lines(&mut seen, new_lines, Ghost(old));
    seen.len()
}

/// Whether the parts of the two sides that differ are not too much.
pub fn can_take(old_lines: &[String], new_lines: &[String]) -> (r: bool)
    requires
        old_lines@.len() <= MAX_LINES,
        new_lines@.len() <= MAX_LINES,
    ensures
        r == differing_fit(text::texts(old_lines@), text::texts(new_lines@)),
{
    let ghost old = text::texts(old_lines@);
    let ghost new = text::texts(new_lines@);
    if old_lines.len() == 0 || new_lines.len() == 0 {
        return true;
    }
    let (old_counts, taken) = count_lines(old_lines);
    let (new_counts, _) = count_lines(new_lines);
    taken <= MAX_PLACES && count_frequent(
        &old_counts,
        &new_counts,
        old_lines,
        Ghost(old),
        Ghost(new),
    ) <= MAX_FREQUENT && count_frequent(
        &old_counts,
        &new_counts,
        new_lines,
        Ghost(old),
        Ghost(new),
    ) <= MAX_FREQUENT
}

/// Whether there are not too many lines for a line diff.
pub fn can_diff(old_lines: &[String], new_lines: &[String]) -> (r: bool)
    ensures
        r == diffable(text::texts(old_lines@), text::texts(new_lines@)),
{
    let ghost old = text::texts(old_lines@);
    let ghost new = text::texts(new_lines@);
    let n: usize = old_lines.len();
    let m: usize = new_lines.len();
    proof {
        lemma_shared_start(old, new, 0);
        lemma_shared_end(old, new, shared_start(old, new, 0), 0);
    }
    if n <= FEW_LINES && m <= FEW_LINES {
        proof {
            law_few_lines_are_diffable(old, new);
        }
        return true;
    }
    if n > MAX_LINES || m > MAX_LINES || count_distinct(old_lines, new_lines) > MAX_DISTINCT {
        return false;
    }
    let start = count_shared_start(old_lines, new_lines);
    let end = count_shared_end(old_lines, new_lines, start);
    let old_part = slice_subrange(old_lines, start, n - end);
    let new_part = slice_subrange(new_lines, start, m - end);
    assert(text::texts(old_part@) =~= old.subrange(start as int, n - end));
    assert(text::texts(new_part@) =~= new.subrange(start as int, m - end));
    can_take(old_part, new_part)
}

/// How many lines at the start agree.
pub fn count_shared_start(old_lines: &[String], new_lines: &[String]) -> (start: usize)
    ensures
        start == shared_start(text::texts(old_lines@), text::texts(new_lines@), 0),
        start <= old_lines@.len(),
        start <= new_lines@.len(),
{
    let ghost old = text::texts(old_lines@);
    let ghost new = text::texts(new_lines@);
    let mut i: usize = 0;
    while i < old_lines.len() && i < new_lines.len() && old_lines[i].eq(&new_lines[i])
        invariant
            old == text::texts(old_lines@),
            new == text::texts(new_lines@),
            i <= old_lines@.len(),
            i <= new_lines@.len(),
            shared_start(old, new, 0) == shared_start(old, new, i as int),
        ensures
            shared_start(old, new, 0) == i,
            i <= old_lines@.len(),
            i <= new_lines@.len(),
        decreases old_lines@.len() - i,
    {
        i += 1;
    }
    i
}

/// How many lines at the end agree, leaving out the first `start` lines.
pub fn count_shared_end(old_lines: &[String], new_lines: &[String], start: usize) -> (end: usize)
    requires
        start <= old_lines@.len(),
        start <= new_lines@.len(),
    ensures
        end == shared_end(
            text::texts(old_lines@),
            text::texts(new_lines@),
            start as int,
            0,
        ),
        start + end <= old_lines@.len(),
        start + end <= new_lines@.len(),
{
    let ghost old = text::texts(old_lines@);
    let ghost new = text::texts(new_lines@);
    let n: usize = old_lines.len();
    let m: usize = new_lines.len();
    let mut k: usize = 0;
    while k < n - start && k < m - start && old_lines[n - 1 - k].eq(&new_lines[m - 1 - k])
        invariant
            old == text::texts(old_lines@),
            new == text::texts(new_lines@),
            n == old_lines@.len(),
            m == new_lines@.len(),
            start + k <= n,
            start + k <= m,
            shared_end(old, new, start as int, 0) == shared_end(
                old,
                new,
                start as int,
                k as int,
            ),
        ensures
            shared_end(old, new, start as int, 0) == k,
            start + k <= n,
            start + k <= m,
        decreases n - k,
    {
        k += 1;
    }
    k
}

/// Up to 2^26 lines of either side are not too many.
pub proof fn law_few_lines_are_diffable(old: Seq<Seq<char>>, new: Seq<Seq<char>>)
    requires
        old.len() <= 0x400_0000,
        new.len() <= 0x400_0000,
    ensures
        diffable(old, new),
{
    let start = shared_start(old, new, 0);
    lemma_shared_start(old, new, 0);
    let end = shared_end(old, new, start, 0);
    lemma_shared_end(old, new, start, 0);
    let a = old.subrange(start, old.len() - end);
    let b = new.subrange(start, new.len() - end);
    lemma_few_places(a);
    lemma_few_frequent(a, b, a);
    lemma_few_frequent(a, b, b);
    (old + new).lemma_cardinality_of_set();
}

/// Two sides that agree are not too much for a diff, as long as neither has too
/// many lines.
pub proof fn law_equal_sides_are_diffable(lines: Seq<Seq<char>>)
    requires
        lines.len() < 0x7fff_ffff,
    ensures
        diffable(lines, lines),
{
    lemma_all_shared(lines, 0);
    assert((lines + lines).to_set() =~= lines.to_set()) by {
        assert forall|line: Seq<char>| (lines + lines).contains(line) <==> lines.contains(line) by {
            if (lines + lines).contains(line) {
                let i = (lines + lines).index_of(line);
                if i < lines.len() {
                    assert(lines[i] == line);
                } else {
                    assert(lines[i - lines.len()] == line);
                }
            }
            if lines.contains(line) {
                let i = lines.index_of(line);
                assert((lines + lines)[i] == line);
            }
        }
    }
    lines.lemma_cardinality_of_set();
}

proof fn lemma_all_shared(lines: Seq<Seq<char>>, i: int)
    requires
        0 <= i <= lines.len(),
    ensures
        shared_start(lines, lines, i) == lines.len(),
    decreases lines.len() - i,
{
    if i < lines.len() {
        lemma_all_shared(lines, i + 1);
    }
}

/// A side with 2^31 - 1 lines or more is too much for a diff.
pub proof fn law_too_many_lines(old: Seq<Seq<char>>, new: Seq<Seq<char>>)
    requires
        old.len() >= 0x7fff_ffff || new.len() >= 0x7fff_ffff,
    ensures
        !diffable(old, new),
{
}

/// A line that is repeated takes blocks of 4, 8, 16, 32 and 64 places, each from
/// the occurrence on that the blocks before it do not hold. A line that is not
/// repeated takes none.
pub proof fn law_places_of_a_line(line: Seq<char>, n: nat)
    ensures
        places(Seq::new(n, |i: int| line)) == if n < 2 {
            0int
        } else if n < 5 {
            4
        } else if n < 9 {
            12
        } else if n < 17 {
            28
        } else if n < 33 {
            60
        } else {
            124
        },
        occurrences(Seq::new(n, |i: int| line), line) == n,
    decreases n,
{
    let lines = Seq::new(n, |i: int| line);
    if n > 0 {
        law_places_of_a_line(line, (n - 1) as nat);
        assert(lines.drop_last() =~= Seq::new((n - 1) as nat, |i: int| line));
        assert(lines.last() == line);
    }
}

} // verus!

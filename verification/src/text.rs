//! Texts, character by character.
use vstd::prelude::*;
use vstd::string::*;

verus! {

/// `String::push`: adds a character to the end of a text.
pub assume_specification[ String::push ](s: &mut String, ch: char)
    ensures
        final(s)@ == old(s)@.push(ch),
;

/// The digit of a number below ten.
pub open spec fn digit(n: nat) -> char {
    ('0' as nat + n) as char
}

/// How a natural number reads in the decimal system.
pub open spec fn decimal(n: nat) -> Seq<char>
    decreases n,
{
    if n < 10 {
        seq![digit(n)]
    } else {
        decimal(n / 10).push(digit(n % 10))
    }
}

/// A number in the decimal system.
pub fn in_decimal(n: u64) -> (text: String)
    ensures
        text@ == decimal(n as nat),
    decreases n,
{
    let mut text = if n < 10 {
        String::new()
    } else {
        in_decimal(n / 10)
    };
    let last: u8 = (n % 10) as u8;
    text.push((48 + last) as char);
    assert(text@ =~= decimal(n as nat));
    text
}

/// The characters of a text.
pub fn letters(text: &str) -> (letters: Vec<char>)
    ensures
        letters@ == text@,
{
    broadcast use axiom_spec_iter;

    let mut letters: Vec<char> = Vec::new();
    for character in iter: text.chars()
        invariant
            iter.seq() == text@,
            letters@ == text@.take(iter.index() as int),
    {
        letters.push(character);
        assert(text@.take(iter.index() as int + 1) =~= text@.take(iter.index() as int).push(
            text@[iter.index() as int],
        ));
    }
    assert(text@.take(text@.len() as int) =~= text@);
    letters
}

/// A part of some characters as a text.
pub fn part(letters: &Vec<char>, from: usize, to: usize) -> (text: String)
    requires
        from <= to <= letters.len(),
    ensures
        text@ == letters@.subrange(from as int, to as int),
{
    let mut text = String::new();
    let mut i: usize = from;
    assert(letters@.subrange(from as int, from as int) =~= Seq::empty());
    while i < to
        invariant
            from <= i <= to <= letters.len(),
            text@ == letters@.subrange(from as int, i as int),
        decreases to - i,
    {
        text.push(letters[i]);
        assert(letters@.subrange(from as int, i + 1) =~= letters@.subrange(
            from as int,
            i as int,
        ).push(letters@[i as int]));
        i = i + 1;
    }
    text
}

/// Whether two texts are the same.
pub fn same(a: &str, b: &str) -> (same: bool)
    ensures
        same == (a@ == b@),
{
    let x = letters(a);
    let y = letters(b);
    if x.len() != y.len() {
        return false;
    }
    let mut i: usize = 0;
    while i < x.len()
        invariant
            i <= x.len(),
            x.len() == y.len(),
            x@ == a@,
            y@ == b@,
            forall|j: int| 0 <= j < i ==> x@[j] == y@[j],
        decreases x.len() - i,
    {
        if x[i] != y[i] {
            assert(a@[i as int] != b@[i as int]);
            return false;
        }
        i = i + 1;
    }
    assert(a@ =~= b@);
    true
}

// ---------------------------------------------------------------------------
// Blanks
// ---------------------------------------------------------------------------
/// The character is white space, as Unicode defines it.
pub open spec fn is_blank(c: char) -> bool {
    ||| '\u{9}' <= c <= '\u{d}'
    ||| c == ' '
    ||| c == '\u{85}'
    ||| c == '\u{a0}'
    ||| c == '\u{1680}'
    ||| '\u{2000}' <= c <= '\u{200a}'
    ||| c == '\u{2028}'
    ||| c == '\u{2029}'
    ||| c == '\u{202f}'
    ||| c == '\u{205f}'
    ||| c == '\u{3000}'
}

fn blank(c: char) -> (blank: bool)
    ensures
        blank == is_blank(c),
{
    '\u{9}' <= c && c <= '\u{d}' || c == ' ' || c == '\u{85}' || c == '\u{a0}' || c == '\u{1680}'
        || '\u{2000}' <= c && c <= '\u{200a}' || c == '\u{2028}' || c == '\u{2029}' || c
        == '\u{202f}' || c == '\u{205f}' || c == '\u{3000}'
}

/// `inner` is what is between two places of `text`, with white space only
/// outside of them.
pub open spec fn is_inside(text: Seq<char>, inner: Seq<char>, from: int, to: int) -> bool {
    &&& 0 <= from <= to <= text.len()
    &&& inner == text.subrange(from, to)
    &&& forall|i: int| 0 <= i < from ==> is_blank(#[trigger] text[i])
    &&& forall|i: int| to <= i < text.len() ==> is_blank(#[trigger] text[i])
}

/// A text without white space at either end.
pub open spec fn trimmed(text: Seq<char>) -> Seq<char>
    decreases text.len(),
{
    if text.len() == 0 {
        text
    } else if is_blank(text[0]) {
        trimmed(text.drop_first())
    } else if is_blank(text.last()) {
        trimmed(text.drop_last())
    } else {
        text
    }
}

/// Trimming leaves the inside of a text, and no white space at its ends.
pub proof fn law_trimmed_has_no_blank_ends(text: Seq<char>)
    ensures
        exists|from: int, to: int| is_inside(text, trimmed(text), from, to),
        trimmed(text).len() > 0 ==> !is_blank(trimmed(text)[0]) && !is_blank(trimmed(text).last()),
{
    let (from, to) = lemma_trimmed_bounds(text);
}

proof fn lemma_trimmed_bounds(text: Seq<char>) -> (bounds: (int, int))
    ensures
        is_inside(text, trimmed(text), bounds.0, bounds.1),
        trimmed(text).len() > 0 ==> !is_blank(trimmed(text)[0]) && !is_blank(trimmed(text).last()),
    decreases text.len(),
{
    if text.len() == 0 {
        assert(text.subrange(0, 0) =~= text);
        (0, 0)
    } else if is_blank(text[0]) {
        let rest = text.drop_first();
        let (from, to) = lemma_trimmed_bounds(rest);
        assert(rest.subrange(from, to) =~= text.subrange(from + 1, to + 1));
        assert forall|i: int| 0 <= i < from + 1 implies is_blank(#[trigger] text[i]) by {
            if i > 0 {
                assert(is_blank(rest[i - 1]));
            }
        }
        assert forall|i: int| to + 1 <= i < text.len() implies is_blank(#[trigger] text[i]) by {
            assert(is_blank(rest[i - 1]));
        }
        (from + 1, to + 1)
    } else if is_blank(text.last()) {
        let rest = text.drop_last();
        let (from, to) = lemma_trimmed_bounds(rest);
        assert(rest.subrange(from, to) =~= text.subrange(from, to));
        assert forall|i: int| 0 <= i < from implies is_blank(#[trigger] text[i]) by {
            assert(is_blank(rest[i]));
        }
        assert forall|i: int| to <= i < text.len() implies is_blank(#[trigger] text[i]) by {
            if i < text.len() - 1 {
                assert(is_blank(rest[i]));
            }
        }
        (from, to)
    } else {
        assert(text.subrange(0, text.len() as int) =~= text);
        (0, text.len() as int)
    }
}

/// A part of some characters without white space at either end.
fn trim_part(letters: &Vec<char>, from: usize, to: usize) -> (text: String)
    requires
        from <= to <= letters.len(),
    ensures
        text@ == trimmed(letters@.subrange(from as int, to as int)),
{
    let mut start: usize = from;
    let mut end: usize = to;
    while start < end
        invariant
            from <= start <= end <= to <= letters.len(),
            trimmed(letters@.subrange(start as int, end as int)) == trimmed(
                letters@.subrange(from as int, to as int),
            ),
        ensures
            from <= start <= end <= to <= letters.len(),
            trimmed(letters@.subrange(start as int, end as int)) == trimmed(
                letters@.subrange(from as int, to as int),
            ),
            start < end ==> !is_blank(letters@[start as int]) && !is_blank(letters@[end - 1]),
        decreases end - start,
    {
        let ghost here = letters@.subrange(start as int, end as int);
        assert(here[0] == letters@[start as int]);
        assert(here.last() == letters@[end - 1]);
        if blank(letters[start]) {
            assert(here.drop_first() =~= letters@.subrange(start + 1, end as int));
            start = start + 1;
        } else if blank(letters[end - 1]) {
            assert(here.drop_last() =~= letters@.subrange(start as int, end - 1));
            end = end - 1;
        } else {
            break ;
        }
    }
    proof {
        let here = letters@.subrange(start as int, end as int);
        if start < end {
            assert(here[0] == letters@[start as int]);
            assert(here.last() == letters@[end - 1]);
        }
    }
    part(letters, start, end)
}

// ---------------------------------------------------------------------------
// Pieces
// ---------------------------------------------------------------------------
/// The pieces of a text between the separators.
pub open spec fn pieces(text: Seq<char>, separator: char) -> Seq<Seq<char>>
    decreases text.len(),
{
    if text.len() == 0 {
        seq![text]
    } else {
        let before = pieces(text.drop_last(), separator);
        if text.last() == separator {
            before.push(Seq::empty())
        } else {
            before.drop_last().push(before.last().push(text.last()))
        }
    }
}

/// The pieces of a text, each without white space at its ends.
pub open spec fn trimmed_pieces(text: Seq<char>, separator: char) -> Seq<Seq<char>> {
    pieces(text, separator).map_values(|piece: Seq<char>| trimmed(piece))
}

/// What a list of texts holds.
pub open spec fn texts(list: Seq<String>) -> Seq<Seq<char>> {
    list.map_values(|text: String| text@)
}

/// There is always a piece.
pub proof fn lemma_some_piece(text: Seq<char>, separator: char)
    ensures
        pieces(text, separator).len() > 0,
        trimmed_pieces(text, separator).len() > 0,
    decreases text.len(),
{
    if text.len() > 0 {
        lemma_some_piece(text.drop_last(), separator);
    }
}

/// There is always a piece, and the last one runs to the end.
proof fn lemma_pieces(text: Seq<char>, separator: char, start: int, n: int)
    requires
        0 <= start <= n <= text.len(),
        start > 0 ==> text[start - 1] == separator,
        forall|i: int| start <= i < n ==> text[i] != separator,
    ensures
        pieces(text.take(n), separator).len() > 0,
        pieces(text.take(n), separator).last() == text.subrange(start, n),
        start > 0 ==> pieces(text.take(n), separator).drop_last() == pieces(
            text.take(start - 1),
            separator,
        ),
        start == 0 ==> pieces(text.take(n), separator).len() == 1,
    decreases n,
{
    let here = text.take(n);
    if n == 0 {
        assert(here =~= Seq::empty());
        assert(text.subrange(0, 0) =~= here);
    } else if start == n {
        assert(here.drop_last() =~= text.take(n - 1));
        assert(here.last() == separator);
        assert(text.subrange(n, n) =~= Seq::empty());
        assert(pieces(here, separator).drop_last() =~= pieces(text.take(n - 1), separator));
    } else {
        lemma_pieces(text, separator, start, n - 1);
        assert(here.drop_last() =~= text.take(n - 1));
        assert(here.last() == text[n - 1]);
        assert(text.subrange(start, n) =~= text.subrange(start, n - 1).push(text[n - 1]));
        let before = pieces(text.take(n - 1), separator);
        assert(before.drop_last().push(before.last().push(text[n - 1])).drop_last()
            =~= before.drop_last());
    }
}

/// The pieces of a text between the separators, each without white space at its
/// ends. There is always at least one.
pub fn split_trimmed(text: &str, separator: char) -> (list: Vec<String>)
    ensures
        texts(list@) == trimmed_pieces(text@, separator),
        list.len() > 0,
{
    let ghost f = |piece: Seq<char>| trimmed(piece);
    let letters = letters(text);
    let ghost all = text@;
    let mut list: Vec<String> = Vec::new();
    let mut start: usize = 0;
    let mut i: usize = 0;
    while i < letters.len()
        invariant
            letters@ == all,
            start <= i <= letters.len(),
            f == (|piece: Seq<char>| trimmed(piece)),
            start > 0 ==> all[start - 1] == separator,
            forall|j: int| start <= j < i ==> all[j] != separator,
            start == 0 ==> list.len() == 0,
            start > 0 ==> texts(list@) == pieces(all.take(start - 1), separator).map_values(f),
        decreases letters.len() - i,
    {
        if letters[i] == separator {
            let piece = trim_part(&letters, start, i);
            let ghost before = texts(list@);
            list.push(piece);
            proof {
                lemma_pieces(all, separator, start as int, i as int);
                let parts = pieces(all.take(i as int), separator);
                assert(parts =~= parts.drop_last().push(parts.last()));
                assert(texts(list@) =~= before.push(piece@));
                assert(parts.map_values(f) =~= parts.drop_last().map_values(f).push(
                    f(parts.last()),
                ));
                assert(texts(list@) =~= parts.map_values(f));
            }
            start = i + 1;
        }
        i = i + 1;
    }
    let piece = trim_part(&letters, start, letters.len());
    let ghost before = texts(list@);
    list.push(piece);
    proof {
        lemma_pieces(all, separator, start as int, all.len() as int);
        assert(all.take(all.len() as int) =~= all);
        let parts = pieces(all, separator);
        assert(parts =~= parts.drop_last().push(parts.last()));
        assert(texts(list@) =~= before.push(piece@));
        assert(parts.map_values(f) =~= parts.drop_last().map_values(f).push(f(parts.last())));
        assert(texts(list@) =~= parts.map_values(f));
    }
    list
}

} // verus!

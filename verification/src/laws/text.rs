//! What the operations on text are for.

use vstd::prelude::*;
use vstd::string::*;

use crate::text::{
    ascii_lower, ascii_lower_text, at_most, decimal, first_position, is_space, joined,
    last_position, lemma_first_position, lemma_last_position, lemma_leading_spaces,
    lemma_trailing_spaces, lemma_word_length, occurs, occurs_at, occurs_ignoring_case, pieces,
    same_ignoring_case, split_at_first, text_lines, texts, trimmed, without_trailing, words,
};

verus! {

/// The two characters are the two cases of one ASCII letter.
pub open spec fn two_cases(a: char, b: char) -> bool {
    ||| 0x41 <= a as int <= 0x5a && b as int == a as int + 0x20
    ||| 0x41 <= b as int <= 0x5a && a as int == b as int + 0x20
}

/// The two texts are as long as each other and differ at most in the case of
/// ASCII letters.
pub open spec fn same_letters(a: Seq<char>, b: Seq<char>) -> bool {
    a.len() == b.len() && forall|i: int|
        0 <= i < a.len() ==> (#[trigger] a[i]) == b[i] || two_cases(a[i], b[i])
}

/// The character `c` does not stand in the text.
pub open spec fn lacks(s: Seq<char>, c: char) -> bool {
    forall|i: int| 0 <= i < s.len() ==> s[i] != c
}

/// Lower case is the same for the two cases of a letter, for nothing else, and
/// never an upper case letter.
pub proof fn law_lower_case_joins_the_two_cases(a: char, b: char)
    ensures
        ascii_lower(a) == ascii_lower(b) <==> a == b || two_cases(a, b),
        !(0x41 <= ascii_lower(a) as int <= 0x5a),
        ascii_lower(a) == a || two_cases(ascii_lower(a), a),
{
}

/// Texts are the same, case ignored, just if they differ at most in the case of
/// ASCII letters.
pub proof fn law_case_is_all_that_is_ignored(a: Seq<char>, b: Seq<char>)
    ensures
        same_ignoring_case(a, b) <==> same_letters(a, b),
{
    let x = ascii_lower_text(a);
    let y = ascii_lower_text(b);
    if same_ignoring_case(a, b) {
        assert(x.len() == y.len());
        assert forall|i: int| 0 <= i < a.len() implies (#[trigger] a[i]) == b[i] || two_cases(
            a[i],
            b[i],
        ) by {
            assert(x[i] == y[i]);
            law_lower_case_joins_the_two_cases(a[i], b[i]);
        }
    }
    if same_letters(a, b) {
        assert forall|i: int| 0 <= i < x.len() implies x[i] == y[i] by {
            assert(a[i] == b[i] || two_cases(a[i], b[i]));
            law_lower_case_joins_the_two_cases(a[i], b[i]);
        }
        assert(x =~= y);
    }
}

/// A text occurs in another just if the other consists of something before it,
/// the text itself and something after it.
pub proof fn law_occurrence_is_anywhere(hay: Seq<char>, needle: Seq<char>)
    ensures
        occurs(hay, needle) <==> exists|before: Seq<char>, after: Seq<char>|
            hay == #[trigger] (before + needle + after),
{
    if occurs(hay, needle) {
        let at = choose|at: int| #[trigger] occurs_at(hay, needle, at);
        let before = hay.take(at);
        let after = hay.skip(at + needle.len());
        assert(hay =~= before + needle + after);
    }
    if exists|before: Seq<char>, after: Seq<char>| hay == #[trigger] (before + needle + after) {
        let (before, after) = choose|before: Seq<char>, after: Seq<char>|
            hay == #[trigger] (before + needle + after);
        assert(hay.subrange(before.len() as int, (before.len() + needle.len()) as int) =~= needle);
        assert(occurs_at(hay, needle, before.len() as int));
    }
}

/// Whatever stands before and after a text, and whatever the case of its
/// letters, it occurs.
pub proof fn law_occurrence_ignores_case(
    before: Seq<char>,
    written: Seq<char>,
    after: Seq<char>,
    needle: Seq<char>,
)
    requires
        same_letters(written, needle),
    ensures
        occurs_ignoring_case(before + written + after, needle),
        occurs(ascii_lower_text(before + written + after), ascii_lower_text(needle)),
{
    law_case_is_all_that_is_ignored(written, needle);
    let hay = before + written + after;
    let low = ascii_lower_text(hay);
    let n = ascii_lower_text(needle);
    assert(low.subrange(before.len() as int, (before.len() + n.len()) as int) =~= ascii_lower_text(written));
    assert(occurs_at(low, n, before.len() as int));
}

/// What occurs, case ignored, is there with some letters in another case.
pub proof fn law_what_occurs_is_there(hay: Seq<char>, needle: Seq<char>)
    requires
        occurs_ignoring_case(hay, needle),
    ensures
        exists|at: int|
            0 <= at && at + needle.len() <= hay.len() && same_letters(
                #[trigger] hay.subrange(at, at + needle.len()),
                needle,
            ),
{
    let low = ascii_lower_text(hay);
    let n = ascii_lower_text(needle);
    let at = choose|at: int| #[trigger] occurs_at(low, n, at);
    let part = hay.subrange(at, at + needle.len());
    assert(ascii_lower_text(part) =~= low.subrange(at, at + n.len()));
    law_case_is_all_that_is_ignored(part, needle);
}

/// A text starts with another just if something follows it.
pub proof fn law_prefix_is_at_the_start(prefix: Seq<char>, rest: Seq<char>, s: Seq<char>)
    ensures
        occurs_at(prefix + rest, prefix, 0),
        occurs_at(s, prefix, 0) ==> s == prefix + s.skip(prefix.len() as int),
{
    assert((prefix + rest).subrange(0, prefix.len() as int) =~= prefix);
    if occurs_at(s, prefix, 0) {
        assert(s =~= s.subrange(0, prefix.len() as int) + s.skip(prefix.len() as int));
    }
}

/// The first and the last position of a character: it stands there, and not
/// before the first nor after the last.
pub proof fn law_positions(before: Seq<char>, c: char, after: Seq<char>)
    ensures
        lacks(before, c) ==> first_position(before + seq![c] + after, c) == before.len(),
        lacks(after, c) ==> last_position(before + seq![c] + after, c) == before.len(),
        lacks(before, c) ==> first_position(before, c) == before.len(),
        lacks(before, c) ==> last_position(before, c) == -1,
        lacks(before, c) ==> split_at_first(before + seq![c] + after, c) == Some((before, after)),
        lacks(before, c) ==> split_at_first(before, c) is None,
{
    let s = before + seq![c] + after;
    let k = before.len() as int;
    assert(s[k] == c);
    if lacks(before, c) {
        lemma_first_position(s, c, k);
        lemma_first_position(before, c, k);
        lemma_last_position(before, c, -1);
        assert(s.take(k) =~= before);
        assert(s.skip(k + 1) =~= after);
    }
    if lacks(after, c) {
        assert forall|j: int| k < j < s.len() implies s[j] != c by {
            assert(s[j] == after[j - k - 1]);
        }
        lemma_last_position(s, c, k);
    }
}

/// White space is what Unicode calls so: tabulator, line feeds, the space and
/// its relatives.
pub proof fn law_white_space(c: char)
    ensures
        is_space(c) <==> seq![
            '\u{9}', '\u{a}', '\u{b}', '\u{c}', '\u{d}', '\u{20}', '\u{85}', '\u{a0}', '\u{1680}',
            '\u{2000}', '\u{2001}', '\u{2002}', '\u{2003}', '\u{2004}', '\u{2005}', '\u{2006}',
            '\u{2007}', '\u{2008}', '\u{2009}', '\u{200a}', '\u{2028}', '\u{2029}', '\u{202f}',
            '\u{205f}', '\u{3000}',
        ].contains(c),
{
    let all = seq![
        '\u{9}', '\u{a}', '\u{b}', '\u{c}', '\u{d}', '\u{20}', '\u{85}', '\u{a0}', '\u{1680}',
        '\u{2000}', '\u{2001}', '\u{2002}', '\u{2003}', '\u{2004}', '\u{2005}', '\u{2006}',
        '\u{2007}', '\u{2008}', '\u{2009}', '\u{200a}', '\u{2028}', '\u{2029}', '\u{202f}',
        '\u{205f}', '\u{3000}',
    ];
    let v = c as int;
    if is_space(c) {
        let i: int = if v <= 0xd {
            v - 9
        } else if v == 0x20 {
            5
        } else if v == 0x85 {
            6
        } else if v == 0xa0 {
            7
        } else if v == 0x1680 {
            8
        } else if v <= 0x200a {
            9 + v - 0x2000
        } else if v == 0x2028 {
            20
        } else if v == 0x2029 {
            21
        } else if v == 0x202f {
            22
        } else if v == 0x205f {
            23
        } else {
            24
        };
        assert(all[i] == c);
    }
}

/// All characters are white space.
pub open spec fn blank(s: Seq<char>) -> bool {
    forall|i: int| 0 <= i < s.len() ==> is_space(#[trigger] s[i])
}

/// No character is white space.
pub open spec fn solid(s: Seq<char>) -> bool {
    forall|i: int| 0 <= i < s.len() ==> !is_space(#[trigger] s[i])
}

/// Trimming takes the white space at both ends away and nothing else.
pub proof fn law_trimming(before: Seq<char>, s: Seq<char>, after: Seq<char>)
    requires
        blank(before),
        blank(after),
        s.len() > 0 ==> !is_space(s[0]) && !is_space(s.last()),
    ensures
        trimmed(before + s + after) == s,
{
    let all = before + s + after;
    if s.len() == 0 {
        lemma_leading_spaces(all, all.len() as int);
        let t = all.skip(all.len() as int);
        assert(t.len() == 0);
        assert(trimmed(all) =~= s);
    } else {
        let a = before.len() as int;
        assert(all[a] == s[0]);
        lemma_leading_spaces(all, a);
        let t = all.skip(a);
        assert forall|j: int| s.len() <= j < t.len() implies is_space(t[j]) by {
            assert(t[j] == after[j - s.len()]);
        }
        assert(t[s.len() - 1] == s.last());
        lemma_trailing_spaces(t, s.len() as int);
        assert(trimmed(all) =~= s);
    }
}

/// The words of a text are its longest runs without white space, in order.
pub proof fn law_words(before: Seq<char>, word: Seq<char>, rest: Seq<char>)
    requires
        blank(before),
    ensures
        words(before) == Seq::<Seq<char>>::empty(),
        word.len() > 0 && solid(word) && (rest.len() > 0 ==> is_space(rest[0])) ==> words(
            before + word + rest,
        ) == seq![word] + words(rest),
{
    lemma_leading_spaces(before, before.len() as int);
    assert(before.skip(before.len() as int).len() == 0);
    if word.len() > 0 && solid(word) && (rest.len() > 0 ==> is_space(rest[0])) {
        let s = before + word + rest;
        let a = before.len() as int;
        assert(s[a] == word[0]);
        lemma_leading_spaces(s, a);
        let t = s.skip(a);
        assert(t =~= word + rest);
        lemma_word_length(t, word.len() as int);
        assert(t.take(word.len() as int) =~= word);
        assert(t.skip(word.len() as int) =~= rest);
    }
}

/// A line ends at a line feed, with or without a carriage return before it, or at
/// the end of the text.
pub proof fn law_lines(line: Seq<char>, rest: Seq<char>)
    requires
        lacks(line, '\n'),
    ensures
        text_lines(Seq::empty()) == Seq::<Seq<char>>::empty(),
        line.len() > 0 ==> text_lines(line) == seq![line],
        (line.len() > 0 ==> line.last() != '\r') ==> text_lines(line + seq!['\n'] + rest) == seq![
            line,
        ] + text_lines(rest),
        text_lines(line + seq!['\r', '\n'] + rest) == seq![line] + text_lines(rest),
{
    law_positions(line, '\n', rest);
    let s = line + seq!['\n'] + rest;
    let k = line.len() as int;
    assert(s.take(k) =~= line);
    assert(s.skip(k + 1) =~= rest);
    let cr = line.push('\r');
    let t = line + seq!['\r', '\n'] + rest;
    assert(t =~= cr + seq!['\n'] + rest);
    assert(lacks(cr, '\n'));
    law_positions(cr, '\n', rest);
    assert(t.take(k + 1) =~= cr);
    assert(t.skip(k + 2) =~= rest);
    assert(cr.drop_last() =~= line);
}

/// Texts are joined in their order, with the separator between two and nowhere
/// else.
pub proof fn law_joining(parts: Seq<Seq<char>>, last: Seq<char>, sep: Seq<char>)
    ensures
        joined(Seq::empty(), sep) == Seq::<char>::empty(),
        joined(seq![last], sep) == last,
        parts.len() > 0 ==> joined(parts.push(last), sep) == joined(parts, sep) + sep + last,
{
    assert(parts.push(last).drop_last() =~= parts);
}

/// The length of some texts, one after the other, with `sep` characters between
/// two.
pub open spec fn joined_length(parts: Seq<Seq<char>>, sep: nat) -> nat
    decreases parts.len(),
{
    if parts.len() == 0 {
        0
    } else {
        joined_length(parts.drop_last(), sep) + parts.last().len() + if parts.len() > 1 {
            sep
        } else {
            0
        }
    }
}

/// Every one of the texts that are joined stands in the result, between what is
/// joined before it and what is joined after it.
pub proof fn law_every_part_is_joined(parts: Seq<Seq<char>>, sep: Seq<char>, i: int)
    requires
        0 <= i < parts.len(),
    ensures
        occurs(joined(parts, sep), parts[i]),
        joined(parts, sep).len() == joined_length(parts, sep.len()),
    decreases parts.len(),
{
    let whole = joined(parts, sep);
    if parts.len() == 1 {
        assert(whole.subrange(0, whole.len() as int) =~= parts[i]);
        assert(occurs_at(whole, parts[i], 0));
        assert(parts.drop_last().len() == 0);
        assert(joined_length(parts.drop_last(), sep.len()) == 0);
    } else {
        let front = parts.drop_last();
        let head = joined(front, sep);
        if i < front.len() {
            law_every_part_is_joined(front, sep, i);
            let at = choose|at: int| #[trigger] occurs_at(head, front[i], at);
            assert(whole.subrange(at, at + parts[i].len()) =~= head.subrange(
                at,
                at + parts[i].len(),
            ));
            assert(occurs_at(whole, parts[i], at));
        } else {
            law_every_part_is_joined(front, sep, 0);
            let at = (head + sep).len() as int;
            assert(whole.subrange(at, at + parts[i].len()) =~= parts[i]);
            assert(occurs_at(whole, parts[i], at));
        }
    }
}

/// Cutting at a character undoes joining with it.
pub proof fn law_cutting_undoes_joining(parts: Seq<Seq<char>>, c: char)
    requires
        parts.len() > 0,
        forall|i: int| 0 <= i < parts.len() ==> lacks(#[trigger] parts[i], c),
    ensures
        pieces(joined(parts, seq![c]), c) == parts,
    decreases parts.len(),
{
    if parts.len() == 1 {
        law_pieces(parts[0], c, Seq::empty());
        assert(pieces(parts[0], c) =~= parts);
    } else {
        let rest = parts.drop_first();
        assert forall|i: int| 0 <= i < rest.len() implies lacks(#[trigger] rest[i], c) by {
            assert(rest[i] == parts[i + 1]);
        }
        law_cutting_undoes_joining(rest, c);
        lemma_joined_front(parts, seq![c]);
        law_pieces(parts[0], c, joined(rest, seq![c]));
        assert(seq![parts[0]] + rest =~= parts);
    }
}

proof fn lemma_joined_front(parts: Seq<Seq<char>>, sep: Seq<char>)
    requires
        parts.len() > 1,
    ensures
        joined(parts, sep) == parts[0] + sep + joined(parts.drop_first(), sep),
    decreases parts.len(),
{
    let rest = parts.drop_first();
    if parts.len() == 2 {
        assert(parts.drop_last() =~= seq![parts[0]]);
        assert(joined(parts.drop_last(), sep) == parts[0]);
        assert(joined(rest, sep) == parts[1]);
    } else {
        let front = parts.drop_last();
        lemma_joined_front(front, sep);
        assert(front.drop_first() =~= rest.drop_last());
        assert(joined(parts, sep) =~= parts[0] + sep + joined(rest, sep));
    }
}

/// The pieces of a text are what stands between the characters it is cut at.
pub proof fn law_pieces(first: Seq<char>, c: char, rest: Seq<char>)
    requires
        lacks(first, c),
    ensures
        pieces(first, c) == seq![first],
        pieces(first + seq![c] + rest, c) == seq![first] + pieces(rest, c),
{
    law_positions(first, c, rest);
    let s = first + seq![c] + rest;
    let k = first.len() as int;
    assert(s.take(k) =~= first);
    assert(s.skip(k + 1) =~= rest);
}

/// At most so many characters: the first ones, and all if there are no more.
pub proof fn law_at_most(s: Seq<char>, n: nat)
    ensures
        at_most(s, n).len() == if s.len() <= n {
            s.len()
        } else {
            n
        },
        forall|i: int| 0 <= i < at_most(s, n).len() ==> at_most(s, n)[i] == s[i],
{
}

/// What is written in decimal has the value of the number, in digits, without a
/// zero in front.
pub proof fn law_decimal_notation(n: nat)
    ensures
        forall|i: int| 0 <= i < decimal(n).len() ==> '0' <= #[trigger] decimal(n)[i] <= '9',
        decimal(n).len() >= 1,
        decimal(n).len() > 1 ==> decimal(n)[0] != '0',
        n < 10 ==> decimal(n).len() == 1 && decimal(n)[0] as int == 48 + n,
        n >= 10 ==> decimal(n) == decimal(n / 10).push((48 + n % 10) as char),
    decreases n,
{
    if n >= 10 {
        law_decimal_notation(n / 10);
        let front = decimal(n / 10);
        assert forall|i: int| 0 <= i < decimal(n).len() implies '0' <= #[trigger] decimal(n)[i]
            <= '9' by {
            if i < front.len() {
                assert(decimal(n)[i] == front[i]);
            }
        }
        assert(decimal(n)[0] == front[0]);
    }
}

/// Each text has its view, in the order of the texts.
pub proof fn law_texts(v: Seq<String>, i: int)
    requires
        0 <= i < v.len(),
    ensures
        texts(v).len() == v.len(),
        texts(v)[i] == v[i]@,
{
}

/// Without its trailing characters a text is what stands before them.
pub proof fn law_trailing_characters(s: Seq<char>, c: char, n: nat)
    requires
        s.len() > 0 ==> s.last() != c,
    ensures
        without_trailing(s + Seq::new(n, |i: int| c), c) == s,
    decreases n,
{
    let all = s + Seq::new(n, |i: int| c);
    if n == 0 {
        assert(all =~= s);
    } else {
        law_trailing_characters(s, c, (n - 1) as nat);
        assert(all.drop_last() =~= s + Seq::new((n - 1) as nat, |i: int| c));
    }
}

} // verus!

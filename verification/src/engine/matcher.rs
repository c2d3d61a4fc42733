//! The two matching engines that the rules are run with: an Aho-Corasick
//! automaton for literals and compiled regular expressions.

use aho_corasick::AhoCorasick;
use regex::Regex;
use vstd::prelude::*;
use vstd::string::*;

use crate::text::{ascii_lower_text, occurs, occurs_at, occurs_ignoring_case, same_ignoring_case};

verus! {

/// An Aho-Corasick automaton.
#[verifier::external_type_specification]
#[verifier::external_body]
pub struct ExAhoCorasick(aho_corasick::AhoCorasick);

/// Why an automaton could not be built.
#[verifier::external_type_specification]
#[verifier::external_body]
pub struct ExAutomatonError(aho_corasick::BuildError);

/// A compiled regular expression.
#[verifier::external_type_specification]
#[verifier::external_body]
pub struct ExRegex(regex::Regex);

/// Why a regular expression could not be compiled.
#[verifier::external_type_specification]
#[verifier::external_body]
pub struct ExRegexError(regex::Error);

/// The patterns that an automaton searches for, by their numbers.
pub uninterp spec fn automaton_patterns(ac: AhoCorasick) -> Seq<Seq<char>>;

/// Does the automaton search without regard to ASCII case, and does it report
/// overlapping matches?
pub uninterp spec fn automaton_reports_overlaps(ac: AhoCorasick) -> bool;

/// Do the patterns fit into an automaton?
pub uninterp spec fn automaton_builds(patterns: Seq<Seq<char>>) -> bool;

/// The pattern stands in `hay` so that it ends at `end`, ASCII case ignored.
pub open spec fn ends_at(hay: Seq<char>, pattern: Seq<char>, end: nat) -> bool {
    pattern.len() <= end <= hay.len() && same_ignoring_case(
        hay.subrange(end - pattern.len(), end as int),
        pattern,
    )
}

/// The numbers of the patterns of length `len` that end at `end`, in ascending
/// order.
pub open spec fn ending_of_length(
    patterns: Seq<Seq<char>>,
    hay: Seq<char>,
    end: nat,
    len: nat,
) -> Seq<usize>
    decreases patterns.len(),
{
    if patterns.len() == 0 {
        Seq::empty()
    } else {
        let front = ending_of_length(patterns.drop_last(), hay, end, len);
        if patterns.last().len() == len && ends_at(hay, patterns.last(), end) {
            front.push((patterns.len() - 1) as usize)
        } else {
            front
        }
    }
}

/// The numbers of the patterns of at most `longest` characters that end at
/// `end`, the longer ones first.
pub open spec fn ending_at(
    patterns: Seq<Seq<char>>,
    hay: Seq<char>,
    end: nat,
    longest: nat,
) -> Seq<usize>
    decreases longest,
{
    if longest == 0 {
        Seq::empty()
    } else {
        ending_of_length(patterns, hay, end, longest) + ending_at(
            patterns,
            hay,
            end,
            (longest - 1) as nat,
        )
    }
}

/// The numbers of the patterns that match within the first `end` characters, one
/// for each match, in the order in which the matches end.
pub open spec fn matches_until(patterns: Seq<Seq<char>>, hay: Seq<char>, end: nat) -> Seq<usize>
    decreases end,
{
    if end == 0 {
        Seq::empty()
    } else {
        matches_until(patterns, hay, (end - 1) as nat) + ending_at(patterns, hay, end, end)
    }
}

/// The numbers of the patterns that match in `hay`, one for each match,
/// overlapping ones included.
pub open spec fn overlapping_matches(patterns: Seq<Seq<char>>, hay: Seq<char>) -> Seq<usize> {
    matches_until(patterns, hay, hay.len())
}

/// The source of a compiled regular expression.
pub uninterp spec fn regex_source(re: Regex) -> Seq<char>;

/// Is the text a regular expression that can be compiled?
pub uninterp spec fn regex_compiles(source: Seq<char>) -> bool;

/// The text of the first match of a regular expression.
pub uninterp spec fn regex_first_match(source: Seq<char>, hay: Seq<char>) -> Option<Seq<char>>;

/// The views of some string slices.
pub open spec fn slice_texts(v: Seq<&'static str>) -> Seq<Seq<char>> {
    Seq::new(v.len(), |i: int| v[i]@)
}

/// `AhoCorasickBuilder::build`, with ASCII case ignored and everything else as
/// it is by default: the automaton searches for the patterns, numbered as they
/// stand, and supports overlapping searches. Which sets of patterns are too
/// large for one is only named.
#[verifier::external_body]
pub(crate) fn build_automaton(patterns: &Vec<&'static str>) -> (r: Result<
    AhoCorasick,
    aho_corasick::BuildError,
>)
    ensures
        r is Ok <==> automaton_builds(slice_texts(patterns@)),
        r matches Ok(ac) ==> automaton_patterns(ac) == slice_texts(patterns@)
            && automaton_reports_overlaps(ac),
{
    AhoCorasick::builder().ascii_case_insensitive(true).build(patterns)
}

/// `AhoCorasick::find_overlapping_iter`: the pattern of each match, overlapping
/// ones included, in the order in which the matches end; of those that end
/// together the longer come first, and patterns that differ at most in ASCII
/// case come by their numbers. An empty pattern, which would match between the
/// bytes of a character too, is left out.
#[verifier::external_body]
pub(crate) fn find_overlapping(ac: &AhoCorasick, hay: &str) -> (r: Vec<usize>)
    requires
        automaton_reports_overlaps(*ac),
        forall|k: int|
            0 <= k < automaton_patterns(*ac).len() ==> (#[trigger] automaton_patterns(*ac)[k]).len()
                > 0,
    ensures
        r@ == overlapping_matches(automaton_patterns(*ac), hay@),
{
    ac.find_overlapping_iter(hay).map(|m| m.pattern().as_usize()).collect()
}

/// `Regex::new`: which texts are regular expressions, and not too large, is
/// only named.
#[verifier::external_body]
pub(crate) fn compile_regex(source: &str) -> (r: Result<Regex, regex::Error>)
    ensures
        r is Ok <==> regex_compiles(source@),
        r matches Ok(re) ==> regex_source(re) == source@,
{
    Regex::new(source)
}

/// `Regex::find`: the text of the first match, if there is one. It is a part
/// of `hay`; which part is only named.
#[verifier::external_body]
pub(crate) fn find_regex(re: &Regex, hay: &str) -> (r: Option<String>)
    ensures
        match r {
            Some(m) => regex_first_match(regex_source(*re), hay@) == Some(m@),
            None => regex_first_match(regex_source(*re), hay@) is None,
        },
        r matches Some(m) ==> occurs(hay@, m@),
{
    re.find(hay).map(|m| m.as_str().to_string())
}

/// `Regex::is_match`: true just when there is a first match.
#[verifier::external_body]
pub(crate) fn regex_matches(re: &Regex, hay: &str) -> (r: bool)
    ensures
        r == (regex_first_match(regex_source(*re), hay@) is Some),
{
    re.is_match(hay)
}

/// The number is that of a pattern that ends in `hay` at `end`.
pub open spec fn matches_at(patterns: Seq<Seq<char>>, hay: Seq<char>, end: nat, k: usize) -> bool {
    k < patterns.len() && ends_at(hay, patterns[k as int], end)
}

/// The number is that of a pattern that ends somewhere in `hay`.
spec fn matches_somewhere(patterns: Seq<Seq<char>>, hay: Seq<char>, k: usize) -> bool {
    exists|e: nat| #[trigger] matches_at(patterns, hay, e, k)
}

pub(crate) proof fn lemma_ending_of_length(patterns: Seq<Seq<char>>, hay: Seq<char>, end: nat, len: nat)
    requires
        patterns.len() <= usize::MAX,
    ensures
        forall|i: int|
            0 <= i < ending_of_length(patterns, hay, end, len).len() ==> matches_at(
                patterns,
                hay,
                end,
                #[trigger] ending_of_length(patterns, hay, end, len)[i],
            ),
        forall|k: usize|
            #![trigger patterns[k as int]]
            matches_at(patterns, hay, end, k) && patterns[k as int].len() == len
                ==> ending_of_length(patterns, hay, end, len).contains(k),
    decreases patterns.len(),
{
    if patterns.len() > 0 {
        let front = patterns.drop_last();
        lemma_ending_of_length(front, hay, end, len);
        let before = ending_of_length(front, hay, end, len);
        let after = ending_of_length(patterns, hay, end, len);
        assert forall|i: int| 0 <= i < after.len() implies matches_at(
            patterns,
            hay,
            end,
            #[trigger] after[i],
        ) by {
            if i < before.len() {
                assert(after[i] == before[i]);
                assert(front[before[i] as int] == patterns[before[i] as int]);
            }
        }
        assert forall|k: usize|
            #![trigger patterns[k as int]]
            matches_at(patterns, hay, end, k) && patterns[k as int].len() == len implies after.contains(
            k,
        ) by {
            if k < front.len() {
                assert(front[k as int] == patterns[k as int]);
                assert(matches_at(front, hay, end, k));
                let i = choose|i: int| 0 <= i < before.len() && before[i] == k;
                assert(after[i] == k);
            } else {
                assert(after[before.len() as int] == k);
            }
        }
    }
}

proof fn lemma_ending_at(patterns: Seq<Seq<char>>, hay: Seq<char>, end: nat, longest: nat)
    requires
        patterns.len() <= usize::MAX,
    ensures
        forall|i: int|
            0 <= i < ending_at(patterns, hay, end, longest).len() ==> matches_at(
                patterns,
                hay,
                end,
                #[trigger] ending_at(patterns, hay, end, longest)[i],
            ),
        forall|k: usize|
            #![trigger patterns[k as int]]
            matches_at(patterns, hay, end, k) && 0 < patterns[k as int].len() <= longest
                ==> ending_at(patterns, hay, end, longest).contains(k),
    decreases longest,
{
    if longest > 0 {
        lemma_ending_of_length(patterns, hay, end, longest);
        lemma_ending_at(patterns, hay, end, (longest - 1) as nat);
        let first = ending_of_length(patterns, hay, end, longest);
        let rest = ending_at(patterns, hay, end, (longest - 1) as nat);
        let all = ending_at(patterns, hay, end, longest);
        assert forall|i: int| 0 <= i < all.len() implies matches_at(
            patterns,
            hay,
            end,
            #[trigger] all[i],
        ) by {
            if i < first.len() {
                assert(all[i] == first[i]);
            } else {
                assert(all[i] == rest[i - first.len()]);
            }
        }
        assert forall|k: usize|
            #![trigger patterns[k as int]]
            matches_at(patterns, hay, end, k) && 0 < patterns[k as int].len()
                <= longest implies all.contains(k) by {
            if patterns[k as int].len() == longest {
                let i = choose|i: int| 0 <= i < first.len() && first[i] == k;
                assert(all[i] == k);
            } else {
                let i = choose|i: int| 0 <= i < rest.len() && rest[i] == k;
                assert(all[first.len() + i] == k);
            }
        }
    }
}

proof fn lemma_matches_until(patterns: Seq<Seq<char>>, hay: Seq<char>, end: nat)
    requires
        patterns.len() <= usize::MAX,
    ensures
        forall|i: int|
            0 <= i < matches_until(patterns, hay, end).len() ==> matches_somewhere(
                patterns,
                hay,
                #[trigger] matches_until(patterns, hay, end)[i],
            ),
        forall|k: usize, e: nat| #[trigger]
            matches_at(patterns, hay, e, k) && 0 < patterns[k as int].len() && e <= end
                ==> matches_until(patterns, hay, end).contains(k),
    decreases end,
{
    if end > 0 {
        lemma_matches_until(patterns, hay, (end - 1) as nat);
        lemma_ending_at(patterns, hay, end, end);
        let before = matches_until(patterns, hay, (end - 1) as nat);
        let last = ending_at(patterns, hay, end, end);
        let all = matches_until(patterns, hay, end);
        assert forall|i: int| 0 <= i < all.len() implies matches_somewhere(
            patterns,
            hay,
            #[trigger] all[i],
        ) by {
            if i < before.len() {
                assert(all[i] == before[i]);
            } else {
                assert(all[i] == last[i - before.len()]);
                assert(matches_at(patterns, hay, end, all[i]));
            }
        }
        assert forall|k: usize, e: nat| #[trigger]
            matches_at(patterns, hay, e, k) && 0 < patterns[k as int].len() && e
                <= end implies all.contains(k) by {
            if e == end {
                assert(0 < patterns[k as int].len() <= end);
                let i = choose|i: int| 0 <= i < last.len() && last[i] == k;
                assert(all[before.len() + i] == k);
            } else {
                let i = choose|i: int| 0 <= i < before.len() && before[i] == k;
                assert(all[i] == k);
            }
        }
    }
}

/// A pattern matches just where it stands in the text, ASCII case ignored.
pub proof fn law_matches_are_occurrences(patterns: Seq<Seq<char>>, hay: Seq<char>, k: usize)
    requires
        patterns.len() <= usize::MAX,
        forall|i: int| 0 <= i < patterns.len() ==> (#[trigger] patterns[i]).len() > 0,
    ensures
        overlapping_matches(patterns, hay).contains(k) <==> k < patterns.len()
            && occurs_ignoring_case(hay, patterns[k as int]),
{
    let all = overlapping_matches(patterns, hay);
    lemma_matches_until(patterns, hay, hay.len());
    let low = ascii_lower_text(hay);
    if all.contains(k) {
        let i = choose|i: int| 0 <= i < all.len() && all[i] == k;
        assert(matches_somewhere(patterns, hay, all[i]));
        let e = choose|e: nat| #[trigger] matches_at(patterns, hay, e, all[i]);
        let p = patterns[k as int];
        let at = e - p.len();
        assert(low.subrange(at, at + p.len()) =~= ascii_lower_text(hay.subrange(at, e as int)));
        assert(occurs_at(low, ascii_lower_text(p), at));
    }
    if k < patterns.len() && occurs_ignoring_case(hay, patterns[k as int]) {
        let p = patterns[k as int];
        let at = choose|at: int| #[trigger] occurs_at(low, ascii_lower_text(p), at);
        let e = (at + p.len()) as nat;
        assert(low.subrange(at, at + p.len()) =~= ascii_lower_text(hay.subrange(at, e as int)));
        assert(matches_at(patterns, hay, e, k));
    }
}

} // verus!

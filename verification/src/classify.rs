//! The lexical classifier: fixed category tables and the predicates that
//! decide, case-insensitively and ignoring periods, whether a token is a
//! title, a surname prefix, a suffix, a conjunction, or an initial.

use vstd::prelude::*;
use vstd::string::StrSliceExecFns;
use crate::text::{
    spec_fold_char, fold_char, fold_seq,
};

verus! {

/// Whether `c` has the Unicode `Alphabetic` property, as decided by
/// `char::is_alphabetic`; the result depends on the character alone.
pub uninterp spec fn char_alphabetic(c: char) -> bool;

/// Relies on `char::is_alphabetic`: true exactly for characters with the
/// Unicode `Alphabetic` property.
#[verifier::external_body]
fn is_alphabetic_char(c: char) -> (r: bool)
    ensures
        r == char_alphabetic(c),
{
    c.is_alphabetic()
}

/// `s` without its trailing periods.
pub open spec fn strip_trailing_periods(s: Seq<char>) -> Seq<char>
    decreases s.len(),
{
    if s.len() > 0 && s.last() == '.' {
        strip_trailing_periods(s.drop_last())
    } else {
        s
    }
}

/// `s` without any periods, wherever they stand.
pub open spec fn strip_periods(s: Seq<char>) -> Seq<char> {
    s.filter(|c: char| c != '.')
}

/// Normal form for title and prefix lookup: trailing periods removed, then
/// case folded. The folding is deliberately ASCII-only: every table entry
/// is lowercase ASCII, and no non-ASCII character lowercases to a plain
/// ASCII letter in a way a name would use, so membership agrees with full
/// Unicode lowercasing on every reachable entry while staying exactly
/// statable.
pub open spec fn norm_tail(s: Seq<char>) -> Seq<char> {
    fold_seq(strip_trailing_periods(s))
}

/// Normal form for suffix lookup: every period removed, then case folded,
/// so that a form like a dotted abbreviation still matches its table entry.
pub open spec fn norm_all(s: Seq<char>) -> Seq<char> {
    fold_seq(strip_periods(s))
}

/// An initial: one alphabetic character, optionally followed by a period.
pub open spec fn is_initial_seq(s: Seq<char>) -> bool {
    ||| (s.len() == 1 && char_alphabetic(s[0]))
    ||| (s.len() == 2 && char_alphabetic(s[0]) && s[1] == '.')
}

/// Membership in the fixed title table.
pub open spec fn title_entry(s: Seq<char>) -> bool {
    ||| s == "rev"@
    ||| s == "sir"@
    ||| s == "madam"@
    ||| s == "miss"@
    ||| s == "misses"@
    ||| s == "dr"@
    ||| s == "doctor"@
    ||| s == "mr"@
    ||| s == "mrs"@
}

/// Membership in the fixed suffix table (generational and professional).
pub open spec fn suffix_entry(s: Seq<char>) -> bool {
    ||| s == "jr"@
    ||| s == "sr"@
    ||| s == "iii"@
    ||| s == "iv"@
    ||| s == "esq"@
    ||| s == "esquire"@
    ||| s == "rn"@
    ||| s == "lpn"@
    ||| s == "cpa"@
    ||| s == "md"@
    ||| s == "phd"@
    ||| s == "dds"@
}

/// Membership in the fixed conjunction table.
pub open spec fn conj_entry(s: Seq<char>) -> bool {
    ||| s == "&"@
    ||| s == "and"@
    ||| s == "y"@
}

/// Membership in the fixed surname-prefix table.
pub open spec fn prefix_entry(s: Seq<char>) -> bool {
    ||| s == "de"@
    ||| s == "del"@
    ||| s == "du"@
    ||| s == "la"@
    ||| s == "der"@
    ||| s == "van"@
    ||| s == "st"@
    ||| s == "ste"@
    ||| s == "vel"@
    ||| s == "von"@
}

/// A title token: its normal form is in the title table.
pub open spec fn is_title_seq(s: Seq<char>) -> bool {
    title_entry(norm_tail(s))
}

/// A surname-prefix token: its normal form is in the prefix table and is
/// not an initial.
pub open spec fn is_prefix_seq(s: Seq<char>) -> bool {
    !is_initial_seq(norm_tail(s)) && prefix_entry(norm_tail(s))
}

/// A suffix token: its period-free normal form is in the suffix table and
/// is not an initial.
pub open spec fn is_suffix_seq(s: Seq<char>) -> bool {
    !is_initial_seq(norm_all(s)) && suffix_entry(norm_all(s))
}

/// A conjunction token, matched verbatim, with no normalization.
pub open spec fn is_conj_seq(s: Seq<char>) -> bool {
    conj_entry(s)
}

/// Folding a folded character changes nothing, and folding maps a period
/// to a period and nothing else to one.
proof fn lemma_fold_char_facts(c: char)
    ensures
        spec_fold_char(spec_fold_char(c)) == spec_fold_char(c),
        (spec_fold_char(c) == '.') == (c == '.'),
{
}

/// Case folding twice is case folding once.
proof fn lemma_fold_idempotent(s: Seq<char>)
    ensures
        fold_seq(fold_seq(s)) == fold_seq(s),
{
    assert forall|j: int| 0 <= j < s.len() implies spec_fold_char(
        spec_fold_char(s[j]),
    ) == spec_fold_char(s[j]) by {
        lemma_fold_char_facts(s[j]);
    }
    assert(fold_seq(fold_seq(s)) =~= fold_seq(s));
}

/// Removing trailing periods commutes with case folding.
proof fn lemma_strip_trailing_fold(s: Seq<char>)
    ensures
        strip_trailing_periods(fold_seq(s)) == fold_seq(strip_trailing_periods(s)),
    decreases s.len(),
{
    if s.len() > 0 {
        lemma_fold_char_facts(s.last());
        assert(fold_seq(s).last() == spec_fold_char(s.last()));
        if s.last() == '.' {
            lemma_strip_trailing_fold(s.drop_last());
            assert(fold_seq(s).drop_last() =~= fold_seq(s.drop_last()));
        } else {
            assert(strip_trailing_periods(fold_seq(s)) == fold_seq(s));
        }
    } else {
        assert(fold_seq(s) =~= Seq::<char>::empty());
    }
}

/// Removing every period commutes with case folding.
proof fn lemma_strip_periods_fold(s: Seq<char>)
    ensures
        strip_periods(fold_seq(s)) == fold_seq(strip_periods(s)),
    decreases s.len(),
{
    reveal(Seq::filter);
    if s.len() > 0 {
        lemma_fold_char_facts(s.last());
        lemma_strip_periods_fold(s.drop_last());
        assert(fold_seq(s).drop_last() =~= fold_seq(s.drop_last()));
        assert(fold_seq(s).last() == spec_fold_char(s.last()));
        assert(fold_seq(s).len() == s.len());
        if s.last() != '.' {
            assert(strip_periods(s) == strip_periods(s.drop_last()).push(s.last()));
            assert(strip_periods(fold_seq(s)) == strip_periods(fold_seq(s.drop_last())).push(
                spec_fold_char(s.last()),
            ));
            assert(fold_seq(strip_periods(s.drop_last()).push(s.last())) =~= fold_seq(
                strip_periods(s.drop_last()),
            ).push(spec_fold_char(s.last())));
        } else {
            assert(strip_periods(s) == strip_periods(s.drop_last()));
            assert(strip_periods(fold_seq(s)) == strip_periods(fold_seq(s.drop_last())));
        }
    } else {
        assert(fold_seq(s) =~= Seq::<char>::empty());
        assert(strip_periods(s) =~= Seq::<char>::empty());
        assert(strip_periods(fold_seq(s)) =~= Seq::<char>::empty());
    }
}

/// Law: the classification predicates are case-insensitive. Folding the
/// case of a token never changes how it classifies.
pub proof fn lemma_classify_case_insensitive(s: Seq<char>)
    ensures
        is_title_seq(fold_seq(s)) == is_title_seq(s),
        is_prefix_seq(fold_seq(s)) == is_prefix_seq(s),
        is_suffix_seq(fold_seq(s)) == is_suffix_seq(s),
{
    lemma_strip_trailing_fold(s);
    lemma_strip_periods_fold(s);
    lemma_fold_idempotent(strip_trailing_periods(s));
    lemma_fold_idempotent(strip_periods(s));
}

/// Law: the classification predicates ignore a trailing period. Appending
/// one to a token never changes how it classifies.
pub proof fn lemma_classify_trailing_period(s: Seq<char>)
    ensures
        is_title_seq(s.push('.')) == is_title_seq(s),
        is_prefix_seq(s.push('.')) == is_prefix_seq(s),
        is_suffix_seq(s.push('.')) == is_suffix_seq(s),
{
    reveal(Seq::filter);
    assert(s.push('.').drop_last() =~= s);
    assert(s.push('.').last() == '.');
    assert(strip_trailing_periods(s.push('.')) == strip_trailing_periods(s));
    assert(strip_periods(s.push('.')) == strip_periods(s));
}

/// Case folding of `part` with trailing periods removed first.
fn normalize_tail(part: &str) -> (r: Vec<char>)
    ensures
        r@ == norm_tail(part@),
{
    let n: usize = part.unicode_len();
    let mut b: usize = n;
    let mut stop: bool = false;
    proof {
        assert(part@.take(n as int) =~= part@);
    }
    while !stop && b > 0
        invariant
            n == part@.len(),
            0 <= b <= n,
            strip_trailing_periods(part@) == strip_trailing_periods(part@.take(b as int)),
            stop ==> b > 0 && part@[b as int - 1] != '.',
        decreases b + (if stop { 0int } else { 1int }),
    {
        if part.get_char(b - 1) == '.' {
            proof {
                assert(part@.take(b as int).last() == part@[b as int - 1]);
                assert(part@.take(b as int).drop_last() =~= part@.take(b as int - 1));
            }
            b -= 1;
        } else {
            stop = true;
        }
    }
    proof {
        if b > 0 {
            assert(part@.take(b as int).last() == part@[b as int - 1]);
        }
        assert(strip_trailing_periods(part@.take(b as int)) == part@.take(b as int));
    }
    let mut r: Vec<char> = Vec::new();
    let mut i: usize = 0;
    proof {
        assert(r@ =~= fold_seq(part@.take(0)));
    }
    while i < b
        invariant
            b <= part@.len(),
            0 <= i <= b,
            r@ == fold_seq(part@.take(i as int)),
        decreases b - i,
    {
        r.push(fold_char(part.get_char(i)));
        proof {
            assert(r@ =~= fold_seq(part@.take(i as int + 1)));
        }
        i += 1;
    }
    r
}

/// Case folding of `part` with every period removed first.
fn normalize_all(part: &str) -> (r: Vec<char>)
    ensures
        r@ == norm_all(part@),
{
    let n: usize = part.unicode_len();
    let mut r: Vec<char> = Vec::new();
    let mut i: usize = 0;
    proof {
        reveal(Seq::filter);
        assert(part@.take(0) =~= Seq::<char>::empty());
        assert(r@ =~= fold_seq(strip_periods(part@.take(0))));
    }
    while i < n
        invariant
            n == part@.len(),
            0 <= i <= n,
            r@ == fold_seq(strip_periods(part@.take(i as int))),
        decreases n - i,
    {
        let c = part.get_char(i);
        let ghost before = r@;
        if c != '.' {
            r.push(fold_char(c));
        }
        proof {
            reveal(Seq::filter);
            assert(part@.take(i as int + 1).drop_last() =~= part@.take(i as int));
            assert(part@.take(i as int + 1).last() == part@[i as int]);
            if c != '.' {
                assert(strip_periods(part@.take(i as int + 1)) == strip_periods(
                    part@.take(i as int),
                ).push(c));
                assert(r@ =~= before.push(spec_fold_char(c)));
                assert(r@ =~= fold_seq(strip_periods(part@.take(i as int + 1))));
            } else {
                assert(strip_periods(part@.take(i as int + 1)) == strip_periods(
                    part@.take(i as int),
                ));
            }
        }
        i += 1;
    }
    proof {
        assert(part@.take(n as int) =~= part@);
    }
    r
}

/// Whether a character sequence is an initial.
fn is_initial_chars(v: &Vec<char>) -> (r: bool)
    ensures
        r == is_initial_seq(v@),
{
    if v.len() == 1 {
        is_alphabetic_char(v[0])
    } else if v.len() == 2 {
        let second = v[1];
        is_alphabetic_char(v[0]) && second == '.'
    } else {
        false
    }
}

/// Checks whether `part` is an initial: a single alphabetic character,
/// optionally followed by a period.
pub fn is_initial(part: &str) -> (r: bool)
    ensures
        r == is_initial_seq(part@),
{
    let n: usize = part.unicode_len();
    if n == 1 {
        is_alphabetic_char(part.get_char(0))
    } else if n == 2 {
        is_alphabetic_char(part.get_char(0)) && part.get_char(1) == '.'
    } else {
        false
    }
}

/// Whether `v` is in the title table.
fn in_titles(v: &Vec<char>) -> (r: bool)
    ensures
        r == title_entry(v@),
{
    crate::text::chars_eq_str(v, "rev") || crate::text::chars_eq_str(v, "sir")
        || crate::text::chars_eq_str(v, "madam") || crate::text::chars_eq_str(v, "miss")
        || crate::text::chars_eq_str(v, "misses") || crate::text::chars_eq_str(v, "dr")
        || crate::text::chars_eq_str(v, "doctor") || crate::text::chars_eq_str(v, "mr")
        || crate::text::chars_eq_str(v, "mrs")
}

/// Whether `v` is in the suffix table.
fn in_suffixes(v: &Vec<char>) -> (r: bool)
    ensures
        r == suffix_entry(v@),
{
    crate::text::chars_eq_str(v, "jr") || crate::text::chars_eq_str(v, "sr")
        || crate::text::chars_eq_str(v, "iii") || crate::text::chars_eq_str(v, "iv")
        || crate::text::chars_eq_str(v, "esq") || crate::text::chars_eq_str(v, "esquire")
        || crate::text::chars_eq_str(v, "rn") || crate::text::chars_eq_str(v, "lpn")
        || crate::text::chars_eq_str(v, "cpa") || crate::text::chars_eq_str(v, "md")
        || crate::text::chars_eq_str(v, "phd") || crate::text::chars_eq_str(v, "dds")
}

/// Whether `v` is in the prefix table.
fn in_prefixes(v: &Vec<char>) -> (r: bool)
    ensures
        r == prefix_entry(v@),
{
    crate::text::chars_eq_str(v, "de") || crate::text::chars_eq_str(v, "del")
        || crate::text::chars_eq_str(v, "du") || crate::text::chars_eq_str(v, "la")
        || crate::text::chars_eq_str(v, "der") || crate::text::chars_eq_str(v, "van")
        || crate::text::chars_eq_str(v, "st") || crate::text::chars_eq_str(v, "ste")
        || crate::text::chars_eq_str(v, "vel") || crate::text::chars_eq_str(v, "von")
}

/// Checks whether `part` is a title, case-insensitively and ignoring
/// trailing periods.
pub fn is_title(part: &str) -> (r: bool)
    ensures
        r == is_title_seq(part@),
{
    let n = normalize_tail(part);
    in_titles(&n)
}

/// Checks whether `part` is a surname prefix, case-insensitively and
/// ignoring trailing periods; an initial never qualifies.
pub fn is_prefix(part: &str) -> (r: bool)
    ensures
        r == is_prefix_seq(part@),
{
    let n = normalize_tail(part);
    !is_initial_chars(&n) && in_prefixes(&n)
}

/// Checks whether `part` is a suffix, case-insensitively and ignoring every
/// period in the token; an initial never qualifies.
pub fn is_suffix(part: &str) -> (r: bool)
    ensures
        r == is_suffix_seq(part@),
{
    let n = normalize_all(part);
    !is_initial_chars(&n) && in_suffixes(&n)
}

/// Checks whether `part` is a conjunction, matched verbatim.
pub fn is_conjunction(part: &str) -> (r: bool)
    ensures
        r == is_conj_seq(part@),
{
    crate::text::str_eq_str(part, "&") || crate::text::str_eq_str(part, "and")
        || crate::text::str_eq_str(part, "y")
}

} // verus!

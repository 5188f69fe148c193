//! Character and character-sequence utilities: whitespace recognition,
//! ASCII case folding, searching, trimming, and splitting.

use vstd::prelude::*;
use vstd::string::StrSliceExecFns;
use vstd::string::StringExecFns;

verus! {

/// The whitespace characters: the Unicode `White_Space` set, as
/// `char::is_whitespace` decides it. Used for tokenizing, for trimming
/// segments, and for splicing around an extracted nickname.
pub open spec fn is_space(c: char) -> bool {
    ||| c == ' '
    ||| ('\u{0009}' <= c && c <= '\u{000d}')
    ||| c == '\u{0085}'
    ||| c == '\u{00a0}'
    ||| c == '\u{1680}'
    ||| ('\u{2000}' <= c && c <= '\u{200a}')
    ||| c == '\u{2028}'
    ||| c == '\u{2029}'
    ||| c == '\u{202f}'
    ||| c == '\u{205f}'
    ||| c == '\u{3000}'
}

/// Whether `c` is whitespace.
pub fn is_space_char(c: char) -> (r: bool)
    ensures
        r == is_space(c),
{
    c == ' ' || ('\u{0009}' <= c && c <= '\u{000d}') || c == '\u{0085}' || c == '\u{00a0}' || c
        == '\u{1680}' || ('\u{2000}' <= c && c <= '\u{200a}') || c == '\u{2028}' || c == '\u{2029}'
        || c == '\u{202f}' || c == '\u{205f}' || c == '\u{3000}'
}

/// ASCII case folding of a single character: uppercase ASCII letters map to
/// their lowercase counterparts, every other character is unchanged.
pub open spec fn spec_fold_char(c: char) -> char {
    if 'A' <= c && c <= 'Z' {
        (((c as u8) + 32) as char)
    } else {
        c
    }
}

/// Lowercases one character (ASCII case folding).
pub fn fold_char(c: char) -> (r: char)
    ensures
        r == spec_fold_char(c),
{
    if 'A' <= c && c <= 'Z' {
        ((c as u8) + 32) as char
    } else {
        c
    }
}

/// ASCII case folding of a whole character sequence.
pub open spec fn fold_seq(s: Seq<char>) -> Seq<char> {
    s.map_values(|c: char| spec_fold_char(c))
}

/// Index of the first occurrence of `c` in `s`, if any.
pub open spec fn find_char(s: Seq<char>, c: char) -> Option<int>
    decreases s.len(),
{
    if s.len() == 0 {
        None
    } else if s[0] == c {
        Some(0)
    } else {
        match find_char(s.drop_first(), c) {
            Some(i) => Some(i + 1),
            None => None,
        }
    }
}

/// `find_char` returns the position of the first occurrence: the position
/// holds `c`, everything before it does not, and `None` means `c` is absent.
pub proof fn lemma_find_char_props(s: Seq<char>, c: char)
    ensures
        match find_char(s, c) {
            Some(i) => 0 <= i < s.len() && s[i] == c && (forall|j: int| 0 <= j < i ==> s[j] != c),
            None => forall|j: int| 0 <= j < s.len() ==> s[j] != c,
        },
    decreases s.len(),
{
    if s.len() > 0 && s[0] != c {
        lemma_find_char_props(s.drop_first(), c);
        assert(forall|j: int| 1 <= j < s.len() ==> s[j] == s.drop_first()[j - 1]);
    }
}

/// A position that holds `c`, with no occurrence of `c` before it, is what
/// `find_char` returns.
pub proof fn lemma_find_char_at(s: Seq<char>, c: char, i: int)
    requires
        0 <= i < s.len(),
        s[i] == c,
        forall|j: int| 0 <= j < i ==> s[j] != c,
    ensures
        find_char(s, c) == Some(i),
    decreases s.len(),
{
    if i > 0 {
        lemma_find_char_at(s.drop_first(), c, i - 1);
    }
}

/// When `c` occurs nowhere in `s`, `find_char` returns `None`.
pub proof fn lemma_find_char_none(s: Seq<char>, c: char)
    requires
        forall|j: int| 0 <= j < s.len() ==> s[j] != c,
    ensures
        find_char(s, c) is None,
    decreases s.len(),
{
    if s.len() > 0 {
        lemma_find_char_none(s.drop_first(), c);
    }
}

/// Position of the first occurrence of `c` in `s`, scanning left to right.
pub fn find_char_in(s: &str, c: char) -> (r: Option<usize>)
    ensures
        match r {
            Some(i) => find_char(s@, c) == Some(i as int),
            None => find_char(s@, c) is None,
        },
{
    let n: usize = s.unicode_len();
    let mut i: usize = 0;
    while i < n
        invariant
            n == s@.len(),
            0 <= i <= n,
            forall|j: int| 0 <= j < i ==> s@[j] != c,
        decreases n - i,
    {
        if s.get_char(i) == c {
            proof {
                lemma_find_char_at(s@, c, i as int);
            }
            return Some(i);
        }
        i += 1;
    }
    proof {
        lemma_find_char_none(s@, c);
    }
    None
}

/// `s` without its leading whitespace.
pub open spec fn spec_trim_start(s: Seq<char>) -> Seq<char>
    decreases s.len(),
{
    if s.len() > 0 && is_space(s[0]) {
        spec_trim_start(s.drop_first())
    } else {
        s
    }
}

/// `s` without its trailing whitespace.
pub open spec fn spec_trim_end(s: Seq<char>) -> Seq<char>
    decreases s.len(),
{
    if s.len() > 0 && is_space(s.last()) {
        spec_trim_end(s.drop_last())
    } else {
        s
    }
}

/// `s` without leading and trailing whitespace.
pub open spec fn spec_trim(s: Seq<char>) -> Seq<char> {
    spec_trim_end(spec_trim_start(s))
}

/// Trimming never lengthens a sequence.
pub proof fn lemma_trim_len(s: Seq<char>)
    ensures
        spec_trim_start(s).len() <= s.len(),
        spec_trim_end(s).len() <= s.len(),
    decreases s.len(),
{
    if s.len() > 0 {
        lemma_trim_len(s.drop_first());
        lemma_trim_len(s.drop_last());
    }
}

/// Removes leading whitespace.
pub fn trim_start_str<'a>(s: &'a str) -> (r: &'a str)
    ensures
        r@ == spec_trim_start(s@),
{
    let n: usize = s.unicode_len();
    let mut a: usize = 0;
    let mut stop: bool = false;
    proof {
        assert(s@.skip(0) =~= s@);
    }
    while !stop && a < n
        invariant
            n == s@.len(),
            0 <= a <= n,
            spec_trim_start(s@) == spec_trim_start(s@.skip(a as int)),
            stop ==> a < n && !is_space(s@[a as int]),
        decreases n - a + (if stop { 0int } else { 1int }),
    {
        if is_space_char(s.get_char(a)) {
            proof {
                assert(s@.skip(a as int)[0] == s@[a as int]);
                assert(s@.skip(a as int).drop_first() =~= s@.skip(a as int + 1));
            }
            a += 1;
        } else {
            stop = true;
        }
    }
    proof {
        if a == n {
            assert(s@.skip(a as int) =~= s@.skip(a as int));
        } else {
            assert(s@.skip(a as int)[0] == s@[a as int]);
        }
        assert(spec_trim_start(s@.skip(a as int)) == s@.skip(a as int));
    }
    s.substring_char(a, n)
}

/// Removes trailing whitespace.
pub fn trim_end_str<'a>(s: &'a str) -> (r: &'a str)
    ensures
        r@ == spec_trim_end(s@),
{
    let n: usize = s.unicode_len();
    let mut b: usize = n;
    let mut stop: bool = false;
    proof {
        assert(s@.take(n as int) =~= s@);
    }
    while !stop && b > 0
        invariant
            n == s@.len(),
            0 <= b <= n,
            spec_trim_end(s@) == spec_trim_end(s@.take(b as int)),
            stop ==> b > 0 && !is_space(s@[b as int - 1]),
        decreases b + (if stop { 0int } else { 1int }),
    {
        if is_space_char(s.get_char(b - 1)) {
            proof {
                assert(s@.take(b as int).last() == s@[b as int - 1]);
                assert(s@.take(b as int).drop_last() =~= s@.take(b as int - 1));
            }
            b -= 1;
        } else {
            stop = true;
        }
    }
    proof {
        if b > 0 {
            assert(s@.take(b as int).last() == s@[b as int - 1]);
        }
        assert(spec_trim_end(s@.take(b as int)) == s@.take(b as int));
    }
    s.substring_char(0, b)
}

/// Removes leading and trailing whitespace.
pub fn trim_str<'a>(s: &'a str) -> (r: &'a str)
    ensures
        r@ == spec_trim(s@),
{
    trim_end_str(trim_start_str(s))
}

/// The pieces of `s` delimited by `sep`, in order, separators removed.
/// Empty pieces are kept, so the result always has at least one element.
pub open spec fn split_char(s: Seq<char>, sep: char) -> Seq<Seq<char>>
    decreases s.len(),
    via split_char_decreases
{
    match find_char(s, sep) {
        Some(i) => seq![s.take(i)] + split_char(s.skip(i + 1), sep),
        None => seq![s],
    }
}

#[via_fn]
proof fn split_char_decreases(s: Seq<char>, sep: char) {
    lemma_find_char_props(s, sep);
}

/// Splits `s` at every occurrence of `sep`, keeping empty pieces.
pub fn split_all(s: &str, sep: char) -> (r: Vec<String>)
    ensures
        r.deep_view() == split_char(s@, sep),
{
    let mut r: Vec<String> = Vec::new();
    let mut rest: &str = s;
    let mut fin: bool = false;
    proof {
        assert(r.deep_view() + split_char(rest@, sep) =~= split_char(s@, sep));
    }
    while !fin
        invariant
            !fin ==> split_char(s@, sep) == r.deep_view() + split_char(rest@, sep),
            fin ==> r.deep_view() == split_char(s@, sep),
        decreases rest@.len() + (if fin { 0int } else { 1int }),
    {
        let ghost prev = r.deep_view();
        match find_char_in(rest, sep) {
            Some(i) => {
                proof {
                    lemma_find_char_props(rest@, sep);
                }
                let piece = rest.substring_char(0, i);
                let m: usize = rest.unicode_len();
                r.push(String::from_str(piece));
                let old_rest: &str = rest;
                rest = rest.substring_char(i + 1, m);
                proof {
                    assert(piece@ =~= old_rest@.take(i as int));
                    assert(r.deep_view() =~= prev.push(old_rest@.take(i as int)));
                    assert(split_char(old_rest@, sep) == seq![old_rest@.take(i as int)]
                        + split_char(old_rest@.skip(i as int + 1), sep));
                    assert(r.deep_view() + split_char(rest@, sep) =~= prev + split_char(
                        old_rest@,
                        sep,
                    ));
                }
            },
            None => {
                r.push(String::from_str(rest));
                fin = true;
                proof {
                    assert(split_char(rest@, sep) == seq![rest@]);
                    assert(r.deep_view() =~= prev + split_char(rest@, sep));
                }
            },
        }
    }
    r
}

/// Index of the first whitespace character in `s`, if any.
pub open spec fn find_space(s: Seq<char>) -> Option<int>
    decreases s.len(),
{
    if s.len() == 0 {
        None
    } else if is_space(s[0]) {
        Some(0)
    } else {
        match find_space(s.drop_first()) {
            Some(i) => Some(i + 1),
            None => None,
        }
    }
}

/// `find_space` returns the position of the first whitespace character:
/// that position holds whitespace, everything before it does not, and
/// `None` means there is none.
pub proof fn lemma_find_space_props(s: Seq<char>)
    ensures
        match find_space(s) {
            Some(i) => 0 <= i < s.len() && is_space(s[i]) && (forall|j: int|
                0 <= j < i ==> !is_space(s[j])),
            None => forall|j: int| 0 <= j < s.len() ==> !is_space(s[j]),
        },
    decreases s.len(),
{
    if s.len() > 0 && !is_space(s[0]) {
        lemma_find_space_props(s.drop_first());
        assert(forall|j: int| 1 <= j < s.len() ==> s[j] == s.drop_first()[j - 1]);
    }
}

/// A whitespace position with none before it is what `find_space` returns.
pub proof fn lemma_find_space_at(s: Seq<char>, i: int)
    requires
        0 <= i < s.len(),
        is_space(s[i]),
        forall|j: int| 0 <= j < i ==> !is_space(s[j]),
    ensures
        find_space(s) == Some(i),
    decreases s.len(),
{
    if i > 0 {
        lemma_find_space_at(s.drop_first(), i - 1);
    }
}

/// When no character of `s` is whitespace, `find_space` returns `None`.
pub proof fn lemma_find_space_none(s: Seq<char>)
    requires
        forall|j: int| 0 <= j < s.len() ==> !is_space(s[j]),
    ensures
        find_space(s) is None,
    decreases s.len(),
{
    if s.len() > 0 {
        lemma_find_space_none(s.drop_first());
    }
}

/// Position of the first whitespace character in `s`.
pub fn find_space_in(s: &str) -> (r: Option<usize>)
    ensures
        match r {
            Some(i) => find_space(s@) == Some(i as int),
            None => find_space(s@) is None,
        },
{
    let n: usize = s.unicode_len();
    let mut i: usize = 0;
    while i < n
        invariant
            n == s@.len(),
            0 <= i <= n,
            forall|j: int| 0 <= j < i ==> !is_space(s@[j]),
        decreases n - i,
    {
        if is_space_char(s.get_char(i)) {
            proof {
                lemma_find_space_at(s@, i as int);
            }
            return Some(i);
        }
        i += 1;
    }
    proof {
        lemma_find_space_none(s@);
    }
    None
}

/// The pieces of `s` delimited by whitespace characters, in order,
/// delimiters removed. Empty pieces are kept, so the result always has at
/// least one element.
pub open spec fn split_spaces(s: Seq<char>) -> Seq<Seq<char>>
    decreases s.len(),
    via split_spaces_decreases
{
    match find_space(s) {
        Some(i) => seq![s.take(i)] + split_spaces(s.skip(i + 1)),
        None => seq![s],
    }
}

#[via_fn]
proof fn split_spaces_decreases(s: Seq<char>) {
    lemma_find_space_props(s);
}

/// Splits `s` at every whitespace character, keeping empty pieces.
pub fn split_spaces_all(s: &str) -> (r: Vec<String>)
    ensures
        r.deep_view() == split_spaces(s@),
{
    let mut r: Vec<String> = Vec::new();
    let mut rest: &str = s;
    let mut fin: bool = false;
    proof {
        assert(r.deep_view() + split_spaces(rest@) =~= split_spaces(s@));
    }
    while !fin
        invariant
            !fin ==> split_spaces(s@) == r.deep_view() + split_spaces(rest@),
            fin ==> r.deep_view() == split_spaces(s@),
        decreases rest@.len() + (if fin { 0int } else { 1int }),
    {
        let ghost prev = r.deep_view();
        match find_space_in(rest) {
            Some(i) => {
                proof {
                    lemma_find_space_props(rest@);
                }
                let piece = rest.substring_char(0, i);
                let m: usize = rest.unicode_len();
                r.push(String::from_str(piece));
                let old_rest: &str = rest;
                rest = rest.substring_char(i + 1, m);
                proof {
                    assert(piece@ =~= old_rest@.take(i as int));
                    assert(r.deep_view() =~= prev.push(old_rest@.take(i as int)));
                    assert(split_spaces(old_rest@) == seq![old_rest@.take(i as int)]
                        + split_spaces(old_rest@.skip(i as int + 1)));
                    assert(r.deep_view() + split_spaces(rest@) =~= prev + split_spaces(old_rest@));
                }
            },
            None => {
                r.push(String::from_str(rest));
                fin = true;
                proof {
                    assert(split_spaces(rest@) == seq![rest@]);
                    assert(r.deep_view() =~= prev + split_spaces(rest@));
                }
            },
        }
    }
    r
}

/// Keeps only the non-empty pieces, in order.
pub open spec fn keep_nonempty(ts: Seq<Seq<char>>) -> Seq<Seq<char>> {
    ts.filter(|t: Seq<char>| t.len() > 0)
}

/// Trims every piece.
pub open spec fn trim_all(ts: Seq<Seq<char>>) -> Seq<Seq<char>> {
    ts.map_values(|t: Seq<char>| spec_trim(t))
}

/// The whitespace-delimited tokens of `s`: split on every whitespace
/// character, empty pieces dropped.
pub open spec fn space_tokens(s: Seq<char>) -> Seq<Seq<char>> {
    keep_nonempty(split_spaces(s))
}

/// The comma-delimited segments of `s`: split on commas, each piece trimmed,
/// empty pieces dropped.
pub open spec fn comma_segments(s: Seq<char>) -> Seq<Seq<char>> {
    keep_nonempty(trim_all(split_char(s, ',')))
}

/// Splits `s` on whitespace and drops empty tokens.
pub fn space_tokens_str(s: &str) -> (r: Vec<String>)
    ensures
        r.deep_view() == space_tokens(s@),
{
    let all = split_spaces_all(s);
    let mut r: Vec<String> = Vec::new();
    let mut i: usize = 0;
    proof {
        reveal(Seq::filter);
        assert(all.deep_view().take(0) =~= Seq::<Seq<char>>::empty());
        assert(r.deep_view() =~= keep_nonempty(all.deep_view().take(0)));
    }
    while i < all.len()
        invariant
            i <= all.len(),
            all.deep_view() == split_spaces(s@),
            r.deep_view() == keep_nonempty(all.deep_view().take(i as int)),
        decreases all.len() - i,
    {
        let ghost pre = all.deep_view().take(i as int);
        let ghost cur = all.deep_view().take(i as int + 1);
        let ghost before = r.deep_view();
        let keep = !all[i].as_str().is_empty();
        if keep {
            let piece = all[i].clone();
            r.push(piece);
        }
        proof {
            reveal(Seq::filter);
            assert(cur.drop_last() =~= pre);
            assert(cur.last() == all.deep_view()[i as int]);
            if keep {
                assert(r.deep_view() =~= before.push(all.deep_view()[i as int]));
            }
        }
        i += 1;
    }
    proof {
        assert(all.deep_view().take(all.len() as int) =~= all.deep_view());
    }
    r
}

/// Splits `s` on commas, trims each piece, and drops empty pieces.
pub fn comma_segments_str(s: &str) -> (r: Vec<String>)
    ensures
        r.deep_view() == comma_segments(s@),
{
    let all = split_all(s, ',');
    let mut r: Vec<String> = Vec::new();
    let mut i: usize = 0;
    proof {
        reveal(Seq::filter);
        assert(trim_all(all.deep_view().take(0)) =~= Seq::<Seq<char>>::empty());
        assert(r.deep_view() =~= keep_nonempty(trim_all(all.deep_view().take(0))));
    }
    while i < all.len()
        invariant
            i <= all.len(),
            all.deep_view() == split_char(s@, ','),
            r.deep_view() == keep_nonempty(trim_all(all.deep_view().take(i as int))),
        decreases all.len() - i,
    {
        let ghost pre = trim_all(all.deep_view().take(i as int));
        let ghost cur = trim_all(all.deep_view().take(i as int + 1));
        let ghost before = r.deep_view();
        let t = trim_str(all[i].as_str());
        let keep = !t.is_empty();
        if keep {
            r.push(String::from_str(t));
        }
        proof {
            reveal(Seq::filter);
            assert(cur =~= pre.push(spec_trim(all.deep_view()[i as int])));
            assert(cur.drop_last() =~= pre);
            if keep {
                assert(r.deep_view() =~= before.push(spec_trim(all.deep_view()[i as int])));
            }
        }
        i += 1;
    }
    proof {
        assert(all.deep_view().take(all.len() as int) =~= all.deep_view());
    }
    r
}

/// Whether the characters of `v` spell exactly the string `s`.
pub fn chars_eq_str(v: &Vec<char>, s: &str) -> (r: bool)
    ensures
        r == (v@ == s@),
{
    let n: usize = s.unicode_len();
    if v.len() != n {
        return false;
    }
    let mut i: usize = 0;
    while i < n
        invariant
            n == s@.len(),
            v@.len() == n,
            0 <= i <= n,
            forall|j: int| 0 <= j < i ==> v@[j] == s@[j],
        decreases n - i,
    {
        if v[i] != s.get_char(i) {
            return false;
        }
        i += 1;
    }
    proof {
        assert(v@ =~= s@);
    }
    true
}

/// Whether two strings hold the same characters.
pub fn str_eq_str(a: &str, b: &str) -> (r: bool)
    ensures
        r == (a@ == b@),
{
    let n: usize = a.unicode_len();
    if b.unicode_len() != n {
        return false;
    }
    let mut i: usize = 0;
    while i < n
        invariant
            n == a@.len(),
            b@.len() == n,
            0 <= i <= n,
            forall|j: int| 0 <= j < i ==> a@[j] == b@[j],
        decreases n - i,
    {
        if a.get_char(i) != b.get_char(i) {
            return false;
        }
        i += 1;
    }
    proof {
        assert(a@ =~= b@);
    }
    true
}

} // verus!

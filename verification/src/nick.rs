//! The nickname extractor: finds parenthetical spans, removes them from the
//! name, and collects their contents in order of appearance.

use vstd::prelude::*;
use vstd::string::StrSliceExecFns;
use vstd::string::StringExecFns;
use crate::text::{
    find_char, lemma_find_char_props, spec_trim_start, spec_trim_end, lemma_trim_len,
    find_char_in, trim_start_str, trim_end_str,
};

verus! {

/// Positions of the first `open` character and of the first `close`
/// character after it, when both exist.
pub open spec fn find_span(s: Seq<char>, open: char, close: char) -> Option<(int, int)> {
    match find_char(s, open) {
        Some(o) => match find_char(s.skip(o + 1), close) {
            Some(d) => Some((o, o + 1 + d)),
            None => None,
        },
        None => None,
    }
}

/// A found span lies inside the sequence, with the opening position
/// strictly before the closing one.
pub proof fn lemma_find_span_bounds(s: Seq<char>, open: char, close: char)
    ensures
        match find_span(s, open, close) {
            Some(p) => 0 <= p.0 < p.1 < s.len(),
            None => true,
        },
{
    lemma_find_char_props(s, open);
    match find_char(s, open) {
        Some(o) => {
            lemma_find_char_props(s.skip(o + 1), close);
        },
        None => {},
    }
}

/// The name with the span `o..=c` removed: the text before the opening
/// character, right-trimmed, then one space, then the text after the
/// closing character, left-trimmed.
pub open spec fn splice_out(s: Seq<char>, o: int, c: int) -> Seq<char> {
    spec_trim_end(s.take(o)) + seq![' '] + spec_trim_start(s.skip(c + 1))
}

/// Removing a span makes the sequence strictly shorter.
pub proof fn lemma_splice_len(s: Seq<char>, o: int, c: int)
    requires
        0 <= o < c < s.len(),
    ensures
        splice_out(s, o, c).len() < s.len(),
{
    lemma_trim_len(s.take(o));
    lemma_trim_len(s.skip(c + 1));
}

/// The name with every parenthetical span removed, paired with the list of
/// span contents in left-to-right order of appearance.
pub open spec fn extract_spec(s: Seq<char>) -> (Seq<char>, Seq<Seq<char>>)
    decreases s.len(),
    via extract_spec_decreases
{
    match find_span(s, '(', ')') {
        Some(p) => {
            let rest = extract_spec(splice_out(s, p.0, p.1));
            (rest.0, seq![s.subrange(p.0 + 1, p.1)] + rest.1)
        },
        None => (s, Seq::<Seq<char>>::empty()),
    }
}

#[via_fn]
proof fn extract_spec_decreases(s: Seq<char>) {
    lemma_find_span_bounds(s, '(', ')');
    match find_span(s, '(', ')') {
        Some(p) => {
            lemma_splice_len(s, p.0, p.1);
        },
        None => {},
    }
}

/// Finds the positions of the first `open` and of the first `close` after
/// it, if both occur in `haystack` in that order. The positions are
/// character indices into `haystack`, not byte offsets; the two coincide
/// on ASCII input.
pub fn find_nickname_start_end(haystack: &str, open: char, close: char) -> (r: Option<
    (usize, usize),
>)
    ensures
        match r {
            Some(p) => find_span(haystack@, open, close) == Some((p.0 as int, p.1 as int)),
            None => find_span(haystack@, open, close) is None,
        },
{
    match find_char_in(haystack, open) {
        Some(opos) => {
            proof {
                lemma_find_char_props(haystack@, open);
            }
            let n: usize = haystack.unicode_len();
            let after = haystack.substring_char(opos + 1, n);
            proof {
                assert(after@ =~= haystack@.skip(opos + 1));
                lemma_find_char_props(after@, close);
            }
            match find_char_in(after, close) {
                Some(d) => Some((opos, opos + 1 + d)),
                None => None,
            }
        },
        None => None,
    }
}

/// Extracts every parenthetical nickname from `full_name`, returning the
/// name without them and the nicknames in order of appearance.
pub fn extract_nicknames(full_name: &str) -> (r: (String, Vec<String>))
    ensures
        r.0@ == extract_spec(full_name@).0,
        r.1.deep_view() == extract_spec(full_name@).1,
{
    let mut nicks: Vec<String> = Vec::new();
    let mut name: String = String::from_str(full_name);
    let mut fin: bool = false;
    proof {
        assert(nicks.deep_view() + extract_spec(name@).1 =~= extract_spec(full_name@).1);
    }
    while !fin
        invariant
            !fin ==> extract_spec(full_name@).0 == extract_spec(name@).0 && extract_spec(
                full_name@,
            ).1 == nicks.deep_view() + extract_spec(name@).1,
            fin ==> extract_spec(full_name@).0 == name@ && extract_spec(full_name@).1
                == nicks.deep_view(),
        decreases name@.len() + (if fin { 0int } else { 1int }),
    {
        match find_nickname_start_end(name.as_str(), '(', ')') {
            Some(pair) => {
                let (opos, cpos) = pair;
                proof {
                    lemma_find_span_bounds(name@, '(', ')');
                    lemma_splice_len(name@, opos as int, cpos as int);
                }
                let ghost old_name = name@;
                let ghost before = nicks.deep_view();
                let n: usize = name.as_str().unicode_len();
                let nick = name.as_str().substring_char(opos + 1, cpos);
                nicks.push(String::from_str(nick));
                let pre = trim_end_str(name.as_str().substring_char(0, opos));
                let post = trim_start_str(name.as_str().substring_char(cpos + 1, n));
                let mut next: String = String::from_str(pre);
                next.append(" ");
                next.append(post);
                proof {
                    reveal_strlit(" ");
                    assert(" "@ =~= seq![' ']);
                    assert(old_name.subrange(0, opos as int) =~= old_name.take(opos as int));
                    assert(old_name.subrange(cpos + 1, n as int) =~= old_name.skip(cpos + 1));
                }
                name = next;
                proof {
                    assert(name@ =~= splice_out(old_name, opos as int, cpos as int));
                    let rest = extract_spec(splice_out(old_name, opos as int, cpos as int));
                    assert(extract_spec(old_name).0 == rest.0);
                    assert(extract_spec(old_name).1 == seq![
                        old_name.subrange(opos + 1, cpos as int),
                    ] + rest.1);
                    assert(nicks.deep_view() =~= before.push(
                        old_name.subrange(opos + 1, cpos as int),
                    ));
                    assert(before + extract_spec(old_name).1 =~= nicks.deep_view() + rest.1);
                }
            },
            None => {
                fin = true;
                proof {
                    assert(extract_spec(name@).0 == name@);
                    assert(nicks.deep_view() + extract_spec(name@).1 =~= nicks.deep_view());
                }
            },
        }
    }
    (name, nicks)
}

/// Law: parenthetical extraction is idempotent on its own output. The name
/// portion it returns holds no remaining parenthetical span, and running
/// the extractor on that portion returns it unchanged, with no nicknames.
pub proof fn lemma_extract_idempotent(s: Seq<char>)
    ensures
        extract_spec(extract_spec(s).0).0 == extract_spec(s).0,
        extract_spec(extract_spec(s).0).1 == Seq::<Seq<char>>::empty(),
    decreases s.len(),
{
    match find_span(s, '(', ')') {
        Some(p) => {
            lemma_find_span_bounds(s, '(', ')');
            lemma_splice_len(s, p.0, p.1);
            lemma_extract_idempotent(splice_out(s, p.0, p.1));
        },
        None => {},
    }
}

} // verus!

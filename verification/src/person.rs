//! The result record and the parsing pipeline: comma segmentation,
//! conjunction joining, positional field assignment, and the final
//! correction step.

use vstd::prelude::*;
use vstd::string::StrSliceExecFns;
use vstd::string::StringExecFns;
use crate::classify::{
    is_title_seq, is_prefix_seq, is_suffix_seq, is_conj_seq, is_title, is_prefix, is_suffix,
    is_conjunction,
};
use crate::nick::{extract_spec, extract_nicknames};
use crate::text::{space_tokens, comma_segments, split_spaces, space_tokens_str,
    comma_segments_str, split_spaces_all};

verus! {

/// A parsed name, field by field. A field that received nothing is the
/// empty string; a field that received several tokens is single-space
/// joined. Nicknames appear in their order of appearance in the input.
#[derive(Debug, PartialEq)]
pub struct PersonName {
    pub title: String,
    pub first: String,
    pub middle: String,
    pub last: String,
    pub suffix: String,
    pub nicknames: Vec<String>,
}

/// The mathematical model of a parsed name: each field as a character
/// sequence, and the nicknames as a sequence of character sequences.
#[verifier::ext_equal]
pub struct NameView {
    pub title: Seq<char>,
    pub first: Seq<char>,
    pub middle: Seq<char>,
    pub last: Seq<char>,
    pub suffix: Seq<char>,
    pub nicknames: Seq<Seq<char>>,
}

impl View for PersonName {
    type V = NameView;

    open spec fn view(&self) -> NameView {
        NameView {
            title: self.title@,
            first: self.first@,
            middle: self.middle@,
            last: self.last@,
            suffix: self.suffix@,
            nicknames: self.nicknames.deep_view(),
        }
    }
}

/// The record with every field empty and the given nicknames.
pub open spec fn empty_view(nicks: Seq<Seq<char>>) -> NameView {
    NameView {
        title: Seq::<char>::empty(),
        first: Seq::<char>::empty(),
        middle: Seq::<char>::empty(),
        last: Seq::<char>::empty(),
        suffix: Seq::<char>::empty(),
        nicknames: nicks,
    }
}

/// Appending a word to a field: a single joining space when the field
/// already has content.
pub open spec fn append_word(field: Seq<char>, w: Seq<char>) -> Seq<char> {
    if field.len() > 0 {
        field + seq![' '] + w
    } else {
        w
    }
}

/// Appending each word of `ws` to `field` in order.
pub open spec fn append_words(field: Seq<char>, ws: Seq<Seq<char>>) -> Seq<char>
    decreases ws.len(),
{
    if ws.len() == 0 {
        field
    } else {
        append_words(append_word(field, ws[0]), ws.drop_first())
    }
}

/// Every token of `ts` classifies as a suffix. Vacuously true of an empty
/// sequence.
pub open spec fn all_suffixes(ts: Seq<Seq<char>>) -> bool {
    forall|j: int| 0 <= j < ts.len() ==> is_suffix_seq(#[trigger] ts[j])
}

/// Index of the first interior conjunction token at or after `i`: one with
/// at least one token before it and one after it.
pub open spec fn find_conj(parts: Seq<Seq<char>>, i: int) -> Option<int>
    decreases parts.len() - i,
{
    if i >= parts.len() - 1 {
        None
    } else if is_conj_seq(parts[i]) {
        Some(i)
    } else {
        find_conj(parts, i + 1)
    }
}

/// `find_conj` finds the first conjunction in the interior range, or
/// reports that there is none.
pub proof fn lemma_find_conj_props(parts: Seq<Seq<char>>, i: int)
    ensures
        match find_conj(parts, i) {
            Some(k) => i <= k < parts.len() - 1 && is_conj_seq(parts[k]) && (forall|j: int|
                i <= j < k ==> !is_conj_seq(#[trigger] parts[j])),
            None => forall|j: int| i <= j < parts.len() - 1 ==> !is_conj_seq(#[trigger] parts[j]),
        },
    decreases parts.len() - i,
{
    if i < parts.len() - 1 && !is_conj_seq(parts[i]) {
        lemma_find_conj_props(parts, i + 1);
    }
}

/// The three tokens around the conjunction at `i`, space-joined.
pub open spec fn joined3(parts: Seq<Seq<char>>, i: int) -> Seq<char> {
    parts[i - 1] + seq![' '] + parts[i] + seq![' '] + parts[i + 1]
}

/// The token list after merging the three tokens around position `i` into
/// one compound token.
pub open spec fn join_step(parts: Seq<Seq<char>>, i: int) -> Seq<Seq<char>> {
    parts.take(i - 1) + seq![joined3(parts, i)] + parts.skip(i + 2)
}

/// Repeatedly merges the first interior conjunction with its neighbors
/// until none remains. When the token before a merged conjunction is a
/// title, the compound token is also appended to the title accumulator.
pub open spec fn join_conj(parts: Seq<Seq<char>>, title: Seq<char>) -> (Seq<Seq<char>>, Seq<char>)
    decreases parts.len(),
    via join_conj_decreases
{
    match find_conj(parts, 1) {
        Some(i) => {
            let t2 = if is_title_seq(parts[i - 1]) {
                append_word(title, joined3(parts, i))
            } else {
                title
            };
            join_conj(join_step(parts, i), t2)
        },
        None => (parts, title),
    }
}

#[via_fn]
proof fn join_conj_decreases(parts: Seq<Seq<char>>, title: Seq<char>) {
    lemma_find_conj_props(parts, 1);
}

/// One-segment assignment: walks the tokens with the priority order
/// title / first / trailing-suffix run / surname prefix / middle, a title
/// after the given name began going to the surname instead.
pub open spec fn scan_one(ps: Seq<Seq<char>>, i: int, v: NameView) -> NameView
    decreases ps.len() - i,
{
    if i < 0 || i >= ps.len() {
        v
    } else {
        let c = ps[i];
        let rest = ps.skip(i + 1);
        if is_title_seq(c) {
            let v2 = if v.first.len() > 0 || v.middle.len() > 0 {
                NameView { last: append_word(v.last, c), ..v }
            } else {
                NameView { title: append_word(v.title, c), ..v }
            };
            scan_one(ps, i + 1, v2)
        } else if v.first.len() == 0 {
            scan_one(ps, i + 1, NameView { first: append_word(v.first, c), ..v })
        } else if all_suffixes(rest) {
            NameView { last: append_word(v.last, c), suffix: append_words(v.suffix, rest), ..v }
        } else if is_prefix_seq(c) {
            scan_one(ps, i + 1, NameView { last: append_word(v.last, c), ..v })
        } else {
            scan_one(ps, i + 1, NameView { middle: append_word(v.middle, c), ..v })
        }
    }
}

/// Assignment for the leading segment of the comma+suffix form: as the
/// one-segment walk, except that a title is always kept as a title.
pub open spec fn scan_two(ps: Seq<Seq<char>>, i: int, v: NameView) -> NameView
    decreases ps.len() - i,
{
    if i < 0 || i >= ps.len() {
        v
    } else {
        let c = ps[i];
        let rest = ps.skip(i + 1);
        if is_title_seq(c) {
            scan_two(ps, i + 1, NameView { title: append_word(v.title, c), ..v })
        } else if v.first.len() == 0 {
            scan_two(ps, i + 1, NameView { first: append_word(v.first, c), ..v })
        } else if all_suffixes(rest) {
            NameView { last: append_word(v.last, c), suffix: append_words(v.suffix, rest), ..v }
        } else if is_prefix_seq(c) {
            scan_two(ps, i + 1, NameView { last: append_word(v.last, c), ..v })
        } else {
            scan_two(ps, i + 1, NameView { middle: append_word(v.middle, c), ..v })
        }
    }
}

/// Assignment for the second segment of the surname-first form: token by
/// token, with no lookahead — title, then first, then suffixes, everything
/// else a middle name.
pub open spec fn scan_rest(ps: Seq<Seq<char>>, i: int, v: NameView) -> NameView
    decreases ps.len() - i,
{
    if i < 0 || i >= ps.len() {
        v
    } else {
        let c = ps[i];
        let v2 = if is_title_seq(c) {
            NameView { title: append_word(v.title, c), ..v }
        } else if v.first.len() == 0 {
            NameView { first: append_word(v.first, c), ..v }
        } else if is_suffix_seq(c) {
            NameView { suffix: append_word(v.suffix, c), ..v }
        } else {
            NameView { middle: append_word(v.middle, c), ..v }
        };
        scan_rest(ps, i + 1, v2)
    }
}

/// Assignment of the surname segment of the surname-first form: a piece
/// that classifies as a suffix extends the suffix once the surname has
/// begun; every other piece extends the surname.
pub open spec fn assign_last(ps: Seq<Seq<char>>, i: int, v: NameView) -> NameView
    decreases ps.len() - i,
{
    if i < 0 || i >= ps.len() {
        v
    } else {
        let p = ps[i];
        let v2 = if is_suffix_seq(p) && v.last.len() > 0 {
            NameView { suffix: append_word(v.suffix, p), ..v }
        } else {
            NameView { last: append_word(v.last, p), ..v }
        };
        assign_last(ps, i + 1, v2)
    }
}

/// Appends the segments from index `i` on verbatim to the suffix field.
pub open spec fn append_segments(segs: Seq<Seq<char>>, i: int, v: NameView) -> NameView
    decreases segs.len() - i,
{
    if i < 0 || i >= segs.len() {
        v
    } else {
        append_segments(segs, i + 1, NameView { suffix: append_word(v.suffix, segs[i]), ..v })
    }
}

/// The correction step: a title with a first name but no surname moves the
/// first name into the surname field.
pub open spec fn postprocess(v: NameView) -> NameView {
    if v.title.len() > 0 && v.first.len() > 0 && v.last.len() == 0 {
        NameView { first: Seq::<char>::empty(), last: v.first, ..v }
    } else {
        v
    }
}

/// The whole parse, as a function of the input characters: nickname
/// extraction, comma segmentation, and the assignment form chosen by the
/// segment count, followed by the correction step. `None` exactly when
/// nothing remains after nickname extraction and no nickname was found.
pub open spec fn spec_parse(s: Seq<char>) -> Option<NameView> {
    let ex = extract_spec(s);
    let segs = comma_segments(ex.0);
    if segs.len() == 0 {
        if ex.1.len() > 0 {
            Some(empty_view(ex.1))
        } else {
            None
        }
    } else if segs.len() == 1 {
        let j = join_conj(space_tokens(segs[0]), Seq::<char>::empty());
        let v1 = NameView { title: j.1, ..empty_view(ex.1) };
        let v2 = if j.0.len() == 1 && is_title_seq(j.0[0]) {
            NameView { title: append_word(v1.title, j.0[0]), ..v1 }
        } else {
            scan_one(j.0, 0, v1)
        };
        Some(postprocess(v2))
    } else if all_suffixes(split_spaces(segs[1])) {
        let v0 = NameView { suffix: segs[1], ..empty_view(ex.1) };
        let j = join_conj(space_tokens(segs[0]), Seq::<char>::empty());
        let v1 = NameView { title: j.1, ..v0 };
        let v2 = if j.0.len() == 1 && is_title_seq(j.0[0]) {
            NameView { title: append_word(v1.title, j.0[0]), ..v1 }
        } else {
            scan_two(j.0, 0, v1)
        };
        Some(postprocess(v2))
    } else {
        let j1 = join_conj(space_tokens(segs[0]), Seq::<char>::empty());
        let v1 = assign_last(j1.0, 0, NameView { title: j1.1, ..empty_view(ex.1) });
        let j2 = join_conj(space_tokens(segs[1]), v1.title);
        let v2a = NameView { title: j2.1, ..v1 };
        let v2 = if j2.0.len() == 1 && is_title_seq(j2.0[0]) {
            NameView { first: append_word(v2a.first, j2.0[0]), ..v2a }
        } else {
            scan_rest(j2.0, 0, v2a)
        };
        Some(postprocess(append_segments(segs, 2, v2)))
    }
}

/// Appends `w` to `field`, inserting a joining space when `field` already
/// has content.
pub fn append_part(field: &mut String, w: &str)
    ensures
        final(field)@ == append_word(old(field)@, w@),
{
    let ghost before = field@;
    if !field.as_str().is_empty() {
        field.append(" ");
        proof {
            reveal_strlit(" ");
            assert(" "@ =~= seq![' ']);
        }
    }
    field.append(w);
    proof {
        if before.len() == 0 {
            assert(field@ =~= w@);
        }
    }
}

/// Copies a vector of strings, keeping its contents.
fn clone_vec_strings(v: &Vec<String>) -> (r: Vec<String>)
    ensures
        r.deep_view() == v.deep_view(),
        r@.len() == v@.len(),
{
    let ghost dv = v.deep_view();
    let mut r: Vec<String> = Vec::new();
    let mut i: usize = 0;
    proof {
        assert(r.deep_view() =~= dv.take(0));
    }
    while i < v.len()
        invariant
            0 <= i <= v.len(),
            dv == v.deep_view(),
            r@.len() == i,
            r.deep_view() == dv.take(i as int),
        decreases v.len() - i,
    {
        let ghost before = r.deep_view();
        r.push(v[i].clone());
        proof {
            assert(v@[i as int]@ == dv[i as int]);
            assert(r.deep_view() =~= before.push(dv[i as int]));
            assert(r.deep_view() =~= dv.take(i as int + 1));
        }
        i += 1;
    }
    proof {
        assert(dv.take(v.len() as int) =~= dv);
    }
    r
}

/// Whether every token of `pieces` from index `from` on is a suffix.
fn all_suffix_from(pieces: &Vec<String>, from: usize) -> (r: bool)
    requires
        from <= pieces@.len(),
    ensures
        r == all_suffixes(pieces.deep_view().skip(from as int)),
{
    let ghost dv = pieces.deep_view();
    let mut k: usize = from;
    while k < pieces.len()
        invariant
            from <= k <= pieces.len(),
            dv == pieces.deep_view(),
            forall|j: int| from <= j < k ==> is_suffix_seq(#[trigger] dv[j]),
        decreases pieces.len() - k,
    {
        let keep = is_suffix(pieces[k].as_str());
        proof {
            assert(dv[k as int] == pieces@[k as int]@);
        }
        if !keep {
            proof {
                assert(dv.skip(from as int)[k as int - from] == dv[k as int]);
            }
            return false;
        }
        k += 1;
    }
    proof {
        assert forall|j: int| 0 <= j < dv.skip(from as int).len() implies is_suffix_seq(
            #[trigger] dv.skip(from as int)[j],
        ) by {
            assert(dv.skip(from as int)[j] == dv[j + from]);
        }
    }
    true
}

/// Runs the one-segment assignment walk over `pieces`, updating `person`.
fn run_scan_one(pieces: &Vec<String>, person: &mut PersonName)
    ensures
        final(person)@ == scan_one(pieces.deep_view(), 0, old(person)@),
{
    let ghost dv = pieces.deep_view();
    let n = pieces.len();
    let mut i: usize = 0;
    let mut fin: bool = false;
    while !fin && i < n
        invariant
            n == pieces.len(),
            dv == pieces.deep_view(),
            0 <= i <= n,
            !fin ==> scan_one(dv, i as int, person@) == scan_one(dv, 0, old(person)@),
            fin ==> person@ == scan_one(dv, 0, old(person)@),
        decreases n - i + (if fin { 0int } else { 1int }),
    {
        let ghost pre = person@;
        proof {
            assert(dv[i as int] == pieces@[i as int]@);
        }
        if is_title(pieces[i].as_str()) {
            if !person.first.as_str().is_empty() || !person.middle.as_str().is_empty() {
                append_part(&mut person.last, pieces[i].as_str());
                proof {
                    assert(person@ =~= (NameView { last: append_word(pre.last, dv[i as int]), ..pre }));
                }
            } else {
                append_part(&mut person.title, pieces[i].as_str());
                proof {
                    assert(person@ =~= (NameView { title: append_word(pre.title, dv[i as int]), ..pre }));
                }
            }
            proof {
                assert(scan_one(dv, i as int, pre) == scan_one(dv, i as int + 1, person@));
            }
            i += 1;
        } else if person.first.as_str().is_empty() {
            append_part(&mut person.first, pieces[i].as_str());
            proof {
                assert(person@ =~= (NameView { first: append_word(pre.first, dv[i as int]), ..pre }));
                assert(scan_one(dv, i as int, pre) == scan_one(dv, i as int + 1, person@));
            }
            i += 1;
        } else if all_suffix_from(pieces, i + 1) {
            append_part(&mut person.last, pieces[i].as_str());
            let ghost mid = person@;
            proof {
                assert(mid =~= (NameView { last: append_word(pre.last, dv[i as int]), ..pre }));
            }
            let mut k: usize = i + 1;
            while k < n
                invariant
                    n == pieces.len(),
                    dv == pieces.deep_view(),
                    i as int + 1 <= k as int <= n,
                    person@ == (NameView { suffix: person@.suffix, ..mid }),
                    append_words(person@.suffix, dv.skip(k as int)) == append_words(
                        mid.suffix,
                        dv.skip(i as int + 1),
                    ),
                decreases n - k,
            {
                let ghost sfx = person@.suffix;
                proof {
                    assert(dv[k as int] == pieces@[k as int]@);
                }
                append_part(&mut person.suffix, pieces[k].as_str());
                proof {
                    assert(dv.skip(k as int)[0] == dv[k as int]);
                    assert(dv.skip(k as int).drop_first() =~= dv.skip(k as int + 1));
                    assert(append_words(sfx, dv.skip(k as int)) == append_words(
                        append_word(sfx, dv[k as int]),
                        dv.skip(k as int + 1),
                    ));
                    assert(person@ =~= (NameView { suffix: person@.suffix, ..mid }));
                }
                k += 1;
            }
            proof {
                assert(dv.skip(n as int) =~= Seq::<Seq<char>>::empty());
                assert(append_words(person@.suffix, dv.skip(n as int)) == person@.suffix);
                assert(person@ =~= (NameView {
                    last: append_word(pre.last, dv[i as int]),
                    suffix: append_words(pre.suffix, dv.skip(i as int + 1)),
                    ..pre
                }));
                assert(scan_one(dv, i as int, pre) == person@);
            }
            fin = true;
        } else if is_prefix(pieces[i].as_str()) {
            append_part(&mut person.last, pieces[i].as_str());
            proof {
                assert(person@ =~= (NameView { last: append_word(pre.last, dv[i as int]), ..pre }));
                assert(scan_one(dv, i as int, pre) == scan_one(dv, i as int + 1, person@));
            }
            i += 1;
        } else {
            append_part(&mut person.middle, pieces[i].as_str());
            proof {
                assert(person@ =~= (NameView { middle: append_word(pre.middle, dv[i as int]), ..pre }));
                assert(scan_one(dv, i as int, pre) == scan_one(dv, i as int + 1, person@));
            }
            i += 1;
        }
    }
    proof {
        if !fin {
            assert(scan_one(dv, i as int, person@) == person@);
        }
    }
}

/// Runs the assignment walk for the leading segment of the comma+suffix
/// form, updating `person`.
fn run_scan_two(pieces: &Vec<String>, person: &mut PersonName)
    ensures
        final(person)@ == scan_two(pieces.deep_view(), 0, old(person)@),
{
    let ghost dv = pieces.deep_view();
    let n = pieces.len();
    let mut i: usize = 0;
    let mut fin: bool = false;
    while !fin && i < n
        invariant
            n == pieces.len(),
            dv == pieces.deep_view(),
            0 <= i <= n,
            !fin ==> scan_two(dv, i as int, person@) == scan_two(dv, 0, old(person)@),
            fin ==> person@ == scan_two(dv, 0, old(person)@),
        decreases n - i + (if fin { 0int } else { 1int }),
    {
        let ghost pre = person@;
        proof {
            assert(dv[i as int] == pieces@[i as int]@);
        }
        if is_title(pieces[i].as_str()) {
            append_part(&mut person.title, pieces[i].as_str());
            proof {
                assert(person@ =~= (NameView { title: append_word(pre.title, dv[i as int]), ..pre }));
                assert(scan_two(dv, i as int, pre) == scan_two(dv, i as int + 1, person@));
            }
            i += 1;
        } else if person.first.as_str().is_empty() {
            append_part(&mut person.first, pieces[i].as_str());
            proof {
                assert(person@ =~= (NameView { first: append_word(pre.first, dv[i as int]), ..pre }));
                assert(scan_two(dv, i as int, pre) == scan_two(dv, i as int + 1, person@));
            }
            i += 1;
        } else if all_suffix_from(pieces, i + 1) {
            append_part(&mut person.last, pieces[i].as_str());
            let ghost mid = person@;
            proof {
                assert(mid =~= (NameView { last: append_word(pre.last, dv[i as int]), ..pre }));
            }
            let mut k: usize = i + 1;
            while k < n
                invariant
                    n == pieces.len(),
                    dv == pieces.deep_view(),
                    i as int + 1 <= k as int <= n,
                    person@ == (NameView { suffix: person@.suffix, ..mid }),
                    append_words(person@.suffix, dv.skip(k as int)) == append_words(
                        mid.suffix,
                        dv.skip(i as int + 1),
                    ),
                decreases n - k,
            {
                let ghost sfx = person@.suffix;
                proof {
                    assert(dv[k as int] == pieces@[k as int]@);
                }
                append_part(&mut person.suffix, pieces[k].as_str());
                proof {
                    assert(dv.skip(k as int)[0] == dv[k as int]);
                    assert(dv.skip(k as int).drop_first() =~= dv.skip(k as int + 1));
                    assert(append_words(sfx, dv.skip(k as int)) == append_words(
                        append_word(sfx, dv[k as int]),
                        dv.skip(k as int + 1),
                    ));
                    assert(person@ =~= (NameView { suffix: person@.suffix, ..mid }));
                }
                k += 1;
            }
            proof {
                assert(dv.skip(n as int) =~= Seq::<Seq<char>>::empty());
                assert(append_words(person@.suffix, dv.skip(n as int)) == person@.suffix);
                assert(person@ =~= (NameView {
                    last: append_word(pre.last, dv[i as int]),
                    suffix: append_words(pre.suffix, dv.skip(i as int + 1)),
                    ..pre
                }));
                assert(scan_two(dv, i as int, pre) == person@);
            }
            fin = true;
        } else if is_prefix(pieces[i].as_str()) {
            append_part(&mut person.last, pieces[i].as_str());
            proof {
                assert(person@ =~= (NameView { last: append_word(pre.last, dv[i as int]), ..pre }));
                assert(scan_two(dv, i as int, pre) == scan_two(dv, i as int + 1, person@));
            }
            i += 1;
        } else {
            append_part(&mut person.middle, pieces[i].as_str());
            proof {
                assert(person@ =~= (NameView { middle: append_word(pre.middle, dv[i as int]), ..pre }));
                assert(scan_two(dv, i as int, pre) == scan_two(dv, i as int + 1, person@));
            }
            i += 1;
        }
    }
    proof {
        if !fin {
            assert(scan_two(dv, i as int, person@) == person@);
        }
    }
}

/// Runs the token-by-token walk for the second segment of the
/// surname-first form, updating `person`.
fn run_scan_rest(pieces: &Vec<String>, person: &mut PersonName)
    ensures
        final(person)@ == scan_rest(pieces.deep_view(), 0, old(person)@),
{
    let ghost dv = pieces.deep_view();
    let n = pieces.len();
    let mut i: usize = 0;
    while i < n
        invariant
            n == pieces.len(),
            dv == pieces.deep_view(),
            0 <= i <= n,
            scan_rest(dv, i as int, person@) == scan_rest(dv, 0, old(person)@),
        decreases n - i,
    {
        let ghost pre = person@;
        proof {
            assert(dv[i as int] == pieces@[i as int]@);
        }
        if is_title(pieces[i].as_str()) {
            append_part(&mut person.title, pieces[i].as_str());
            proof {
                assert(person@ =~= (NameView { title: append_word(pre.title, dv[i as int]), ..pre }));
            }
        } else if person.first.as_str().is_empty() {
            append_part(&mut person.first, pieces[i].as_str());
            proof {
                assert(person@ =~= (NameView { first: append_word(pre.first, dv[i as int]), ..pre }));
            }
        } else if is_suffix(pieces[i].as_str()) {
            append_part(&mut person.suffix, pieces[i].as_str());
            proof {
                assert(person@ =~= (NameView { suffix: append_word(pre.suffix, dv[i as int]), ..pre }));
            }
        } else {
            append_part(&mut person.middle, pieces[i].as_str());
            proof {
                assert(person@ =~= (NameView { middle: append_word(pre.middle, dv[i as int]), ..pre }));
            }
        }
        proof {
            assert(scan_rest(dv, i as int, pre) == scan_rest(dv, i as int + 1, person@));
        }
        i += 1;
    }
}

/// Runs the surname-segment walk of the surname-first form, updating
/// `person`.
fn run_assign_last(pieces: &Vec<String>, person: &mut PersonName)
    ensures
        final(person)@ == assign_last(pieces.deep_view(), 0, old(person)@),
{
    let ghost dv = pieces.deep_view();
    let n = pieces.len();
    let mut i: usize = 0;
    while i < n
        invariant
            n == pieces.len(),
            dv == pieces.deep_view(),
            0 <= i <= n,
            assign_last(dv, i as int, person@) == assign_last(dv, 0, old(person)@),
        decreases n - i,
    {
        let ghost pre = person@;
        proof {
            assert(dv[i as int] == pieces@[i as int]@);
        }
        if is_suffix(pieces[i].as_str()) && !person.last.as_str().is_empty() {
            append_part(&mut person.suffix, pieces[i].as_str());
            proof {
                assert(person@ =~= (NameView { suffix: append_word(pre.suffix, dv[i as int]), ..pre }));
            }
        } else {
            append_part(&mut person.last, pieces[i].as_str());
            proof {
                assert(person@ =~= (NameView { last: append_word(pre.last, dv[i as int]), ..pre }));
            }
        }
        proof {
            assert(assign_last(dv, i as int, pre) == assign_last(dv, i as int + 1, person@));
        }
        i += 1;
    }
}

impl PersonName {
    /// Returns a new, empty record: every field the empty string and no
    /// nicknames.
    pub fn new() -> (r: Self)
        ensures
            r@ == empty_view(Seq::<Seq<char>>::empty()),
    {
        let r = PersonName {
            title: String::new(),
            first: String::new(),
            middle: String::new(),
            last: String::new(),
            suffix: String::new(),
            nicknames: Vec::new(),
        };
        proof {
            assert(r@ =~= empty_view(Seq::<Seq<char>>::empty()));
        }
        r
    }

    /// Parses a free-form full name into its structured fields. `None`
    /// exactly when, after nickname extraction, no non-empty comma segment
    /// remains and no nickname was found; every other input yields a
    /// best-effort record, as `spec_parse` states it.
    pub fn parse(full_name: &str) -> (r: Option<PersonName>)
        ensures
            match r {
                Some(p) => spec_parse(full_name@) == Some(p@),
                None => spec_parse(full_name@) is None,
            },
    {
        let mut person = PersonName::new();
        let extracted = extract_nicknames(full_name);
        let name: String = extracted.0;
        person.nicknames = extracted.1;
        let ghost ex = extract_spec(full_name@);
        proof {
            assert(person@ =~= empty_view(ex.1));
            assert(name@ == ex.0);
        }
        let csv_parts = comma_segments_str(name.as_str());
        let ghost segs = comma_segments(ex.0);
        proof {
            assert(csv_parts.deep_view() == segs);
            assert(csv_parts.deep_view().len() == csv_parts@.len());
        }
        if csv_parts.len() == 0 {
            proof {
                assert(person.nicknames.deep_view().len() == person.nicknames@.len());
            }
            if person.nicknames.len() > 0 {
                proof {
                    assert(spec_parse(full_name@) == Some(empty_view(ex.1)));
                }
                return Some(person);
            } else {
                proof {
                    assert(ex.1.len() == 0);
                    assert(spec_parse(full_name@) is None);
                }
                return None;
            }
        }
        if csv_parts.len() == 1 {
            proof {
                assert(segs[0] == csv_parts@[0]@);
                assert(person@.title =~= Seq::<char>::empty());
            }
            let pieces = person.preprocess_input(csv_parts[0].as_str());
            let ghost j = join_conj(space_tokens(segs[0]), Seq::<char>::empty());
            let ghost v1 = NameView { title: j.1, ..empty_view(ex.1) };
            proof {
                assert(pieces.deep_view() == j.0);
                assert(pieces.deep_view().len() == pieces@.len());
                assert(person@ =~= v1);
                if pieces@.len() == 1 {
                    assert(pieces.deep_view()[0] == pieces@[0]@);
                }
            }
            if pieces.len() == 1 && is_title(pieces[0].as_str()) {
                append_part(&mut person.title, pieces[0].as_str());
                proof {
                    assert(person@ =~= (NameView { title: append_word(v1.title, j.0[0]), ..v1 }));
                }
            } else {
                run_scan_one(&pieces, &mut person);
                proof {
                    assert(person@ == scan_one(j.0, 0, v1));
                }
            }
            person.postprocess_first();
            proof {
                assert(spec_parse(full_name@) == Some(person@));
            }
            return Some(person);
        }
        proof {
            assert(segs[1] == csv_parts@[1]@);
        }
        let raw_second = split_spaces_all(csv_parts[1].as_str());
        let two_form = all_suffix_from(&raw_second, 0);
        proof {
            assert(raw_second.deep_view().skip(0) =~= raw_second.deep_view());
            assert(two_form == all_suffixes(split_spaces(segs[1])));
        }
        if two_form {
            append_part(&mut person.suffix, csv_parts[1].as_str());
            let ghost v0 = NameView { suffix: segs[1], ..empty_view(ex.1) };
            proof {
                assert(person@ =~= v0);
                assert(segs[0] == csv_parts@[0]@);
                assert(person@.title =~= Seq::<char>::empty());
            }
            let pieces = person.preprocess_input(csv_parts[0].as_str());
            let ghost j = join_conj(space_tokens(segs[0]), Seq::<char>::empty());
            let ghost v1 = NameView { title: j.1, ..v0 };
            proof {
                assert(pieces.deep_view() == j.0);
                assert(pieces.deep_view().len() == pieces@.len());
                assert(person@ =~= v1);
                if pieces@.len() == 1 {
                    assert(pieces.deep_view()[0] == pieces@[0]@);
                }
            }
            if pieces.len() == 1 && is_title(pieces[0].as_str()) {
                append_part(&mut person.title, pieces[0].as_str());
                proof {
                    assert(person@ =~= (NameView { title: append_word(v1.title, j.0[0]), ..v1 }));
                }
            } else {
                run_scan_two(&pieces, &mut person);
                proof {
                    assert(person@ == scan_two(j.0, 0, v1));
                }
            }
            person.postprocess_first();
            proof {
                assert(spec_parse(full_name@) == Some(person@));
            }
            return Some(person);
        }
        proof {
            assert(segs[0] == csv_parts@[0]@);
            assert(person@.title =~= Seq::<char>::empty());
        }
        let last_pieces = person.preprocess_input(csv_parts[0].as_str());
        let ghost j1 = join_conj(space_tokens(segs[0]), Seq::<char>::empty());
        proof {
            assert(last_pieces.deep_view() == j1.0);
            assert(person@ =~= (NameView { title: j1.1, ..empty_view(ex.1) }));
        }
        run_assign_last(&last_pieces, &mut person);
        let ghost v1 = assign_last(j1.0, 0, NameView { title: j1.1, ..empty_view(ex.1) });
        proof {
            assert(person@ == v1);
        }
        let pieces = person.preprocess_input(csv_parts[1].as_str());
        let ghost j2 = join_conj(space_tokens(segs[1]), v1.title);
        let ghost v2a = NameView { title: j2.1, ..v1 };
        proof {
            assert(pieces.deep_view() == j2.0);
            assert(pieces.deep_view().len() == pieces@.len());
            assert(person@ =~= v2a);
            if pieces@.len() == 1 {
                assert(pieces.deep_view()[0] == pieces@[0]@);
            }
        }
        if pieces.len() == 1 && is_title(pieces[0].as_str()) {
            append_part(&mut person.first, pieces[0].as_str());
            proof {
                assert(person@ =~= (NameView { first: append_word(v2a.first, j2.0[0]), ..v2a }));
            }
        } else {
            run_scan_rest(&pieces, &mut person);
            proof {
                assert(person@ == scan_rest(j2.0, 0, v2a));
            }
        }
        let ghost v2 = if j2.0.len() == 1 && is_title_seq(j2.0[0]) {
            NameView { first: append_word(v2a.first, j2.0[0]), ..v2a }
        } else {
            scan_rest(j2.0, 0, v2a)
        };
        proof {
            assert(person@ == v2);
        }
        let mut si: usize = 2;
        while si < csv_parts.len()
            invariant
                2 <= si <= csv_parts.len(),
                csv_parts.deep_view() == segs,
                append_segments(segs, si as int, person@) == append_segments(segs, 2, v2),
            decreases csv_parts.len() - si,
        {
            let ghost pre = person@;
            proof {
                assert(segs[si as int] == csv_parts@[si as int]@);
            }
            append_part(&mut person.suffix, csv_parts[si].as_str());
            proof {
                assert(person@ =~= (NameView {
                    suffix: append_word(pre.suffix, segs[si as int]),
                    ..pre
                }));
                assert(append_segments(segs, si as int, pre) == append_segments(
                    segs,
                    si as int + 1,
                    person@,
                ));
            }
            si += 1;
        }
        proof {
            assert(append_segments(segs, csv_parts.len() as int, person@) == person@);
            assert(person@ == append_segments(segs, 2, v2));
        }
        person.postprocess_first();
        proof {
            assert(spec_parse(full_name@) == Some(person@));
        }
        Some(person)
    }

    /// The correction step: when a title and a first name were found but no
    /// surname, the first name becomes the surname.
    pub fn postprocess_first(&mut self)
        ensures
            final(self)@ == postprocess(old(self)@),
    {
        if !self.title.as_str().is_empty() && !self.first.as_str().is_empty()
            && self.last.as_str().is_empty() {
            self.last = self.first.clone();
            self.first = String::new();
            proof {
                assert(self@ =~= postprocess(old(self)@));
            }
        }
    }

    /// Tokenizes a segment on spaces and joins tokens around interior
    /// conjunctions; a compound that begins with a title is also appended
    /// to this record's title field.
    pub fn preprocess_input(&mut self, parts: &str) -> (r: Vec<String>)
        ensures
            r.deep_view() == join_conj(space_tokens(parts@), old(self)@.title).0,
            final(self)@ == (NameView {
                title: join_conj(space_tokens(parts@), old(self)@.title).1,
                ..old(self)@
            }),
    {
        let tmp = space_tokens_str(parts);
        if tmp.len() == 0 {
            proof {
                assert(tmp.deep_view().len() == 0);
                assert(join_conj(tmp.deep_view(), self@.title) == (
                    tmp.deep_view(),
                    self@.title,
                ));
                assert(self@ =~= (NameView { title: self@.title, ..self@ }));
            }
            tmp
        } else {
            proof {
                assert(tmp@.len() >= 1);
            }
            self.join_on_conjunctions(&tmp)
        }
    }

    /// Merges, repeatedly, the first interior conjunction token with its
    /// two neighbors into one compound token; a compound that begins with
    /// a title is also appended to this record's title field.
    pub fn join_on_conjunctions(&mut self, parts: &Vec<String>) -> (r: Vec<String>)
        requires
            parts@.len() >= 1,
        ensures
            r.deep_view() == join_conj(parts.deep_view(), old(self)@.title).0,
            final(self)@ == (NameView {
                title: join_conj(parts.deep_view(), old(self)@.title).1,
                ..old(self)@
            }),
    {
        let mut cur = clone_vec_strings(parts);
        let mut fin: bool = false;
        while !fin
            invariant
                cur@.len() >= 1,
                !fin ==> join_conj(parts.deep_view(), old(self)@.title) == join_conj(
                    cur.deep_view(),
                    self@.title,
                ) && self@ == (NameView { title: self@.title, ..old(self)@ }),
                fin ==> cur.deep_view() == join_conj(parts.deep_view(), old(self)@.title).0
                    && self@ == (NameView {
                    title: join_conj(parts.deep_view(), old(self)@.title).1,
                    ..old(self)@
                }),
            decreases cur@.len() + (if fin { 0int } else { 1int }),
        {
            let ghost dv = cur.deep_view();
            let ghost t0 = self@.title;
            let n = cur.len();
            let mut i: usize = 1;
            let mut found: bool = false;
            while !found && i < n - 1
                invariant
                    n == cur.len(),
                    dv == cur.deep_view(),
                    1 <= i <= n,
                    forall|j: int| 1 <= j < i ==> !is_conj_seq(#[trigger] dv[j]),
                    found ==> 1 <= i < n - 1 && is_conj_seq(dv[i as int]),
                decreases n - i + (if found { 0int } else { 1int }),
            {
                let hit = is_conjunction(cur[i].as_str());
                proof {
                    assert(dv[i as int] == cur@[i as int]@);
                }
                if hit {
                    found = true;
                } else {
                    i += 1;
                }
            }
            proof {
                lemma_find_conj_props(dv, 1);
                if found {
                    match find_conj(dv, 1) {
                        Some(k) => {
                            if k < i as int {
                                assert(!is_conj_seq(dv[k]));
                                assert(false);
                            }
                            if k > i as int {
                                assert(!is_conj_seq(dv[i as int]));
                                assert(false);
                            }
                        },
                        None => {
                            assert(!is_conj_seq(dv[i as int]));
                            assert(false);
                        },
                    }
                    assert(find_conj(dv, 1) == Some(i as int));
                } else {
                    assert(forall|j: int| 1 <= j < dv.len() - 1 ==> !is_conj_seq(
                        #[trigger] dv[j],
                    ));
                    assert(find_conj(dv, 1) is None);
                }
            }
            if found {
                let mut joined = String::from_str(cur[i - 1].as_str());
                joined.append(" ");
                joined.append(cur[i].as_str());
                joined.append(" ");
                joined.append(cur[i + 1].as_str());
                proof {
                    reveal_strlit(" ");
                    assert(" "@ =~= seq![' ']);
                    assert(dv[i as int - 1] == cur@[i as int - 1]@);
                    assert(dv[i as int] == cur@[i as int]@);
                    assert(dv[i as int + 1] == cur@[i as int + 1]@);
                    assert(joined@ =~= joined3(dv, i as int));
                }
                if is_title(cur[i - 1].as_str()) {
                    append_part(&mut self.title, joined.as_str());
                }
                proof {
                    let t2 = if is_title_seq(dv[i as int - 1]) {
                        append_word(t0, joined3(dv, i as int))
                    } else {
                        t0
                    };
                    assert(self@.title == t2);
                    assert(self@ =~= (NameView { title: self@.title, ..old(self)@ }));
                    assert(join_conj(dv, t0) == join_conj(join_step(dv, i as int), t2));
                }
                let mut nv: Vec<String> = Vec::new();
                let mut k: usize = 0;
                proof {
                    assert(nv.deep_view() =~= dv.take(0));
                }
                while k < i - 1
                    invariant
                        1 <= i < n - 1,
                        n == cur.len(),
                        dv == cur.deep_view(),
                        0 <= k <= i - 1,
                        nv.deep_view() == dv.take(k as int),
                        nv@.len() == k,
                    decreases i - 1 - k,
                {
                    let ghost before = nv.deep_view();
                    nv.push(cur[k].clone());
                    proof {
                        assert(cur@[k as int]@ == dv[k as int]);
                        assert(nv.deep_view() =~= before.push(dv[k as int]));
                        assert(nv.deep_view() =~= dv.take(k as int + 1));
                    }
                    k += 1;
                }
                nv.push(joined);
                proof {
                    assert(nv.deep_view() =~= dv.take(i as int - 1) + seq![
                        joined3(dv, i as int),
                    ] + dv.subrange(i as int + 2, i as int + 2));
                }
                let mut m: usize = i + 2;
                while m < n
                    invariant
                        1 <= i < n - 1,
                        n == cur.len(),
                        dv == cur.deep_view(),
                        i + 2 <= m <= n,
                        nv@.len() == m - 2,
                        nv.deep_view() == dv.take(i as int - 1) + seq![joined3(dv, i as int)]
                            + dv.subrange(i as int + 2, m as int),
                    decreases n - m,
                {
                    let ghost before = nv.deep_view();
                    nv.push(cur[m].clone());
                    proof {
                        assert(cur@[m as int]@ == dv[m as int]);
                        assert(nv.deep_view() =~= before.push(dv[m as int]));
                        assert(dv.subrange(i as int + 2, m as int + 1) =~= dv.subrange(
                            i as int + 2,
                            m as int,
                        ).push(dv[m as int]));
                        assert(nv.deep_view() =~= dv.take(i as int - 1) + seq![
                            joined3(dv, i as int),
                        ] + dv.subrange(i as int + 2, m as int + 1));
                    }
                    m += 1;
                }
                proof {
                    assert(dv.subrange(i as int + 2, n as int) =~= dv.skip(i as int + 2));
                    assert(nv.deep_view() =~= join_step(dv, i as int));
                    assert(nv@.len() == n - 2);
                }
                cur = nv;
            } else {
                fin = true;
                proof {
                    assert(join_conj(dv, t0) == (dv, t0));
                }
            }
        }
        cur
    }
}

} // verus!

//! Laws of the parser as a whole: blank input yields no result, and the
//! two token orderings of an ordinary name parse to the same record.

use vstd::prelude::*;
use crate::text::{
    is_space, spec_trim, spec_trim_start, find_char, split_char, split_spaces, space_tokens,
    comma_segments, keep_nonempty, trim_all, lemma_find_char_props, lemma_find_char_at,
    lemma_find_char_none, lemma_find_space_at, lemma_find_space_none,
};
use crate::classify::{is_title_seq, is_prefix_seq, is_suffix_seq, is_conj_seq};
use crate::nick::{find_span, extract_spec};
use crate::person::{
    NameView, empty_view, append_word, append_words, all_suffixes, find_conj, join_conj, scan_one,
    scan_rest, assign_last, append_segments, postprocess, spec_parse,
};

verus! {

/// A sequence of only whitespace trims from the left to nothing.
proof fn lemma_trim_all_space(w: Seq<char>)
    requires
        forall|j: int| 0 <= j < w.len() ==> is_space(w[j]),
    ensures
        spec_trim(w).len() == 0,
    decreases w.len(),
{
    if w.len() > 0 {
        assert(w.drop_first() =~= w.skip(1));
        assert(forall|j: int| 0 <= j < w.drop_first().len() ==> is_space(#[trigger] w.drop_first()[j]));
        lemma_trim_all_space(w.drop_first());
        assert(spec_trim_start(w) == spec_trim_start(w.drop_first()));
    }
}

/// Every piece of the comma split of a whitespace-and-commas sequence
/// trims to nothing.
proof fn lemma_split_blank_pieces(s: Seq<char>)
    requires
        forall|j: int| 0 <= j < s.len() ==> is_space(s[j]) || s[j] == ',',
    ensures
        forall|i: int| 0 <= i < split_char(s, ',').len() ==> spec_trim(
            #[trigger] split_char(s, ',')[i],
        ).len() == 0,
    decreases s.len(),
{
    lemma_find_char_props(s, ',');
    match find_char(s, ',') {
        Some(i) => {
            let head = s.take(i);
            let tail = s.skip(i + 1);
            assert(forall|j: int| 0 <= j < head.len() ==> is_space(#[trigger] head[j]));
            lemma_trim_all_space(head);
            assert(forall|j: int| 0 <= j < tail.len() ==> is_space(#[trigger] tail[j]) || tail[j]
                == ',');
            lemma_split_blank_pieces(tail);
            assert forall|k: int| 0 <= k < split_char(s, ',').len() implies spec_trim(
                #[trigger] split_char(s, ',')[k],
            ).len() == 0 by {
                if k == 0 {
                    assert(split_char(s, ',')[0] == head);
                } else {
                    assert(split_char(s, ',')[k] == split_char(tail, ',')[k - 1]);
                }
            }
        },
        None => {
            assert(forall|j: int| 0 <= j < s.len() ==> is_space(s[j]));
            lemma_trim_all_space(s);
            assert(split_char(s, ',')[0] == s);
        },
    }
}

/// When every piece trims to nothing, trimming and dropping empties
/// leaves nothing.
proof fn lemma_keep_trimmed_empty(ts: Seq<Seq<char>>)
    requires
        forall|i: int| 0 <= i < ts.len() ==> spec_trim(#[trigger] ts[i]).len() == 0,
    ensures
        keep_nonempty(trim_all(ts)).len() == 0,
    decreases ts.len(),
{
    reveal(Seq::filter);
    if ts.len() > 0 {
        assert(forall|i: int| 0 <= i < ts.drop_last().len() ==> spec_trim(
            #[trigger] ts.drop_last()[i],
        ).len() == 0);
        lemma_keep_trimmed_empty(ts.drop_last());
        assert(trim_all(ts).drop_last() =~= trim_all(ts.drop_last()));
        assert(trim_all(ts).last() == spec_trim(ts.last()));
    } else {
        assert(trim_all(ts) =~= Seq::<Seq<char>>::empty());
    }
}

/// Law: an input of only whitespace and commas yields no result.
pub proof fn lemma_blank_input_no_result(s: Seq<char>)
    requires
        forall|j: int| 0 <= j < s.len() ==> is_space(s[j]) || s[j] == ',',
    ensures
        spec_parse(s) is None,
{
    assert(forall|j: int| 0 <= j < s.len() ==> s[j] != '(');
    lemma_find_char_none(s, '(');
    assert(find_span(s, '(', ')') is None);
    assert(extract_spec(s) == (s, Seq::<Seq<char>>::empty()));
    lemma_split_blank_pieces(s);
    lemma_keep_trimmed_empty(split_char(s, ','));
    assert(comma_segments(s).len() == 0);
}

/// An ordinary word: non-empty, with no whitespace, comma, or parenthesis
/// anywhere in it.
pub open spec fn plain_word(w: Seq<char>) -> bool {
    w.len() > 0 && forall|j: int| 0 <= j < w.len() ==> !is_space(#[trigger] w[j]) && w[j] != ','
        && w[j] != '(' && w[j] != ')'
}

/// A sequence without separators splits into itself alone.
proof fn lemma_split_no_sep(s: Seq<char>, sep: char)
    requires
        forall|j: int| 0 <= j < s.len() ==> s[j] != sep,
    ensures
        split_char(s, sep) == seq![s],
{
    lemma_find_char_none(s, sep);
}

/// Splitting at the first separator: the separator-free head becomes the
/// first piece and the tail splits on its own.
proof fn lemma_split_at_sep(a: Seq<char>, b: Seq<char>, sep: char)
    requires
        forall|j: int| 0 <= j < a.len() ==> a[j] != sep,
    ensures
        split_char(a + seq![sep] + b, sep) == seq![a] + split_char(b, sep),
{
    let s = a + seq![sep] + b;
    assert(s[a.len() as int] == sep);
    assert(forall|j: int| 0 <= j < a.len() ==> s[j] == a[j]);
    lemma_find_char_at(s, sep, a.len() as int);
    assert(s.take(a.len() as int) =~= a);
    assert(s.skip(a.len() as int + 1) =~= b);
}

/// A sequence without whitespace splits into itself alone.
proof fn lemma_split_spaces_none(s: Seq<char>)
    requires
        forall|j: int| 0 <= j < s.len() ==> !is_space(s[j]),
    ensures
        split_spaces(s) == seq![s],
{
    lemma_find_space_none(s);
}

/// Splitting at the first whitespace character: the whitespace-free head
/// becomes the first piece and the tail splits on its own.
proof fn lemma_split_spaces_at(a: Seq<char>, b: Seq<char>)
    requires
        forall|j: int| 0 <= j < a.len() ==> !is_space(a[j]),
    ensures
        split_spaces(a + seq![' '] + b) == seq![a] + split_spaces(b),
{
    let s = a + seq![' '] + b;
    assert(s[a.len() as int] == ' ');
    assert(forall|j: int| 0 <= j < a.len() ==> s[j] == a[j]);
    lemma_find_space_at(s, a.len() as int);
    assert(s.take(a.len() as int) =~= a);
    assert(s.skip(a.len() as int + 1) =~= b);
}

/// Keeping the non-empty pieces of a list of non-empty pieces keeps them
/// all.
proof fn lemma_keep_nonempty_all(ts: Seq<Seq<char>>)
    requires
        forall|i: int| 0 <= i < ts.len() ==> #[trigger] ts[i].len() > 0,
    ensures
        keep_nonempty(ts) == ts,
    decreases ts.len(),
{
    reveal(Seq::filter);
    if ts.len() > 0 {
        assert(forall|i: int| 0 <= i < ts.drop_last().len() ==> #[trigger] ts.drop_last()[i].len()
            > 0);
        lemma_keep_nonempty_all(ts.drop_last());
        assert(keep_nonempty(ts) =~= ts.drop_last().push(ts.last()));
        assert(ts.drop_last().push(ts.last()) =~= ts);
    } else {
        assert(keep_nonempty(ts) =~= ts);
    }
}

/// A space-free word tokenizes to itself alone.
proof fn lemma_word_tokens(w: Seq<char>)
    requires
        plain_word(w),
    ensures
        space_tokens(w) == seq![w],
{
    lemma_split_spaces_none(w);
    lemma_keep_nonempty_all(seq![w]);
}

/// Two space-free words joined by one space tokenize to the pair.
proof fn lemma_two_tokens(a: Seq<char>, b: Seq<char>)
    requires
        plain_word(a),
        plain_word(b),
    ensures
        space_tokens(a + seq![' '] + b) == seq![a, b],
{
    lemma_split_spaces_at(a, b);
    lemma_split_spaces_none(b);
    assert(split_spaces(a + seq![' '] + b) =~= seq![a, b]);
    lemma_keep_nonempty_all(seq![a, b]);
}

/// Three space-free words joined by single spaces tokenize to the triple.
proof fn lemma_three_tokens(a: Seq<char>, b: Seq<char>, c: Seq<char>)
    requires
        plain_word(a),
        plain_word(b),
        plain_word(c),
    ensures
        space_tokens(a + seq![' '] + b + seq![' '] + c) == seq![a, b, c],
{
    let rest = b + seq![' '] + c;
    assert(a + seq![' '] + b + seq![' '] + c =~= a + seq![' '] + rest);
    lemma_split_spaces_at(a, rest);
    lemma_split_spaces_at(b, c);
    lemma_split_spaces_none(c);
    assert(split_spaces(a + seq![' '] + rest) =~= seq![a, b, c]);
    lemma_keep_nonempty_all(seq![a, b, c]);
}

/// No parenthesis occurs in a string built from plain words, spaces and
/// commas, so nickname extraction leaves it unchanged.
proof fn lemma_extract_noop(s: Seq<char>)
    requires
        forall|j: int| 0 <= j < s.len() ==> s[j] != '(',
    ensures
        extract_spec(s) == (s, Seq::<Seq<char>>::empty()),
{
    lemma_find_char_none(s, '(');
    assert(find_span(s, '(', ')') is None);
}

/// The walk of the one-segment form over three words that are neither
/// titles, suffixes, prefixes nor conjunctions: first, middle, last.
proof fn lemma_scan_one_three_plain(f: Seq<char>, m: Seq<char>, l: Seq<char>, nicks: Seq<Seq<char>>)
    requires
        f.len() > 0,
        !is_title_seq(f),
        !is_title_seq(m),
        !is_suffix_seq(l),
        !is_prefix_seq(m),
    ensures
        scan_one(seq![f, m, l], 0, empty_view(nicks)) == (NameView {
            first: f,
            middle: m,
            last: l,
            ..empty_view(nicks)
        }),
{
    let ps = seq![f, m, l];
    let v0 = empty_view(nicks);
    let va = NameView { first: f, ..v0 };
    let vb = NameView { first: f, middle: m, ..v0 };
    let vr = NameView { first: f, middle: m, last: l, ..v0 };
    assert(scan_one(ps, 0, v0) == scan_one(ps, 1, va));
    assert(ps.skip(2) =~= seq![l]);
    assert(ps.skip(2)[0] == l);
    assert(!all_suffixes(ps.skip(2)));
    assert(scan_one(ps, 1, va) == scan_one(ps, 2, vb));
    if is_title_seq(l) {
        assert(scan_one(ps, 2, vb) == scan_one(ps, 3, vr));
        assert(scan_one(ps, 3, vr) == vr);
    } else {
        assert(ps.skip(3) =~= Seq::<Seq<char>>::empty());
        assert(all_suffixes(ps.skip(3)));
        assert(scan_one(ps, 2, vb) == (NameView {
            last: l,
            suffix: append_words(vb.suffix, ps.skip(3)),
            ..vb
        }));
        assert(append_words(vb.suffix, ps.skip(3)) == vb.suffix);
        assert(scan_one(ps, 2, vb) =~= vr);
    }
}

/// The walk of the one-segment form over a plain first word, a surname
/// prefix, and a plain last word: the prefix joins the surname.
proof fn lemma_scan_one_prefixed(f: Seq<char>, p: Seq<char>, l: Seq<char>, nicks: Seq<Seq<char>>)
    requires
        f.len() > 0,
        !is_title_seq(f),
        !is_title_seq(p),
        is_prefix_seq(p),
        !is_suffix_seq(l),
        p.len() > 0,
    ensures
        scan_one(seq![f, p, l], 0, empty_view(nicks)) == (NameView {
            first: f,
            last: p + seq![' '] + l,
            ..empty_view(nicks)
        }),
{
    let ps = seq![f, p, l];
    let v0 = empty_view(nicks);
    let va = NameView { first: f, ..v0 };
    let vb = NameView { first: f, last: p, ..v0 };
    let vr = NameView { first: f, last: p + seq![' '] + l, ..v0 };
    assert(scan_one(ps, 0, v0) == scan_one(ps, 1, va));
    assert(ps.skip(2) =~= seq![l]);
    assert(ps.skip(2)[0] == l);
    assert(!all_suffixes(ps.skip(2)));
    assert(scan_one(ps, 1, va) == scan_one(ps, 2, vb));
    assert(append_word(vb.last, l) == p + seq![' '] + l);
    if is_title_seq(l) {
        assert(scan_one(ps, 2, vb) == scan_one(ps, 3, vr));
        assert(scan_one(ps, 3, vr) == vr);
    } else {
        assert(ps.skip(3) =~= Seq::<Seq<char>>::empty());
        assert(all_suffixes(ps.skip(3)));
        assert(scan_one(ps, 2, vb) == (NameView {
            last: append_word(vb.last, l),
            suffix: append_words(vb.suffix, ps.skip(3)),
            ..vb
        }));
        assert(append_words(vb.suffix, ps.skip(3)) == vb.suffix);
        assert(scan_one(ps, 2, vb) =~= vr);
    }
}

/// The segments of a one-word surname segment followed by a trimmed tail
/// segment, as the surname-first form sees them.
proof fn lemma_two_segments(head: Seq<char>, tail: Seq<char>)
    requires
        head.len() > 0,
        !is_space(head[0]),
        !is_space(head.last()),
        forall|j: int| 0 <= j < head.len() ==> head[j] != ',',
        tail.len() > 0,
        !is_space(tail[0]),
        !is_space(tail.last()),
        forall|j: int| 0 <= j < tail.len() ==> tail[j] != ',',
    ensures
        comma_segments(head + seq![','] + seq![' '] + tail) == seq![head, tail],
{
    let rest = seq![' '] + tail;
    let s = head + seq![','] + seq![' '] + tail;
    assert(s =~= head + seq![','] + rest);
    assert forall|j: int| 0 <= j < rest.len() implies rest[j] != ',' by {
        if j > 0 {
            assert(rest[j] == tail[j - 1]);
        }
    }
    lemma_split_at_sep(head, rest, ',');
    lemma_split_no_sep(rest, ',');
    assert(split_char(s, ',') =~= seq![head, rest]);
    assert(spec_trim_start(head) == head);
    assert(spec_trim(head) == head);
    assert(rest[0] == ' ');
    assert(rest.drop_first() =~= tail);
    assert(spec_trim_start(rest) == spec_trim_start(tail));
    assert(spec_trim_start(tail) == tail);
    assert(spec_trim(rest) == tail);
    assert(trim_all(seq![head, rest]) =~= seq![head, tail]);
    lemma_keep_nonempty_all(seq![head, tail]);
}

/// A single plain word makes a single segment.
proof fn lemma_one_segment(s: Seq<char>)
    requires
        s.len() > 0,
        !is_space(s[0]),
        !is_space(s.last()),
        forall|j: int| 0 <= j < s.len() ==> s[j] != ',',
    ensures
        comma_segments(s) == seq![s],
{
    lemma_split_no_sep(s, ',');
    assert(spec_trim_start(s) == s);
    assert(spec_trim(s) == s);
    assert(trim_all(seq![s]) =~= seq![s]);
    lemma_keep_nonempty_all(seq![s]);
}

/// Character facts about two words joined by one space: its ends, and the
/// absence of commas and parentheses anywhere in it.
proof fn lemma_pair_chars(a: Seq<char>, b: Seq<char>)
    requires
        plain_word(a),
        plain_word(b),
    ensures
        (a + seq![' '] + b).len() > 0,
        (a + seq![' '] + b)[0] == a[0],
        (a + seq![' '] + b).last() == b.last(),
        forall|j: int| 0 <= j < (a + seq![' '] + b).len() ==> #[trigger] (a + seq![' '] + b)[j]
            != ',' && (a + seq![' '] + b)[j] != '(',
{
    let s = a + seq![' '] + b;
    assert forall|j: int| 0 <= j < s.len() implies #[trigger] s[j] != ',' && s[j] != '(' by {
        if j < a.len() {
            assert(s[j] == a[j]);
        } else if j == a.len() {
            assert(s[j] == ' ');
        } else {
            assert(s[j] == b[j - a.len() - 1]);
        }
    }
    assert(s[0] == a[0]);
    assert(s.last() == b.last());
}

/// Character facts about three words joined by single spaces.
proof fn lemma_triple_chars(a: Seq<char>, b: Seq<char>, c: Seq<char>)
    requires
        plain_word(a),
        plain_word(b),
        plain_word(c),
    ensures
        (a + seq![' '] + b + seq![' '] + c).len() > 0,
        (a + seq![' '] + b + seq![' '] + c)[0] == a[0],
        (a + seq![' '] + b + seq![' '] + c).last() == c.last(),
        forall|j: int| 0 <= j < (a + seq![' '] + b + seq![' '] + c).len() ==> #[trigger] (a
            + seq![' '] + b + seq![' '] + c)[j] != ',' && (a + seq![' '] + b + seq![' '] + c)[j]
            != '(',
{
    let s = a + seq![' '] + b + seq![' '] + c;
    assert forall|j: int| 0 <= j < s.len() implies #[trigger] s[j] != ',' && s[j] != '(' by {
        if j < a.len() {
            assert(s[j] == a[j]);
        } else if j == a.len() {
            assert(s[j] == ' ');
        } else if j < a.len() + 1 + b.len() {
            assert(s[j] == b[j - a.len() - 1]);
        } else if j == a.len() + 1 + b.len() {
            assert(s[j] == ' ');
        } else {
            assert(s[j] == c[j - a.len() - b.len() - 2]);
        }
    }
    assert(s[0] == a[0]);
    assert(s.last() == c.last());
}

/// A surname segment, a comma, a space and a tail hold no parenthesis when
/// neither part does.
proof fn lemma_comma_join_no_paren(head: Seq<char>, tail: Seq<char>)
    requires
        forall|j: int| 0 <= j < head.len() ==> #[trigger] head[j] != '(',
        forall|j: int| 0 <= j < tail.len() ==> #[trigger] tail[j] != '(',
    ensures
        forall|j: int| 0 <= j < (head + seq![','] + seq![' '] + tail).len() ==> #[trigger] (head
            + seq![','] + seq![' '] + tail)[j] != '(',
{
    let s = head + seq![','] + seq![' '] + tail;
    assert forall|j: int| 0 <= j < s.len() implies #[trigger] s[j] != '(' by {
        if j < head.len() {
            assert(s[j] == head[j]);
        } else if j == head.len() {
            assert(s[j] == ',');
        } else if j == head.len() + 1 {
            assert(s[j] == ' ');
        } else {
            assert(s[j] == tail[j - head.len() - 2]);
        }
    }
}

/// Law: round-trip ordering equivalence. An ordinary three-word name —
/// plain words, none of them a title, suffix, prefix or conjunction where
/// the walk consults those categories — parses to the same record whether
/// written "First Middle Last" or "Last, First Middle".
#[verifier::rlimit(60)]
pub proof fn lemma_round_trip_orderings(f: Seq<char>, m: Seq<char>, l: Seq<char>)
    requires
        plain_word(f),
        !is_title_seq(f),
        !is_suffix_seq(f),
        plain_word(m),
        !is_title_seq(m),
        !is_suffix_seq(m),
        !is_prefix_seq(m),
        !is_conj_seq(m),
        plain_word(l),
        !is_suffix_seq(l),
    ensures
        spec_parse(f + seq![' '] + m + seq![' '] + l) == Some(NameView {
            first: f,
            middle: m,
            last: l,
            ..empty_view(Seq::<Seq<char>>::empty())
        }),
        spec_parse(l + seq![','] + seq![' '] + f + seq![' '] + m) == spec_parse(
            f + seq![' '] + m + seq![' '] + l,
        ),
{
    let n0 = Seq::<Seq<char>>::empty();
    let vr = NameView { first: f, middle: m, last: l, ..empty_view(n0) };
    // The straight ordering: one segment of three tokens.
    let s1 = f + seq![' '] + m + seq![' '] + l;
    lemma_triple_chars(f, m, l);
    assert(!is_space(f[0]));
    assert(l.last() == l[l.len() - 1]);
    assert(!is_space(l.last()));
    lemma_extract_noop(s1);
    lemma_one_segment(s1);
    lemma_three_tokens(f, m, l);
    let ts1 = seq![f, m, l];
    assert(find_conj(ts1, 2) is None);
    assert(find_conj(ts1, 1) is None);
    assert(join_conj(ts1, Seq::<char>::empty()) == (ts1, Seq::<char>::empty()));
    lemma_scan_one_three_plain(f, m, l, n0);
    assert((NameView { title: Seq::<char>::empty(), ..empty_view(n0) }) =~= empty_view(n0));
    assert(postprocess(vr) == vr);
    assert(spec_parse(s1) == Some(vr));
    // The comma ordering: surname first, then the given names.
    let s2 = l + seq![','] + seq![' '] + f + seq![' '] + m;
    let tail = f + seq![' '] + m;
    assert(s2 =~= l + seq![','] + seq![' '] + tail);
    lemma_pair_chars(f, m);
    assert(m.last() == m[m.len() - 1]);
    assert(!is_space(m.last()));
    lemma_comma_join_no_paren(l, tail);
    lemma_extract_noop(s2);
    lemma_two_segments(l, tail);
    let segs = seq![l, tail];
    lemma_split_spaces_at(f, m);
    lemma_split_spaces_none(m);
    assert(split_spaces(tail) =~= seq![f, m]);
    assert(split_spaces(tail)[0] == f);
    assert(!all_suffixes(split_spaces(tail)));
    lemma_word_tokens(l);
    assert(find_conj(seq![l], 1) is None);
    assert(join_conj(seq![l], Seq::<char>::empty()) == (seq![l], Seq::<char>::empty()));
    let w0 = NameView { title: Seq::<char>::empty(), ..empty_view(n0) };
    assert(w0 =~= empty_view(n0));
    let w1 = NameView { last: l, ..empty_view(n0) };
    assert(assign_last(seq![l], 0, empty_view(n0)) == assign_last(seq![l], 1, w1));
    assert(assign_last(seq![l], 1, w1) == w1);
    lemma_two_tokens(f, m);
    let ts2 = seq![f, m];
    assert(find_conj(ts2, 1) is None);
    assert(join_conj(ts2, w1.title) == (ts2, w1.title));
    let w2 = NameView { first: f, ..w1 };
    assert(scan_rest(ts2, 0, w1) == scan_rest(ts2, 1, w2));
    let w3 = NameView { first: f, middle: m, ..w1 };
    assert(scan_rest(ts2, 1, w2) == scan_rest(ts2, 2, w3));
    assert(scan_rest(ts2, 2, w3) == w3);
    assert(append_segments(segs, 2, w3) == w3);
    assert(w3 =~= vr);
    assert(postprocess(w3) == w3);
    assert(spec_parse(s2) == Some(vr));
}

/// Law: a multi-token prefixed surname stays joined, in both orderings.
/// "First Prefix Last" yields first name "First" and surname
/// "Prefix Last", and "Prefix Last, First" parses to the same record.
#[verifier::rlimit(60)]
pub proof fn lemma_prefixed_surname_joined(f: Seq<char>, p: Seq<char>, l: Seq<char>)
    requires
        plain_word(f),
        !is_title_seq(f),
        !is_suffix_seq(f),
        plain_word(p),
        is_prefix_seq(p),
        !is_title_seq(p),
        !is_suffix_seq(p),
        !is_conj_seq(p),
        plain_word(l),
        !is_suffix_seq(l),
    ensures
        spec_parse(f + seq![' '] + p + seq![' '] + l) == Some(NameView {
            first: f,
            last: p + seq![' '] + l,
            ..empty_view(Seq::<Seq<char>>::empty())
        }),
        spec_parse(p + seq![' '] + l + seq![','] + seq![' '] + f) == spec_parse(
            f + seq![' '] + p + seq![' '] + l,
        ),
{
    let n0 = Seq::<Seq<char>>::empty();
    let vr = NameView { first: f, last: p + seq![' '] + l, ..empty_view(n0) };
    // The straight ordering: one segment of three tokens.
    let s1 = f + seq![' '] + p + seq![' '] + l;
    lemma_triple_chars(f, p, l);
    assert(!is_space(f[0]));
    assert(l.last() == l[l.len() - 1]);
    assert(!is_space(l.last()));
    lemma_extract_noop(s1);
    lemma_one_segment(s1);
    lemma_three_tokens(f, p, l);
    let ts1 = seq![f, p, l];
    assert(find_conj(ts1, 2) is None);
    assert(find_conj(ts1, 1) is None);
    assert(join_conj(ts1, Seq::<char>::empty()) == (ts1, Seq::<char>::empty()));
    lemma_scan_one_prefixed(f, p, l, n0);
    assert((NameView { title: Seq::<char>::empty(), ..empty_view(n0) }) =~= empty_view(n0));
    assert(postprocess(vr) == vr);
    assert(spec_parse(s1) == Some(vr));
    // The comma ordering: the prefixed surname first, then the given name.
    let head = p + seq![' '] + l;
    let s2 = p + seq![' '] + l + seq![','] + seq![' '] + f;
    assert(s2 =~= head + seq![','] + seq![' '] + f);
    lemma_pair_chars(p, l);
    assert(!is_space(p[0]));
    assert(l.last() == l[l.len() - 1]);
    assert(!is_space(l.last()));
    assert(!is_space(f[0]));
    assert(f.last() == f[f.len() - 1]);
    assert(!is_space(f.last()));
    lemma_comma_join_no_paren(head, f);
    lemma_extract_noop(s2);
    lemma_two_segments(head, f);
    let segs = seq![head, f];
    lemma_split_spaces_none(f);
    assert(split_spaces(f)[0] == f);
    assert(!all_suffixes(split_spaces(f)));
    lemma_two_tokens(p, l);
    assert(find_conj(seq![p, l], 1) is None);
    assert(join_conj(seq![p, l], Seq::<char>::empty()) == (seq![p, l], Seq::<char>::empty()));
    let w0 = NameView { title: Seq::<char>::empty(), ..empty_view(n0) };
    assert(w0 =~= empty_view(n0));
    let w1 = NameView { last: p, ..empty_view(n0) };
    assert(assign_last(seq![p, l], 0, empty_view(n0)) == assign_last(seq![p, l], 1, w1));
    let w2 = NameView { last: p + seq![' '] + l, ..empty_view(n0) };
    assert(append_word(w1.last, l) == p + seq![' '] + l);
    assert(assign_last(seq![p, l], 1, w1) == assign_last(seq![p, l], 2, w2));
    assert(assign_last(seq![p, l], 2, w2) == w2);
    lemma_word_tokens(f);
    assert(find_conj(seq![f], 1) is None);
    assert(join_conj(seq![f], w2.title) == (seq![f], w2.title));
    let w3 = NameView { first: f, ..w2 };
    assert(scan_rest(seq![f], 0, w2) == scan_rest(seq![f], 1, w3));
    assert(scan_rest(seq![f], 1, w3) == w3);
    assert(append_segments(segs, 2, w3) == w3);
    assert(w3 =~= vr);
    assert(postprocess(w3) == w3);
    assert(spec_parse(s2) == Some(vr));
}

} // verus!

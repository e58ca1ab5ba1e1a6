//! The laws of the convention transforms.
//!
//! All nine transforms share one word splitter, so converting a stem once
//! fixes its word segmentation: converting again (to the same or another
//! convention) re-cases the same words.  This module proves the transforms
//! idempotent and segmentation-preserving, each on the inputs where the
//! law holds.
use vstd::prelude::*;

use crate::chars::{is_boundary, is_digit, is_lower, is_separator, is_upper, is_word_char,
    to_lower, to_upper};
use crate::chars::{lemma_to_lower_class, lemma_to_lower_idempotent, lemma_to_lower_to_upper,
    lemma_to_upper_class, lemma_to_upper_idempotent, lemma_to_upper_to_lower};
use crate::convention::{cap_word, case_words, join_words, lower_word, separator_of,
    transform_stem, upper_word, NamingConvention};
use crate::convert::{convert_name, extension_of, last_dot, lemma_last_dot_correct,
    lemma_transform_empty_stem, stem_of};
use crate::words::{all_word_chars, ascii_seq, lemma_split_rec_ascii, lemma_split_rec_consume,
    lemma_split_rec_flush, lemma_split_words_wf, split_rec, split_words, wf_word};

verus! {

/// The word list of a stem, in lowercase: the stem's segmentation, with
/// the casing differences between conventions normalised away.
pub open spec fn norm_words(s: Seq<char>) -> Seq<Seq<char>> {
    split_words(s).map_values(|w: Seq<char>| lower_word(w))
}

/// How one convention re-cases one word; `first` marks the stem's first
/// word, which camelCase lowers and Sentence case capitalises.
pub open spec fn cased_word(c: NamingConvention, first: bool, w: Seq<char>) -> Seq<char> {
    match c {
        NamingConvention::Camel => if first {
            lower_word(w)
        } else {
            cap_word(w)
        },
        NamingConvention::Kebab => lower_word(w),
        NamingConvention::Lower => w,
        NamingConvention::Pascal => cap_word(w),
        NamingConvention::ScreamingSnake => upper_word(w),
        NamingConvention::Sentence => if first {
            cap_word(w)
        } else {
            lower_word(w)
        },
        NamingConvention::Snake => lower_word(w),
        NamingConvention::Title => cap_word(w),
        NamingConvention::Train => cap_word(w),
    }
}

/// Uppercasing this word introduces no new word boundary: no ASCII
/// letter of it follows a non-letter word character.  In a well-formed
/// word a letter cannot follow a digit, so only a letter right after a
/// non-ASCII character breaks this — every all-ASCII word qualifies.
pub open spec fn screaming_stable_word(w: Seq<char>) -> bool {
    forall|i: int|
        1 <= i < w.len() ==> ((is_upper(#[trigger] w[i]) || is_lower(w[i])) ==> (is_upper(
            w[i - 1],
        ) || is_lower(w[i - 1])))
}

/// Adjacent words survive being joined without a separator: once
/// re-cased, each word after the first must open a boundary against its
/// predecessor — it starts with an ASCII letter, whose capital opens a
/// word unless the predecessor was itself a single capitalised letter,
/// or it sits at a digit/letter transition.  `first_capped` says whether
/// the convention capitalises the stem's first word (PascalCase does,
/// camelCase lowers it).
pub open spec fn concat_joinable(ws: Seq<Seq<char>>, first_capped: bool) -> bool {
    forall|i: int|
        1 <= i < ws.len() ==> {
            ||| ((is_upper(#[trigger] ws[i][0]) || is_lower(ws[i][0])) && !(ws[i - 1].len() == 1
                && (is_upper(ws[i - 1][0]) || is_lower(ws[i - 1][0])) && (first_capped || i >= 2)))
            ||| is_digit(ws[i][0]) != is_digit(ws[i - 1][0])
        }
}

/// In a well-formed word, every character is a digit, or none is.
pub proof fn lemma_wf_word_digit_class(w: Seq<char>, i: int)
    requires
        wf_word(w),
        0 <= i < w.len(),
    ensures
        is_digit(w[i]) == is_digit(w[0]),
    decreases i,
{
    if i > 0 {
        lemma_wf_word_digit_class(w, i - 1);
        assert(!is_boundary(w[i - 1], w[i]));
    }
}

/// Lowercasing a word keeps it well formed and leaves no uppercase letter.
pub proof fn lemma_lower_word_wf(w: Seq<char>)
    requires
        wf_word(w),
    ensures
        wf_word(lower_word(w)),
        lower_word(w).len() == w.len(),
        forall|i: int| 0 <= i < w.len() ==> !is_upper(#[trigger] lower_word(w)[i]),
        forall|i: int|
            0 <= i < w.len() ==> is_digit(#[trigger] lower_word(w)[i]) == is_digit(w[i]),
{
    assert forall|i: int| 0 <= i < w.len() implies is_word_char(#[trigger] lower_word(w)[i])
        && !is_upper(lower_word(w)[i]) && is_digit(lower_word(w)[i]) == is_digit(w[i]) by {
        lemma_to_lower_class(w[i]);
    }
    assert forall|i: int| 0 < i < w.len() implies !is_boundary(
        lower_word(w)[i - 1],
        #[trigger] lower_word(w)[i],
    ) by {
        lemma_to_lower_class(w[i - 1]);
        lemma_to_lower_class(w[i]);
        assert(!is_boundary(w[i - 1], w[i]));
    }
}

/// Capitalising a word keeps it well formed; it starts with the
/// uppercased first character and continues in lowercase.
pub proof fn lemma_cap_word_wf(w: Seq<char>)
    requires
        wf_word(w),
    ensures
        wf_word(cap_word(w)),
        cap_word(w).len() == w.len(),
        cap_word(w)[0] == to_upper(w[0]),
        forall|i: int| 1 <= i < w.len() ==> #[trigger] cap_word(w)[i] == to_lower(w[i]),
        forall|i: int| 0 <= i < w.len() ==> is_digit(#[trigger] cap_word(w)[i]) == is_digit(w[i]),
{
    let cw = cap_word(w);
    assert(cw[0] == to_upper(w[0]));
    assert forall|i: int| 1 <= i < w.len() implies #[trigger] cw[i] == to_lower(w[i]) by {
        assert(cw[i] == lower_word(w.skip(1))[i - 1]);
        assert(w.skip(1)[i - 1] == w[i]);
    }
    assert forall|i: int| 0 <= i < w.len() implies is_word_char(#[trigger] cw[i]) && is_digit(
        cw[i],
    ) == is_digit(w[i]) by {
        if i == 0 {
            lemma_to_upper_class(w[0]);
        } else {
            lemma_to_lower_class(w[i]);
        }
    }
    assert forall|i: int| 0 < i < w.len() implies !is_boundary(cw[i - 1], #[trigger] cw[i]) by {
        assert(!is_boundary(w[i - 1], w[i]));
        lemma_to_lower_class(w[i]);
        if i == 1 {
            lemma_to_upper_class(w[0]);
        } else {
            lemma_to_lower_class(w[i - 1]);
        }
    }
}

/// Uppercasing a screaming-stable word keeps it well formed.
pub proof fn lemma_upper_word_wf(w: Seq<char>)
    requires
        wf_word(w),
        screaming_stable_word(w),
    ensures
        wf_word(upper_word(w)),
        upper_word(w).len() == w.len(),
        forall|i: int|
            0 <= i < w.len() ==> is_digit(#[trigger] upper_word(w)[i]) == is_digit(w[i]),
{
    let uw = upper_word(w);
    assert forall|i: int| 0 <= i < w.len() implies is_word_char(#[trigger] uw[i]) && is_digit(
        uw[i],
    ) == is_digit(w[i]) by {
        lemma_to_upper_class(w[i]);
    }
    assert forall|i: int| 0 < i < w.len() implies !is_boundary(uw[i - 1], #[trigger] uw[i]) by {
        assert(!is_boundary(w[i - 1], w[i]));
        lemma_to_upper_class(w[i - 1]);
        lemma_to_upper_class(w[i]);
        if is_upper(w[i]) || is_lower(w[i]) {
            assert(is_upper(w[i - 1]) || is_lower(w[i - 1]));
        }
    }
}

/// Lowercasing wipes out any prior re-casing of a word.
pub proof fn lemma_lower_of_cased(c: NamingConvention, first: bool, w: Seq<char>)
    requires
        w.len() > 0,
    ensures
        lower_word(cased_word(c, first, w)) == lower_word(w),
{
    let cw = cased_word(c, first, w);
    assert forall|i: int| 0 <= i < w.len() implies #[trigger] lower_word(cw)[i] == lower_word(
        w,
    )[i] by {
        if cw == lower_word(w) {
            lemma_to_lower_idempotent(w[i]);
        } else if cw == upper_word(w) {
            lemma_to_lower_to_upper(w[i]);
        } else if cw == cap_word(w) {
            if i == 0 {
                lemma_to_lower_to_upper(w[0]);
            } else {
                assert(cw[i] == lower_word(w.skip(1))[i - 1]);
                assert(w.skip(1)[i - 1] == w[i]);
                lemma_to_lower_idempotent(w[i]);
            }
        } else {
            lemma_to_lower_idempotent(w[i]);
        }
    }
    assert(lower_word(cw) =~= lower_word(w));
}

/// Re-casing a word a second time changes nothing.
pub proof fn lemma_cased_word_idempotent(c: NamingConvention, first: bool, w: Seq<char>)
    requires
        w.len() > 0,
    ensures
        cased_word(c, first, cased_word(c, first, w)) == cased_word(c, first, w),
{
    let cw = cased_word(c, first, w);
    if c == NamingConvention::Lower {
    } else {
        let twice = cased_word(c, first, cw);
        assert(cw.len() == w.len());
        assert forall|i: int| 0 <= i < cw.len() implies #[trigger] twice[i] == cw[i] by {
            if cw == lower_word(w) && twice == lower_word(cw) {
                lemma_to_lower_idempotent(w[i]);
            } else if cw == upper_word(w) && twice == upper_word(cw) {
                lemma_to_upper_idempotent(w[i]);
            } else {
                assert(cw == cap_word(w) && twice == cap_word(cw));
                if i == 0 {
                    assert(cw[0] == to_upper(w[0]));
                    assert(twice[0] == to_upper(cw[0]));
                    lemma_to_upper_idempotent(w[0]);
                } else {
                    assert(cw[i] == lower_word(w.skip(1))[i - 1]);
                    assert(w.skip(1)[i - 1] == w[i]);
                    assert(cw[i] == to_lower(w[i]));
                    assert(twice[i] == lower_word(cw.skip(1))[i - 1]);
                    assert(cw.skip(1)[i - 1] == cw[i]);
                    assert(twice[i] == to_lower(cw[i]));
                    lemma_to_lower_idempotent(w[i]);
                }
            }
        }
        assert(twice =~= cw);
    }
}

/// [`case_words`] re-cases each word in place: element `i` is the word
/// `ws[i]` cased as first word exactly when `i` is 0.
pub proof fn lemma_case_words_index(c: NamingConvention, ws: Seq<Seq<char>>, i: int)
    requires
        0 <= i < ws.len(),
    ensures
        case_words(c, ws).len() == ws.len(),
        case_words(c, ws)[i] == cased_word(c, i == 0, ws[i]),
{
    if c == NamingConvention::Camel {
        if i > 0 {
            assert(case_words(c, ws)[i] == ws.skip(1).map_values(|w: Seq<char>| cap_word(w))[i
                - 1]);
            assert(ws.skip(1)[i - 1] == ws[i]);
        }
    } else if c == NamingConvention::Sentence {
        if i > 0 {
            assert(case_words(c, ws)[i] == ws.skip(1).map_values(|w: Seq<char>| lower_word(w))[i
                - 1]);
            assert(ws.skip(1)[i - 1] == ws[i]);
        }
    }
}

/// One word cased by one convention is still a well-formed word.
pub proof fn lemma_cased_word_wf(c: NamingConvention, first: bool, w: Seq<char>)
    requires
        wf_word(w),
        c == NamingConvention::ScreamingSnake ==> screaming_stable_word(w),
    ensures
        wf_word(cased_word(c, first, w)),
        cased_word(c, first, w).len() == w.len(),
        forall|i: int|
            0 <= i < w.len() ==> is_digit(#[trigger] cased_word(c, first, w)[i]) == is_digit(w[i]),
{
    let cw = cased_word(c, first, w);
    if c == NamingConvention::Lower {
    } else if cw == lower_word(w) && (c == NamingConvention::Kebab || c == NamingConvention::Snake
        || (c == NamingConvention::Camel && first) || (c == NamingConvention::Sentence && !first)) {
        lemma_lower_word_wf(w);
    } else if c == NamingConvention::ScreamingSnake {
        lemma_upper_word_wf(w);
    } else {
        lemma_cap_word_wf(w);
    }
}

/// Splitting the separator-joined image of well-formed words recovers
/// exactly those words.
pub proof fn lemma_split_join_sep(ws: Seq<Seq<char>>, sep: char)
    requires
        is_separator(sep),
        forall|i: int| 0 <= i < ws.len() ==> wf_word(#[trigger] ws[i]),
    ensures
        split_words(join_words(ws, seq![sep])) == ws,
    decreases ws.len(),
{
    if ws.len() == 0 {
        assert(split_words(join_words(ws, seq![sep])) =~= ws);
    } else if ws.len() == 1 {
        let w = ws[0];
        assert(wf_word(w));
        assert(Seq::<char>::empty() + w =~= w);
        lemma_split_rec_consume(w, Seq::<char>::empty(), Seq::<char>::empty());
        assert(w + Seq::<char>::empty() =~= w);
        assert(split_rec(Seq::<char>::empty(), w) == seq![w]);
        assert(seq![w] =~= ws);
    } else {
        let w = ws[0];
        let rest_join = join_words(ws.skip(1), seq![sep]);
        assert(wf_word(w));
        assert(join_words(ws, seq![sep]) == w + seq![sep] + rest_join);
        assert((w + seq![sep]) + rest_join =~= w + (seq![sep] + rest_join));
        assert(Seq::<char>::empty() + w =~= w);
        lemma_split_rec_consume(w, seq![sep] + rest_join, Seq::<char>::empty());
        lemma_split_rec_flush(rest_join, w, sep);
        assert forall|i: int| 0 <= i < ws.skip(1).len() implies wf_word(#[trigger] ws.skip(
            1,
        )[i]) by {
            assert(ws.skip(1)[i] == ws[i + 1]);
        }
        lemma_split_join_sep(ws.skip(1), sep);
        assert(seq![w] + ws.skip(1) =~= ws);
    }
}

/// Splitting the concatenation of well-formed words, each opening with a
/// boundary against its predecessor, recovers exactly those words: the
/// helper walks the tail with the first word already accumulated.
pub proof fn lemma_split_concat_rec(ws: Seq<Seq<char>>)
    requires
        ws.len() >= 1,
        forall|i: int| 0 <= i < ws.len() ==> wf_word(#[trigger] ws[i]),
        forall|i: int| 1 <= i < ws.len() ==> is_boundary(ws[i - 1].last(), #[trigger] ws[i][0]),
    ensures
        split_rec(join_words(ws.skip(1), Seq::<char>::empty()), ws[0]) == ws,
    decreases ws.len(),
{
    if ws.len() == 1 {
        assert(ws.skip(1).len() == 0);
        assert(split_rec(Seq::<char>::empty(), ws[0]) == seq![ws[0]]);
        assert(seq![ws[0]] =~= ws);
    } else {
        let w1 = ws[1];
        assert(ws.skip(1)[0] == w1);
        let tail = join_words(ws.skip(1).skip(1), Seq::<char>::empty());
        assert(join_words(ws.skip(1), Seq::<char>::empty()) =~= w1 + tail) by {
            if ws.skip(1).len() == 1 {
                assert(tail =~= Seq::<char>::empty());
                assert(w1 + tail =~= w1);
            } else {
                assert(join_words(ws.skip(1), Seq::<char>::empty()) == ws.skip(1)[0]
                    + Seq::<char>::empty() + join_words(ws.skip(1).skip(1), Seq::<char>::empty()));
                assert(w1 + Seq::<char>::empty() =~= w1);
                assert((w1 + Seq::<char>::empty()) + tail =~= w1 + tail);
            }
        }
        assert(wf_word(w1));
        assert((w1 + tail)[0] == w1[0]);
        assert(is_word_char(w1[0]));
        assert(is_boundary(ws[0].last(), w1[0]));
        assert(ws[0].len() > 0);
        assert(split_rec(w1 + tail, ws[0]) == seq![ws[0]] + split_rec(
            (w1 + tail).skip(1),
            seq![w1[0]],
        ));
        assert((w1 + tail).skip(1) =~= w1.skip(1) + tail);
        assert(seq![w1[0]] + w1.skip(1) =~= w1);
        lemma_split_rec_consume(w1.skip(1), tail, seq![w1[0]]);
        assert forall|i: int| 0 <= i < ws.skip(1).len() implies wf_word(#[trigger] ws.skip(
            1,
        )[i]) by {
            assert(ws.skip(1)[i] == ws[i + 1]);
        }
        assert forall|i: int| 1 <= i < ws.skip(1).len() implies is_boundary(
            ws.skip(1)[i - 1].last(),
            #[trigger] ws.skip(1)[i][0],
        ) by {
            assert(ws.skip(1)[i] == ws[i + 1]);
            assert(ws.skip(1)[i - 1] == ws[i]);
        }
        lemma_split_concat_rec(ws.skip(1));
        assert(seq![ws[0]] + ws.skip(1) =~= ws);
    }
}

/// Splitting the concatenation of such words recovers exactly those words.
pub proof fn lemma_split_concat(ws: Seq<Seq<char>>)
    requires
        forall|i: int| 0 <= i < ws.len() ==> wf_word(#[trigger] ws[i]),
        forall|i: int| 1 <= i < ws.len() ==> is_boundary(ws[i - 1].last(), #[trigger] ws[i][0]),
    ensures
        split_words(join_words(ws, Seq::<char>::empty())) == ws,
{
    if ws.len() == 0 {
        assert(split_words(join_words(ws, Seq::<char>::empty())) =~= ws);
    } else {
        let w = ws[0];
        assert(wf_word(w));
        let rest_join = join_words(ws.skip(1), Seq::<char>::empty());
        assert(join_words(ws, Seq::<char>::empty()) =~= w + rest_join) by {
            if ws.len() == 1 {
                assert(rest_join =~= Seq::<char>::empty());
                assert(w + rest_join =~= w);
            } else {
                assert(join_words(ws, Seq::<char>::empty()) == w + Seq::<char>::empty()
                    + rest_join);
                assert(w + Seq::<char>::empty() =~= w);
                assert((w + Seq::<char>::empty()) + rest_join =~= w + rest_join);
            }
        }
        assert(Seq::<char>::empty() + w =~= w);
        lemma_split_rec_consume(w, rest_join, Seq::<char>::empty());
        lemma_split_concat_rec(ws);
    }
}

/// Every word of the stem is screaming-stable; true of every stem whose
/// word characters are all ASCII.
pub open spec fn stable_words(s: Seq<char>) -> bool {
    forall|i: int|
        0 <= i < split_words(s).len() ==> screaming_stable_word(#[trigger] split_words(s)[i])
}

/// An all-ASCII stem has only stable words: in a well-formed ASCII word
/// a letter can follow nothing but a letter, since a digit before it
/// would be a boundary and a separator could not be in the word at all.
pub proof fn lemma_ascii_stem_stable(s: Seq<char>)
    requires
        ascii_seq(s),
    ensures
        stable_words(s),
{
    lemma_split_words_wf(s);
    lemma_split_rec_ascii(s, Seq::empty());
    assert forall|i: int| 0 <= i < split_words(s).len() implies screaming_stable_word(
        #[trigger] split_words(s)[i],
    ) by {
        let w = split_words(s)[i];
        assert(wf_word(w));
        assert(ascii_seq(w));
        assert forall|k: int|
            1 <= k < w.len() && (is_upper(#[trigger] w[k]) || is_lower(w[k])) implies (is_upper(
            w[k - 1],
        ) || is_lower(w[k - 1])) by {
            assert(is_word_char(w[k - 1]));
            assert((w[k - 1] as u32) < 128);
            if is_digit(w[k - 1]) {
                assert(is_boundary(w[k - 1], w[k]));
                assert(false);
            }
        }
    }
}

/// The stems on which a convention's transform keeps the word
/// segmentation (and, applied twice, is idempotent).  The five transforms
/// that separate re-cased words with an explicit separator qualify on
/// every stem; SCREAMING_SNAKE_CASE on every stem with [`stable_words`]
/// (all ASCII stems among them); camelCase and PascalCase only where the
/// re-cased words still abut at boundaries, as [`concat_joinable`] states.
pub open spec fn transform_ok(c: NamingConvention, s: Seq<char>) -> bool {
    &&& c != NamingConvention::Lower
    &&& (c == NamingConvention::ScreamingSnake ==> stable_words(s))
    &&& ((c == NamingConvention::Camel || c == NamingConvention::Pascal) ==> concat_joinable(
        split_words(s),
        c == NamingConvention::Pascal,
    ))
}

/// The central law: splitting a transformed stem recovers exactly the
/// re-cased words of the original stem.
pub proof fn lemma_split_of_transform(c: NamingConvention, s: Seq<char>)
    requires
        transform_ok(c, s),
    ensures
        split_words(transform_stem(c, s)) == case_words(c, split_words(s)),
{
    let ws = split_words(s);
    let cased = case_words(c, ws);
    lemma_split_words_wf(s);
    if ws.len() > 0 {
        lemma_case_words_index(c, ws, 0);
    }
    assert(cased.len() == ws.len());
    assert forall|i: int| 0 <= i < cased.len() implies wf_word(#[trigger] cased[i]) by {
        lemma_case_words_index(c, ws, i);
        lemma_cased_word_wf(c, i == 0, ws[i]);
    }
    if c == NamingConvention::Camel || c == NamingConvention::Pascal {
        assert forall|i: int| 1 <= i < cased.len() implies is_boundary(
            cased[i - 1].last(),
            #[trigger] cased[i][0],
        ) by {
            lemma_case_words_index(c, ws, i);
            lemma_case_words_index(c, ws, i - 1);
            lemma_cased_word_wf(c, i - 1 == 0, ws[i - 1]);
            lemma_cap_word_wf(ws[i]);
            assert(cased[i] == cap_word(ws[i]));
            assert(cased[i][0] == to_upper(ws[i][0]));
            lemma_to_upper_class(ws[i][0]);
            let prev = cased[i - 1];
            let pw = ws[i - 1];
            assert(prev.last() == prev[prev.len() - 1]);
            assert(is_digit(prev[prev.len() - 1]) == is_digit(pw[pw.len() - 1]));
            lemma_wf_word_digit_class(pw, pw.len() - 1);
            assert(is_digit(prev.last()) == is_digit(pw[0]));
            assert(is_word_char(prev.last()));
            let letter_start = is_upper(ws[i][0]) || is_lower(ws[i][0]);
            let prev_single_capital = pw.len() == 1 && (is_upper(pw[0]) || is_lower(pw[0])) && (c
                == NamingConvention::Pascal || i >= 2);
            if letter_start && !prev_single_capital {
                assert(is_upper(cased[i][0]));
                // The predecessor's re-cased last character is not an
                // uppercase letter, so the capital opens a word.
                if prev == lower_word(pw) {
                    lemma_lower_word_wf(pw);
                    assert(!is_upper(prev.last()));
                } else {
                    assert(prev == cap_word(pw));
                    if pw.len() == 1 {
                        assert(prev.last() == to_upper(pw[0]));
                        lemma_to_upper_class(pw[0]);
                        assert(!(is_upper(pw[0]) || is_lower(pw[0])));
                        assert(!is_upper(prev.last()));
                    } else {
                        lemma_cap_word_wf(pw);
                        assert(prev[prev.len() - 1] == to_lower(pw[pw.len() - 1]));
                        lemma_to_lower_class(pw[pw.len() - 1]);
                        assert(!is_upper(prev.last()));
                    }
                }
            } else {
                assert(is_digit(ws[i][0]) != is_digit(pw[0]));
                assert(is_digit(cased[i][0]) == is_digit(ws[i][0]));
                assert(is_word_char(cased[i][0]));
            }
        }
        lemma_split_concat(cased);
        assert(separator_of(c) =~= Seq::<char>::empty());
    } else {
        let sep: char = if c == NamingConvention::Snake || c == NamingConvention::ScreamingSnake {
            '_'
        } else if c == NamingConvention::Kebab || c == NamingConvention::Train {
            '-'
        } else {
            ' '
        };
        assert(is_separator(sep));
        assert(separator_of(c) =~= seq![sep]);
        lemma_split_join_sep(cased, sep);
    }
}

/// Converting a stem that was already converted to the same convention
/// changes nothing: every transform is idempotent on its
/// [`transform_ok`] stems, and plain lowercasing on every stem.
pub proof fn lemma_transform_stem_idempotent(c: NamingConvention, s: Seq<char>)
    requires
        c == NamingConvention::Lower || transform_ok(c, s),
    ensures
        transform_stem(c, transform_stem(c, s)) == transform_stem(c, s),
{
    if c == NamingConvention::Lower {
        let t = lower_word(s);
        assert forall|i: int| 0 <= i < s.len() implies #[trigger] lower_word(t)[i] == t[i] by {
            lemma_to_lower_idempotent(s[i]);
        }
        assert(lower_word(t) =~= t);
    } else {
        lemma_split_of_transform(c, s);
        let ws = split_words(s);
        let cased = case_words(c, ws);
        let t = transform_stem(c, s);
        lemma_split_words_wf(s);
        if ws.len() > 0 {
            lemma_case_words_index(c, ws, 0);
        }
        assert(cased.len() == ws.len());
        if cased.len() > 0 {
            lemma_case_words_index(c, cased, 0);
        }
        assert forall|i: int| 0 <= i < cased.len() implies #[trigger] case_words(c, cased)[i]
            == cased[i] by {
            lemma_case_words_index(c, cased, i);
            lemma_case_words_index(c, ws, i);
            assert(ws[i].len() > 0);
            lemma_cased_word_idempotent(c, i == 0, ws[i]);
        }
        assert(case_words(c, cased) =~= cased);
        assert(transform_stem(c, t) == join_words(case_words(c, split_words(t)), separator_of(c)));
    }
}

/// Converting a stem keeps its word segmentation: the words of the
/// transformed stem, lowercased, are the words of the original stem,
/// lowercased.
pub proof fn lemma_transform_preserves_words(c: NamingConvention, s: Seq<char>)
    requires
        transform_ok(c, s),
    ensures
        norm_words(transform_stem(c, s)) == norm_words(s),
{
    lemma_split_of_transform(c, s);
    let ws = split_words(s);
    let cased = case_words(c, ws);
    lemma_split_words_wf(s);
    if ws.len() > 0 {
        lemma_case_words_index(c, ws, 0);
    }
    assert(cased.len() == ws.len());
    assert forall|i: int| 0 <= i < ws.len() implies lower_word(#[trigger] cased[i]) == lower_word(
        ws[i],
    ) by {
        lemma_case_words_index(c, ws, i);
        assert(ws[i].len() > 0);
        lemma_lower_of_cased(c, i == 0, ws[i]);
    }
    assert(cased.map_values(|w: Seq<char>| lower_word(w)) =~= ws.map_values(
        |w: Seq<char>| lower_word(w),
    ));
}

/// Casing a word keeps its characters word characters.
pub proof fn lemma_cased_word_chars(c: NamingConvention, first: bool, w: Seq<char>)
    requires
        all_word_chars(w),
    ensures
        cased_word(c, first, w).len() == w.len(),
        all_word_chars(cased_word(c, first, w)),
{
    let cw = cased_word(c, first, w);
    assert forall|i: int| 0 <= i < cw.len() implies is_word_char(#[trigger] cw[i]) by {
        if cw == w {
        } else if cw == lower_word(w) {
            lemma_to_lower_class(w[i]);
        } else if cw == upper_word(w) {
            lemma_to_upper_class(w[i]);
        } else {
            assert(cw == cap_word(w));
            if i == 0 {
                lemma_to_upper_class(w[0]);
            } else {
                assert(cw[i] == lower_word(w.skip(1))[i - 1]);
                assert(w.skip(1)[i - 1] == w[i]);
                lemma_to_lower_class(w[i]);
            }
        }
    }
}

/// A word's casing under any convention but "lower case" depends only on
/// the word's lowercased form.
pub proof fn lemma_cased_of_lower(c: NamingConvention, first: bool, w: Seq<char>)
    requires
        c != NamingConvention::Lower,
    ensures
        cased_word(c, first, lower_word(w)) == cased_word(c, first, w),
{
    let lw = lower_word(w);
    let left = cased_word(c, first, lw);
    let right = cased_word(c, first, w);
    assert(lw.len() == w.len());
    assert forall|i: int| 0 <= i < w.len() implies #[trigger] left[i] == right[i] by {
        if left == lower_word(lw) && right == lower_word(w) {
            lemma_to_lower_idempotent(w[i]);
        } else if left == upper_word(lw) && right == upper_word(w) {
            lemma_to_upper_to_lower(w[i]);
        } else {
            assert(left == cap_word(lw) && right == cap_word(w));
            if i == 0 {
                assert(left[0] == to_upper(lw[0]));
                assert(lw[0] == to_lower(w[0]));
                lemma_to_upper_to_lower(w[0]);
            } else {
                assert(left[i] == lower_word(lw.skip(1))[i - 1]);
                assert(lw.skip(1)[i - 1] == lw[i]);
                assert(right[i] == lower_word(w.skip(1))[i - 1]);
                assert(w.skip(1)[i - 1] == w[i]);
                lemma_to_lower_idempotent(w[i]);
            }
        }
    }
    assert(left =~= right);
}

/// The conventions that join with an explicit separator and keep the
/// segmentation on every stem.
pub open spec fn separator_convention(c: NamingConvention) -> bool {
    ||| c == NamingConvention::Snake
    ||| c == NamingConvention::Kebab
    ||| c == NamingConvention::Sentence
    ||| c == NamingConvention::Title
    ||| c == NamingConvention::Train
}

/// Re-casing a word maps ASCII letters to ASCII letters and fixes
/// everything else, so a screaming-stable word stays screaming-stable.
pub proof fn lemma_stable_cased(c: NamingConvention, first: bool, w: Seq<char>)
    requires
        screaming_stable_word(w),
    ensures
        screaming_stable_word(cased_word(c, first, w)),
{
    let cw = cased_word(c, first, w);
    if c == NamingConvention::Lower {
    } else {
        assert(cw.len() == w.len());
        assert forall|i: int| 0 <= i < w.len() implies (is_upper(#[trigger] cw[i]) || is_lower(
            cw[i],
        )) == (is_upper(w[i]) || is_lower(w[i])) by {
            if cw == lower_word(w) {
                lemma_to_lower_class(w[i]);
            } else if cw == upper_word(w) {
                lemma_to_upper_class(w[i]);
            } else {
                assert(cw == cap_word(w));
                if i == 0 {
                    lemma_to_upper_class(w[0]);
                } else {
                    assert(cw[i] == lower_word(w.skip(1))[i - 1]);
                    assert(w.skip(1)[i - 1] == w[i]);
                    lemma_to_lower_class(w[i]);
                }
            }
        }
    }
}

/// The conventions the round trip below covers: those with an explicit
/// separator, on every stem, and SCREAMING_SNAKE_CASE on stable stems.
pub open spec fn round_trip_convention(c: NamingConvention) -> bool {
    separator_convention(c) || c == NamingConvention::ScreamingSnake
}

/// Round trip: converting a stem to convention `a`, then to `b`, then
/// back to `a` yields the word segmentation of the first conversion —
/// word boundaries are convention-invariant, though separator and casing
/// differ between the intermediate forms.  Indeed the third conversion
/// restores the first conversion's form exactly.
pub proof fn lemma_round_trip_segmentation(
    a: NamingConvention,
    b: NamingConvention,
    s: Seq<char>,
)
    requires
        round_trip_convention(a),
        round_trip_convention(b),
        (a == NamingConvention::ScreamingSnake || b == NamingConvention::ScreamingSnake)
            ==> stable_words(s),
    ensures
        norm_words(transform_stem(a, transform_stem(b, transform_stem(a, s)))) == norm_words(s),
        transform_stem(a, transform_stem(b, transform_stem(a, s))) == transform_stem(a, s),
{
    let ws0 = split_words(s);
    lemma_split_words_wf(s);
    assert(transform_ok(a, s));
    lemma_transform_preserves_words(a, s);
    lemma_split_of_transform(a, s);
    if b == NamingConvention::ScreamingSnake || a == NamingConvention::ScreamingSnake {
        assert(stable_words(transform_stem(a, s))) by {
            let ca0 = case_words(a, ws0);
            if ws0.len() > 0 {
                lemma_case_words_index(a, ws0, 0);
            }
            assert forall|i: int| 0 <= i < ca0.len() implies screaming_stable_word(
                #[trigger] ca0[i],
            ) by {
                lemma_case_words_index(a, ws0, i);
                lemma_stable_cased(a, i == 0, ws0[i]);
            }
        }
    }
    assert(transform_ok(b, transform_stem(a, s)));
    lemma_transform_preserves_words(b, transform_stem(a, s));
    lemma_split_of_transform(b, transform_stem(a, s));
    if a == NamingConvention::ScreamingSnake {
        assert(stable_words(transform_stem(b, transform_stem(a, s)))) by {
            let ca0 = case_words(a, ws0);
            let cb0 = case_words(b, ca0);
            if ws0.len() > 0 {
                lemma_case_words_index(a, ws0, 0);
                lemma_case_words_index(b, ca0, 0);
            }
            assert forall|i: int| 0 <= i < cb0.len() implies screaming_stable_word(
                #[trigger] cb0[i],
            ) by {
                lemma_case_words_index(a, ws0, i);
                lemma_case_words_index(b, ca0, i);
                lemma_stable_cased(a, i == 0, ws0[i]);
                lemma_stable_cased(b, i == 0, ca0[i]);
            }
        }
    }
    assert(transform_ok(a, transform_stem(b, transform_stem(a, s))));
    lemma_transform_preserves_words(a, transform_stem(b, transform_stem(a, s)));
    let t1 = transform_stem(a, s);
    let t2 = transform_stem(b, t1);
    lemma_split_of_transform(a, s);
    lemma_split_of_transform(b, t1);
    let ws = split_words(s);
    let ca = case_words(a, ws);
    let cb = case_words(b, ca);
    lemma_split_words_wf(t1);
    if ws.len() > 0 {
        lemma_case_words_index(a, ws, 0);
        lemma_case_words_index(b, ca, 0);
    }
    assert(ca.len() == ws.len());
    assert(cb.len() == ws.len());
    if cb.len() > 0 {
        lemma_case_words_index(a, cb, 0);
        lemma_case_words_index(a, ca, 0);
    }
    assert forall|i: int| 0 <= i < cb.len() implies #[trigger] case_words(a, cb)[i] == ca[i] by {
        lemma_case_words_index(a, cb, i);
        lemma_case_words_index(b, ca, i);
        lemma_case_words_index(a, ws, i);
        assert(wf_word(ca[i]));
        lemma_lower_of_cased(b, i == 0, ca[i]);
        lemma_cased_of_lower(a, i == 0, cb[i]);
        lemma_cased_of_lower(a, i == 0, ca[i]);
        assert(lower_word(cb[i]) == lower_word(ca[i]));
        assert(cased_word(a, i == 0, cb[i]) == cased_word(a, i == 0, lower_word(cb[i])));
        assert(cased_word(a, i == 0, ca[i]) == cased_word(a, i == 0, lower_word(ca[i])));
    }
    assert(case_words(a, cb) =~= ca);
    assert(transform_stem(a, t2) == join_words(case_words(a, split_words(t2)), separator_of(a)));
    assert(t1 == join_words(ca, separator_of(a)));
}

/// No character of a join is a `.` when no word or separator character is.
pub proof fn lemma_join_no_dot(ws: Seq<Seq<char>>, sep: Seq<char>)
    requires
        forall|i: int| 0 <= i < ws.len() ==> all_word_chars(#[trigger] ws[i]),
        forall|k: int| 0 <= k < sep.len() ==> #[trigger] sep[k] != '.',
    ensures
        forall|k: int|
            0 <= k < join_words(ws, sep).len() ==> #[trigger] join_words(ws, sep)[k] != '.',
    decreases ws.len(),
{
    if ws.len() == 0 {
    } else if ws.len() == 1 {
        assert forall|k: int| 0 <= k < ws[0].len() implies #[trigger] ws[0][k] != '.' by {
            assert(is_word_char(ws[0][k]));
        }
    } else {
        let j = join_words(ws, sep);
        let rest = join_words(ws.skip(1), sep);
        assert forall|i: int| 0 <= i < ws.skip(1).len() implies all_word_chars(
            #[trigger] ws.skip(1)[i],
        ) by {
            assert(ws.skip(1)[i] == ws[i + 1]);
        }
        lemma_join_no_dot(ws.skip(1), sep);
        assert forall|k: int| 0 <= k < j.len() implies #[trigger] j[k] != '.' by {
            assert(j == (ws[0] + sep) + rest);
            if k < ws[0].len() {
                assert(j[k] == ws[0][k]);
                assert(is_word_char(ws[0][k]));
            } else if k < ws[0].len() + sep.len() {
                assert(j[k] == sep[k - ws[0].len()]);
            } else {
                assert(j[k] == rest[k - ws[0].len() - sep.len()]);
            }
        }
    }
}

/// A transformed stem contains no `.`: words hold only word characters,
/// and no convention separates with a dot.  (Plain lowercasing keeps the
/// stem's own dots and is treated apart.)
pub proof fn lemma_transform_no_dot(c: NamingConvention, s: Seq<char>)
    requires
        c != NamingConvention::Lower,
    ensures
        forall|k: int|
            0 <= k < transform_stem(c, s).len() ==> #[trigger] transform_stem(c, s)[k] != '.',
{
    let ws = split_words(s);
    let cased = case_words(c, ws);
    lemma_split_words_wf(s);
    assert forall|i: int| 0 <= i < cased.len() implies all_word_chars(#[trigger] cased[i]) by {
        if ws.len() > 0 {
            lemma_case_words_index(c, ws, 0);
        }
        lemma_case_words_index(c, ws, i);
        lemma_cased_word_chars(c, i == 0, ws[i]);
    }
    let sep = separator_of(c);
    assert forall|k: int| 0 <= k < sep.len() implies #[trigger] sep[k] != '.' by {
        assert(sep[0] == '_' || sep[0] == '-' || sep[0] == ' ');
    }
    lemma_join_no_dot(cased, sep);
}

/// If `s[m]` is a `.` and no later character is, the last dot is at `m`.
pub proof fn lemma_last_dot_at(s: Seq<char>, m: int)
    requires
        0 <= m < s.len(),
        s[m] == '.',
        forall|j: int| m < j < s.len() ==> s[j] != '.',
    ensures
        last_dot(s) == Some(m),
    decreases s.len(),
{
    if m == s.len() - 1 {
    } else {
        assert(s[s.len() - 1] != '.');
        let t = s.take(s.len() - 1);
        assert(forall|j: int| 0 <= j < t.len() ==> t[j] == #[trigger] s[j]);
        lemma_last_dot_at(t, m);
    }
}

/// Converting a filename whose stem was already converted to the same
/// convention changes the stem no further: the stem component of the
/// converted name is a fixed point of the transform.
pub proof fn lemma_convert_stem_fixed(f: Seq<char>, c: NamingConvention)
    requires
        c == NamingConvention::Lower || transform_ok(c, stem_of(f)),
    ensures
        transform_stem(c, stem_of(convert_name(f, c))) == stem_of(convert_name(f, c)),
{
    let st = transform_stem(c, stem_of(f));
    let ext = extension_of(f);
    let out = convert_name(f, c);
    lemma_last_dot_correct(f);
    assert forall|k: int| 0 <= k < ext.len() implies #[trigger] ext[k] != '.' by {
        match last_dot(f) {
            Some(i) => {
                assert(ext[k] == f[i + 1 + k]);
            },
            None => {},
        }
    }
    lemma_transform_stem_idempotent(c, stem_of(f));
    if st.len() == 0 {
        assert(out == seq!['.'] + ext);
        assert(out[0] == '.');
        assert forall|j: int| 0 < j < out.len() implies out[j] != '.' by {
            assert(out[j] == ext[j - 1]);
        }
        lemma_last_dot_at(out, 0);
        assert(stem_of(out) =~= Seq::<char>::empty());
        lemma_transform_empty_stem(c);
        assert(transform_stem(c, stem_of(out)) =~= stem_of(out));
    } else if ext.len() == 0 {
        assert(out == st);
        if c == NamingConvention::Lower {
            // The output is lowercased throughout, so whatever prefix of it
            // the stem split keeps is already a fixed point of lowercasing.
            let so = stem_of(out);
            lemma_last_dot_correct(out);
            assert forall|k: int| 0 <= k < so.len() implies to_lower(#[trigger] so[k])
                == so[k] by {
                match last_dot(out) {
                    Some(i) => {
                        assert(so[k] == out[k]);
                    },
                    None => {},
                }
                assert(out[k] == to_lower(stem_of(f)[k]));
                lemma_to_lower_idempotent(stem_of(f)[k]);
            }
            assert(transform_stem(c, so) =~= so);
        } else {
            assert forall|k: int| 0 <= k < st.len() implies #[trigger] st[k] != '.' by {
                lemma_transform_no_dot(c, stem_of(f));
            }
            assert(last_dot(out) is None) by {
                lemma_last_dot_correct(out);
                match last_dot(out) {
                    Some(i) => {
                        assert(out[i] == '.');
                        assert(false);
                    },
                    None => {},
                }
            }
            assert(stem_of(out) == st);
        }
    } else {
        assert(out == st + seq!['.'] + ext);
        assert(out[st.len() as int] == '.');
        assert forall|j: int| st.len() < j < out.len() implies out[j] != '.' by {
            assert(out[j] == ext[j - st.len() - 1]);
        }
        lemma_last_dot_at(out, st.len() as int);
        assert(stem_of(out) =~= st);
    }
}

} // verus!

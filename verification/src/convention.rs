//! The nine naming conventions and the stem transformation each performs.
//!
//! Every convention except plain lowercasing re-cases the words produced by
//! the shared splitter and joins them with its own separator.  The "lower
//! case" convention lowercases the stem character by character, keeping its
//! structure.
use vstd::prelude::*;

use crate::chars::{to_lower, to_upper};
use crate::chars::{to_lower_char, to_upper_char};
use crate::words::{split_words, split_words_vec};

verus! {

/// The closed set of supported naming conventions.
#[derive(Clone, Copy, PartialEq, Eq, Structural, Debug)]
pub enum NamingConvention {
    Camel,
    Kebab,
    Lower,
    Pascal,
    ScreamingSnake,
    Sentence,
    Snake,
    Title,
    Train,
}

/// Lowercase every character of a word.
pub open spec fn lower_word(w: Seq<char>) -> Seq<char> {
    w.map_values(|c: char| to_lower(c))
}

/// Uppercase every character of a word.
pub open spec fn upper_word(w: Seq<char>) -> Seq<char> {
    w.map_values(|c: char| to_upper(c))
}

/// Uppercase the first character of a word and lowercase the rest.
pub open spec fn cap_word(w: Seq<char>) -> Seq<char> {
    if w.len() == 0 {
        w
    } else {
        seq![to_upper(w[0])] + lower_word(w.skip(1))
    }
}

/// Join words, placing `sep` between consecutive words.
pub open spec fn join_words(ws: Seq<Seq<char>>, sep: Seq<char>) -> Seq<char>
    decreases ws.len(),
{
    if ws.len() == 0 {
        Seq::empty()
    } else if ws.len() == 1 {
        ws[0]
    } else {
        ws[0] + sep + join_words(ws.skip(1), sep)
    }
}

/// The separator a convention joins words with.
pub open spec fn separator_of(c: NamingConvention) -> Seq<char> {
    match c {
        NamingConvention::Camel => Seq::empty(),
        NamingConvention::Kebab => seq!['-'],
        NamingConvention::Lower => Seq::empty(),
        NamingConvention::Pascal => Seq::empty(),
        NamingConvention::ScreamingSnake => seq!['_'],
        NamingConvention::Sentence => seq![' '],
        NamingConvention::Snake => seq!['_'],
        NamingConvention::Title => seq![' '],
        NamingConvention::Train => seq!['-'],
    }
}

/// How a convention re-cases the word list.
pub open spec fn case_words(c: NamingConvention, ws: Seq<Seq<char>>) -> Seq<Seq<char>> {
    match c {
        NamingConvention::Camel => {
            if ws.len() == 0 {
                ws
            } else {
                seq![lower_word(ws[0])] + ws.skip(1).map_values(|w: Seq<char>| cap_word(w))
            }
        },
        NamingConvention::Kebab => ws.map_values(|w: Seq<char>| lower_word(w)),
        NamingConvention::Lower => ws,
        NamingConvention::Pascal => ws.map_values(|w: Seq<char>| cap_word(w)),
        NamingConvention::ScreamingSnake => ws.map_values(|w: Seq<char>| upper_word(w)),
        NamingConvention::Sentence => {
            if ws.len() == 0 {
                ws
            } else {
                seq![cap_word(ws[0])] + ws.skip(1).map_values(|w: Seq<char>| lower_word(w))
            }
        },
        NamingConvention::Snake => ws.map_values(|w: Seq<char>| lower_word(w)),
        NamingConvention::Title => ws.map_values(|w: Seq<char>| cap_word(w)),
        NamingConvention::Train => ws.map_values(|w: Seq<char>| cap_word(w)),
    }
}

/// The full stem transformation of a convention: split into words, re-case,
/// and re-join — except "lower case", which lowercases the stem verbatim.
pub open spec fn transform_stem(c: NamingConvention, s: Seq<char>) -> Seq<char> {
    if c == NamingConvention::Lower {
        lower_word(s)
    } else {
        join_words(case_words(c, split_words(s)), separator_of(c))
    }
}

/// Appending one more word to a join.
pub proof fn lemma_join_push(ws: Seq<Seq<char>>, w: Seq<char>, sep: Seq<char>)
    ensures
        ws.len() == 0 ==> join_words(ws.push(w), sep) == w,
        ws.len() > 0 ==> join_words(ws.push(w), sep) == join_words(ws, sep) + sep + w,
    decreases ws.len(),
{
    if ws.len() == 0 {
        assert(ws.push(w)[0] == w);
    } else if ws.len() == 1 {
        assert(ws.push(w)[0] == ws[0]);
        assert(ws.push(w).skip(1) =~= seq![w]);
        assert(join_words(seq![w], sep) == w);
    } else {
        assert(ws.push(w)[0] == ws[0]);
        assert(ws.push(w).skip(1) =~= ws.skip(1).push(w));
        lemma_join_push(ws.skip(1), w, sep);
        assert((ws[0] + sep + (join_words(ws.skip(1), sep) + sep + w)) =~= ((ws[0] + sep
            + join_words(ws.skip(1), sep)) + sep + w));
    }
}

/// Executable lowercasing of a word.
pub fn lower_word_vec(w: &Vec<char>) -> (r: Vec<char>)
    ensures
        r@ == lower_word(w@),
{
    let mut r: Vec<char> = Vec::new();
    let mut i: usize = 0;
    while i < w.len()
        invariant
            i <= w.len(),
            r@ == w@.take(i as int).map_values(|c: char| to_lower(c)),
        decreases w.len() - i,
    {
        r.push(to_lower_char(w[i]));
        proof {
            assert(w@.take(i as int + 1) =~= w@.take(i as int).push(w@[i as int]));
            assert(w@.take(i as int + 1).map_values(|c: char| to_lower(c)) =~= w@.take(
                i as int,
            ).map_values(|c: char| to_lower(c)).push(to_lower(w@[i as int])));
        }
        i += 1;
    }
    proof {
        assert(w@.take(w@.len() as int) =~= w@);
    }
    r
}

/// Executable uppercasing of a word.
pub fn upper_word_vec(w: &Vec<char>) -> (r: Vec<char>)
    ensures
        r@ == upper_word(w@),
{
    let mut r: Vec<char> = Vec::new();
    let mut i: usize = 0;
    while i < w.len()
        invariant
            i <= w.len(),
            r@ == w@.take(i as int).map_values(|c: char| to_upper(c)),
        decreases w.len() - i,
    {
        r.push(to_upper_char(w[i]));
        proof {
            assert(w@.take(i as int + 1) =~= w@.take(i as int).push(w@[i as int]));
            assert(w@.take(i as int + 1).map_values(|c: char| to_upper(c)) =~= w@.take(
                i as int,
            ).map_values(|c: char| to_upper(c)).push(to_upper(w@[i as int])));
        }
        i += 1;
    }
    proof {
        assert(w@.take(w@.len() as int) =~= w@);
    }
    r
}

/// Executable capitalisation of a word.
pub fn cap_word_vec(w: &Vec<char>) -> (r: Vec<char>)
    ensures
        r@ == cap_word(w@),
{
    if w.len() == 0 {
        let r: Vec<char> = Vec::new();
        proof {
            assert(r@ =~= w@);
        }
        return r;
    }
    let mut r: Vec<char> = Vec::new();
    r.push(to_upper_char(w[0]));
    let mut i: usize = 1;
    while i < w.len()
        invariant
            1 <= i <= w.len(),
            w@.len() > 0,
            r@ == seq![to_upper(w@[0])] + w@.subrange(1, i as int).map_values(
                |c: char| to_lower(c),
            ),
        decreases w.len() - i,
    {
        r.push(to_lower_char(w[i]));
        proof {
            assert(w@.subrange(1, i as int + 1) =~= w@.subrange(1, i as int).push(w@[i as int]));
            assert(w@.subrange(1, i as int + 1).map_values(|c: char| to_lower(c)) =~= w@.subrange(
                1,
                i as int,
            ).map_values(|c: char| to_lower(c)).push(to_lower(w@[i as int])));
            assert(seq![to_upper(w@[0])] + w@.subrange(1, i as int).map_values(
                |c: char| to_lower(c),
            ).push(to_lower(w@[i as int])) =~= (seq![to_upper(w@[0])] + w@.subrange(
                1,
                i as int,
            ).map_values(|c: char| to_lower(c))).push(to_lower(w@[i as int])));
        }
        i += 1;
    }
    proof {
        assert(w@.subrange(1, w@.len() as int) =~= w@.skip(1));
    }
    r
}

/// Executable stem transformation; mirrors [`transform_stem`].
pub fn transform_stem_vec(stem: &Vec<char>, c: NamingConvention) -> (r: Vec<char>)
    ensures
        r@ == transform_stem(c, stem@),
{
    if c == NamingConvention::Lower {
        return lower_word_vec(stem);
    }
    let words = split_words_vec(stem);
    let ghost ws = stem@;
    let ghost cased = case_words(c, split_words(stem@));
    let mut out: Vec<char> = Vec::new();
    let mut i: usize = 0;
    proof {
        assert(words@.map_values(|w: Vec<char>| w@).len() == cased.len());
    }
    while i < words.len()
        invariant
            i <= words.len(),
            c != NamingConvention::Lower,
            words@.map_values(|w: Vec<char>| w@) == split_words(stem@),
            cased == case_words(c, split_words(stem@)),
            cased.len() == words.len(),
            out@ == join_words(cased.take(i as int), separator_of(c)),
        decreases words.len() - i,
    {
        let cw: Vec<char> = if c == NamingConvention::Snake || c == NamingConvention::Kebab {
            lower_word_vec(&words[i])
        } else if c == NamingConvention::ScreamingSnake {
            upper_word_vec(&words[i])
        } else if c == NamingConvention::Pascal || c == NamingConvention::Title || c
            == NamingConvention::Train {
            cap_word_vec(&words[i])
        } else if c == NamingConvention::Camel {
            if i == 0 {
                lower_word_vec(&words[i])
            } else {
                cap_word_vec(&words[i])
            }
        } else {
            // Sentence case
            if i == 0 {
                cap_word_vec(&words[i])
            } else {
                lower_word_vec(&words[i])
            }
        };
        proof {
            assert(words@.map_values(|w: Vec<char>| w@)[i as int] == words@[i as int]@);
            assert(cw@ == cased[i as int]) by {
                let sw = split_words(stem@);
                if c == NamingConvention::Camel || c == NamingConvention::Sentence {
                    if i > 0 {
                        assert(cased[i as int] == sw.skip(1).map_values(
                            |w: Seq<char>| cap_word(w),
                        )[i - 1] || cased[i as int] == sw.skip(1).map_values(
                            |w: Seq<char>| lower_word(w),
                        )[i - 1]);
                        assert(sw.skip(1)[i - 1] == sw[i as int]);
                    }
                }
            }
        }
        if i > 0 {
            let sep: Option<char> = if c == NamingConvention::Snake || c
                == NamingConvention::ScreamingSnake {
                Some('_')
            } else if c == NamingConvention::Kebab || c == NamingConvention::Train {
                Some('-')
            } else if c == NamingConvention::Sentence || c == NamingConvention::Title {
                Some(' ')
            } else {
                None
            };
            proof {
                match sep {
                    Some(ch) => assert(separator_of(c) =~= seq![ch]),
                    None => assert(separator_of(c) =~= Seq::<char>::empty()),
                }
            }
            if let Some(ch) = sep {
                out.push(ch);
            }
        }
        let ghost out_with_sep = out@;
        let mut j: usize = 0;
        while j < cw.len()
            invariant
                j <= cw.len(),
                out@ == out_with_sep + cw@.take(j as int),
            decreases cw.len() - j,
        {
            out.push(cw[j]);
            proof {
                assert(cw@.take(j as int + 1) =~= cw@.take(j as int).push(cw@[j as int]));
                assert(out_with_sep + cw@.take(j as int).push(cw@[j as int]) =~= (out_with_sep
                    + cw@.take(j as int)).push(cw@[j as int]));
            }
            j += 1;
        }
        proof {
            assert(cw@.take(cw@.len() as int) =~= cw@);
            lemma_join_push(cased.take(i as int), cased[i as int], separator_of(c));
            assert(cased.take(i as int).push(cased[i as int]) =~= cased.take(i as int + 1));
            if i == 0 {
                assert(out@ =~= cased[0]);
            } else {
                assert(out@ =~= (join_words(cased.take(i as int), separator_of(c)) + separator_of(
                    c,
                )) + cw@);
                assert((join_words(cased.take(i as int), separator_of(c)) + separator_of(c)) + cw@
                    =~= join_words(cased.take(i as int), separator_of(c)) + separator_of(c) + cw@);
            }
        }
        i += 1;
    }
    proof {
        assert(cased.take(cased.len() as int) =~= cased);
    }
    out
}

} // verus!

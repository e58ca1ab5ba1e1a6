//! Splitting a filename stem into words.
//!
//! All nine convention transforms share this single splitter, which cuts
//! at existing separators, at case changes and at digit/letter
//! transitions, so the transforms segment every stem alike.  A word is a
//! maximal run of word characters containing no boundary; separator
//! characters delimit words and are dropped.
use vstd::prelude::*;

use crate::chars::{is_boundary, is_separator, is_word_char};
use crate::chars::{is_boundary_chars, is_separator_char};

verus! {

/// Every character of `w` belongs to a word (no separators).
pub open spec fn all_word_chars(w: Seq<char>) -> bool {
    forall|i: int| 0 <= i < w.len() ==> is_word_char(#[trigger] w[i])
}

/// No two adjacent characters of `w` have a word boundary between them.
pub open spec fn no_internal_boundary(w: Seq<char>) -> bool {
    forall|i: int| 0 < i < w.len() ==> !is_boundary(w[i - 1], #[trigger] w[i])
}

/// A word as produced by the splitter: nonempty, made of word characters,
/// with no internal boundary.
pub open spec fn wf_word(w: Seq<char>) -> bool {
    w.len() > 0 && all_word_chars(w) && no_internal_boundary(w)
}

/// A word still being accumulated: like [`wf_word`] but possibly empty.
pub open spec fn wf_partial(w: Seq<char>) -> bool {
    all_word_chars(w) && no_internal_boundary(w)
}

/// Split the remaining input `s`, with `cur` the word accumulated so far.
pub open spec fn split_rec(s: Seq<char>, cur: Seq<char>) -> Seq<Seq<char>>
    decreases s.len(),
{
    if s.len() == 0 {
        if cur.len() == 0 {
            Seq::empty()
        } else {
            seq![cur]
        }
    } else if is_separator(s[0]) {
        if cur.len() == 0 {
            split_rec(s.skip(1), Seq::empty())
        } else {
            seq![cur] + split_rec(s.skip(1), Seq::empty())
        }
    } else if cur.len() > 0 && is_boundary(cur.last(), s[0]) {
        seq![cur] + split_rec(s.skip(1), seq![s[0]])
    } else {
        split_rec(s.skip(1), cur.push(s[0]))
    }
}

/// The words of a stem, in order.
pub open spec fn split_words(s: Seq<char>) -> Seq<Seq<char>> {
    split_rec(s, Seq::empty())
}

/// Executable splitter; returns the words of `s` as vectors of characters.
pub fn split_words_vec(s: &Vec<char>) -> (r: Vec<Vec<char>>)
    ensures
        r@.map_values(|w: Vec<char>| w@) == split_words(s@),
{
    let mut out: Vec<Vec<char>> = Vec::new();
    let mut cur: Vec<char> = Vec::new();
    let mut i: usize = 0;
    proof {
        assert(s@.skip(0) =~= s@);
        assert(out@.map_values(|w: Vec<char>| w@) + split_rec(s@, cur@) =~= split_rec(s@, cur@));
    }
    while i < s.len()
        invariant
            i <= s.len(),
            split_words(s@) == out@.map_values(|w: Vec<char>| w@) + split_rec(
                s@.skip(i as int),
                cur@,
            ),
        decreases s.len() - i,
    {
        let ghost rest = s@.skip(i as int);
        let ghost rest1 = s@.skip(i as int + 1);
        let c = s[i];
        proof {
            assert(rest[0] == s@[i as int]);
            assert(rest.skip(1) =~= rest1);
        }
        if is_separator_char(c) {
            if cur.len() > 0 {
                let ghost old_out = out@.map_values(|w: Vec<char>| w@);
                let ghost old_cur = cur@;
                out.push(cur);
                cur = Vec::new();
                proof {
                    assert(split_rec(rest, old_cur) == seq![old_cur] + split_rec(
                        rest1,
                        Seq::empty(),
                    ));
                    assert(out@.map_values(|w: Vec<char>| w@) =~= old_out + seq![old_cur]);
                    assert(cur@ =~= Seq::<char>::empty());
                    assert((old_out + seq![old_cur]) + split_rec(rest1, Seq::empty()) =~= old_out
                        + (seq![old_cur] + split_rec(rest1, Seq::empty())));
                }
            } else {
                proof {
                    assert(cur@ =~= Seq::<char>::empty());
                    assert(split_rec(rest, cur@) == split_rec(rest1, Seq::empty()));
                }
            }
        } else if cur.len() > 0 && is_boundary_chars(cur[cur.len() - 1], c) {
            let ghost old_out = out@.map_values(|w: Vec<char>| w@);
            let ghost old_cur = cur@;
            out.push(cur);
            cur = Vec::new();
            cur.push(c);
            proof {
                assert(old_cur.last() == old_cur[old_cur.len() - 1]);
                assert(split_rec(rest, old_cur) == seq![old_cur] + split_rec(rest1, seq![rest[0]]));
                assert(out@.map_values(|w: Vec<char>| w@) =~= old_out + seq![old_cur]);
                assert(cur@ =~= seq![rest[0]]);
                assert((old_out + seq![old_cur]) + split_rec(rest1, cur@) =~= old_out + (seq![
                    old_cur,
                ] + split_rec(rest1, cur@)));
            }
        } else {
            let ghost old_cur = cur@;
            cur.push(c);
            proof {
                assert(!(old_cur.len() > 0 && is_boundary(old_cur.last(), rest[0])));
                assert(split_rec(rest, old_cur) == split_rec(rest1, old_cur.push(rest[0])));
                assert(cur@ == old_cur.push(rest[0]));
            }
        }
        i += 1;
    }
    proof {
        assert(s@.skip(i as int) =~= Seq::<char>::empty());
    }
    if cur.len() > 0 {
        let ghost old_out = out@.map_values(|w: Vec<char>| w@);
        let ghost old_cur = cur@;
        out.push(cur);
        proof {
            assert(split_rec(Seq::empty(), old_cur) == seq![old_cur]);
            assert(out@.map_values(|w: Vec<char>| w@) =~= old_out + seq![old_cur]);
        }
    } else {
        proof {
            assert(split_rec(Seq::<char>::empty(), cur@) =~= Seq::<Seq<char>>::empty());
            assert(out@.map_values(|w: Vec<char>| w@) + Seq::<Seq<char>>::empty() =~= out@.map_values(
                |w: Vec<char>| w@,
            ));
        }
    }
    out
}

/// Every word the splitter produces is well formed.
pub proof fn lemma_split_rec_wf(s: Seq<char>, cur: Seq<char>)
    requires
        wf_partial(cur),
    ensures
        forall|i: int|
            0 <= i < split_rec(s, cur).len() ==> wf_word(#[trigger] split_rec(s, cur)[i]),
    decreases s.len(),
{
    if s.len() == 0 {
        if cur.len() > 0 {
            assert(split_rec(s, cur) == seq![cur]);
            assert(seq![cur][0] == cur);
        }
    } else if is_separator(s[0]) {
        lemma_split_rec_wf(s.skip(1), Seq::empty());
        if cur.len() > 0 {
            let r = split_rec(s.skip(1), Seq::empty());
            assert(split_rec(s, cur) == seq![cur] + r);
            assert forall|i: int| 0 <= i < (seq![cur] + r).len() implies wf_word(
                #[trigger] (seq![cur] + r)[i],
            ) by {
                if i == 0 {
                    assert((seq![cur] + r)[0] == cur);
                } else {
                    assert((seq![cur] + r)[i] == r[i - 1]);
                }
            }
        } else {
            assert(split_rec(s, cur) == split_rec(s.skip(1), Seq::empty()));
        }
    } else if cur.len() > 0 && is_boundary(cur.last(), s[0]) {
        assert(wf_partial(seq![s[0]])) by {
            assert(seq![s[0]][0] == s[0]);
        }
        lemma_split_rec_wf(s.skip(1), seq![s[0]]);
        let r = split_rec(s.skip(1), seq![s[0]]);
        assert(split_rec(s, cur) == seq![cur] + r);
        assert forall|i: int| 0 <= i < (seq![cur] + r).len() implies wf_word(
            #[trigger] (seq![cur] + r)[i],
        ) by {
            if i == 0 {
                assert((seq![cur] + r)[0] == cur);
            } else {
                assert((seq![cur] + r)[i] == r[i - 1]);
            }
        }
    } else {
        assert(wf_partial(cur.push(s[0]))) by {
            assert(forall|i: int| 0 <= i < cur.len() ==> cur.push(s[0])[i] == #[trigger] cur[i]);
            assert(cur.push(s[0])[cur.len() as int] == s[0]);
        }
        lemma_split_rec_wf(s.skip(1), cur.push(s[0]));
        assert(split_rec(s, cur) == split_rec(s.skip(1), cur.push(s[0])));
    }
}

/// Every word of [`split_words`] is well formed.
pub proof fn lemma_split_words_wf(s: Seq<char>)
    ensures
        forall|i: int|
            0 <= i < split_words(s).len() ==> wf_word(#[trigger] split_words(s)[i]),
{
    lemma_split_rec_wf(s, Seq::empty());
}

/// Feeding a boundary-free run of word characters to the splitter just
/// extends the word being accumulated.
#[verifier::rlimit(30)]
pub proof fn lemma_split_rec_consume(w: Seq<char>, rest: Seq<char>, cur: Seq<char>)
    requires
        wf_partial(cur + w),
    ensures
        split_rec(w + rest, cur) == split_rec(rest, cur + w),
    decreases w.len(),
{
    if w.len() == 0 {
        assert(w + rest =~= rest);
        assert(cur + w =~= cur);
    } else {
        let c = w[0];
        assert((cur + w)[cur.len() as int] == c);
        assert(is_word_char(c));
        assert(!is_separator(c));
        if cur.len() > 0 {
            assert((cur + w)[cur.len() - 1] == cur.last());
            assert(!is_boundary(cur.last(), c));
        }
        assert((w + rest)[0] == c);
        assert((w + rest).skip(1) =~= w.skip(1) + rest);
        assert(cur.push(c) + w.skip(1) =~= cur + w);
        lemma_split_rec_consume(w.skip(1), rest, cur.push(c));
    }
}

/// Every character of `s` is ASCII.
pub open spec fn ascii_seq(s: Seq<char>) -> bool {
    forall|i: int| 0 <= i < s.len() ==> ((#[trigger] s[i]) as u32) < 128
}

/// The splitter invents no characters: the words of an ASCII input are
/// ASCII words.
pub proof fn lemma_split_rec_ascii(s: Seq<char>, cur: Seq<char>)
    requires
        ascii_seq(s),
        ascii_seq(cur),
    ensures
        forall|i: int|
            0 <= i < split_rec(s, cur).len() ==> ascii_seq(#[trigger] split_rec(s, cur)[i]),
    decreases s.len(),
{
    if s.len() == 0 {
        if cur.len() > 0 {
            assert(split_rec(s, cur) == seq![cur]);
            assert(seq![cur][0] == cur);
        }
    } else {
        assert(ascii_seq(s.skip(1))) by {
            assert(forall|j: int| 0 <= j < s.skip(1).len() ==> #[trigger] s.skip(1)[j] == s[j + 1]);
        }
        if is_separator(s[0]) {
            lemma_split_rec_ascii(s.skip(1), Seq::empty());
            if cur.len() > 0 {
                let r = split_rec(s.skip(1), Seq::empty());
                assert(split_rec(s, cur) == seq![cur] + r);
                assert forall|i: int| 0 <= i < (seq![cur] + r).len() implies ascii_seq(
                    #[trigger] (seq![cur] + r)[i],
                ) by {
                    if i == 0 {
                        assert((seq![cur] + r)[0] == cur);
                    } else {
                        assert((seq![cur] + r)[i] == r[i - 1]);
                    }
                }
            } else {
                assert(split_rec(s, cur) == split_rec(s.skip(1), Seq::empty()));
            }
        } else if cur.len() > 0 && is_boundary(cur.last(), s[0]) {
            assert(ascii_seq(seq![s[0]])) by {
                assert(seq![s[0]][0] == s[0]);
            }
            lemma_split_rec_ascii(s.skip(1), seq![s[0]]);
            let r = split_rec(s.skip(1), seq![s[0]]);
            assert(split_rec(s, cur) == seq![cur] + r);
            assert forall|i: int| 0 <= i < (seq![cur] + r).len() implies ascii_seq(
                #[trigger] (seq![cur] + r)[i],
            ) by {
                if i == 0 {
                    assert((seq![cur] + r)[0] == cur);
                } else {
                    assert((seq![cur] + r)[i] == r[i - 1]);
                }
            }
        } else {
            assert(ascii_seq(cur.push(s[0]))) by {
                assert(forall|i: int|
                    0 <= i < cur.len() ==> cur.push(s[0])[i] == #[trigger] cur[i]);
                assert(cur.push(s[0])[cur.len() as int] == s[0]);
            }
            lemma_split_rec_ascii(s.skip(1), cur.push(s[0]));
            assert(split_rec(s, cur) == split_rec(s.skip(1), cur.push(s[0])));
        }
    }
}

/// A separator after an accumulated word flushes exactly that word.
pub proof fn lemma_split_rec_flush(rest: Seq<char>, cur: Seq<char>, sep: char)
    requires
        is_separator(sep),
        cur.len() > 0,
    ensures
        split_rec(seq![sep] + rest, cur) == seq![cur] + split_rec(rest, Seq::empty()),
{
    assert((seq![sep] + rest)[0] == sep);
    assert((seq![sep] + rest).skip(1) =~= rest);
}

} // verus!

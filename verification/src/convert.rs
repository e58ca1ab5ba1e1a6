//! Converting a filename to a naming convention.
//!
//! A filename is split into stem and extension on its last `.`; the stem is
//! transformed by the chosen convention; stem and extension are re-joined.
//! The extension is never invented or dropped, and only the stem changes.
use vstd::prelude::*;

use crate::convention::{case_words, join_words, lower_word, separator_of, transform_stem,
    transform_stem_vec, NamingConvention};
use crate::words::split_words;

verus! {

/// Why a conversion request was rejected.
#[derive(Clone, Copy, PartialEq, Eq, Structural, Debug)]
pub enum ConversionError {
    /// The input bytes were not valid text.
    InvalidEncoding,
    /// The requested convention is not in the supported set.
    UnknownConvention,
}

impl ConversionError {
    /// A short description of the error.
    pub open spec fn spec_message(self) -> Seq<char> {
        match self {
            ConversionError::InvalidEncoding => "couldn't convert file name to valid Unicode"@,
            ConversionError::UnknownConvention => "naming convention not found"@,
        }
    }

    /// Executable counterpart of [`ConversionError::spec_message`].
    pub fn message(&self) -> (r: &'static str)
        ensures
            r@ == self.spec_message(),
    {
        match self {
            ConversionError::InvalidEncoding => "couldn't convert file name to valid Unicode",
            ConversionError::UnknownConvention => "naming convention not found",
        }
    }
}

/// The position of the last `.` of `s`, if any.
pub open spec fn last_dot(s: Seq<char>) -> Option<int>
    decreases s.len(),
{
    if s.len() == 0 {
        None
    } else if s.last() == '.' {
        Some(s.len() - 1)
    } else {
        last_dot(s.take(s.len() - 1))
    }
}

/// The stem: everything before the last `.`, or the whole name if there is
/// no `.`.  A name that starts with its only `.` has an empty stem.
pub open spec fn stem_of(s: Seq<char>) -> Seq<char> {
    match last_dot(s) {
        None => s,
        Some(i) => s.take(i),
    }
}

/// The extension: everything after the last `.`, empty if there is no `.`.
pub open spec fn extension_of(s: Seq<char>) -> Seq<char> {
    match last_dot(s) {
        None => Seq::empty(),
        Some(i) => s.skip(i + 1),
    }
}

/// The converted filename: the transformed stem re-joined with the
/// untouched extension.  An empty transformed stem keeps the dotfile
/// shape `.extension`; an empty extension yields the stem alone.
pub open spec fn convert_name(name: Seq<char>, c: NamingConvention) -> Seq<char> {
    let st = transform_stem(c, stem_of(name));
    let ext = extension_of(name);
    if st.len() == 0 {
        seq!['.'] + ext
    } else if ext.len() == 0 {
        st
    } else {
        st + seq!['.'] + ext
    }
}

/// [`last_dot`] points at a `.`, and at the rightmost one: the split into
/// stem and extension happens on the last `.` only.
pub proof fn lemma_last_dot_correct(s: Seq<char>)
    ensures
        match last_dot(s) {
            Some(i) => 0 <= i < s.len() && s[i] == '.' && (forall|j: int|
                i < j < s.len() ==> s[j] != '.'),
            None => forall|j: int| 0 <= j < s.len() ==> s[j] != '.',
        },
    decreases s.len(),
{
    if s.len() == 0 {
    } else if s.last() == '.' {
    } else {
        let t = s.take(s.len() - 1);
        lemma_last_dot_correct(t);
        assert(forall|j: int| 0 <= j < t.len() ==> t[j] == #[trigger] s[j]);
        assert(s[s.len() - 1] != '.');
    }
}

/// Every convention transforms the empty stem to the empty stem.
pub proof fn lemma_transform_empty_stem(c: NamingConvention)
    ensures
        transform_stem(c, Seq::<char>::empty()).len() == 0,
{
    if c == NamingConvention::Lower {
        assert(lower_word(Seq::<char>::empty()).len() == 0);
    } else {
        assert(split_words(Seq::<char>::empty()) =~= Seq::<Seq<char>>::empty());
        assert(case_words(c, Seq::<Seq<char>>::empty()).len() == 0);
        assert(join_words(case_words(c, Seq::<Seq<char>>::empty()), separator_of(c)).len() == 0);
    }
}

/// A filename that is only an extension marker — its single leading `.`
/// is its last `.`, so its stem is empty — is preserved by every
/// convention: the result keeps the shape `"." + extension`, unchanged.
pub proof fn lemma_dotfile_preserved(name: Seq<char>, c: NamingConvention)
    requires
        last_dot(name) == Some(0int),
    ensures
        convert_name(name, c) == name,
{
    lemma_last_dot_correct(name);
    assert(name[0] == '.');
    assert(stem_of(name) =~= Seq::<char>::empty());
    lemma_transform_empty_stem(c);
    assert(extension_of(name) == name.skip(1));
    assert(convert_name(name, c) == seq!['.'] + name.skip(1));
    assert(seq!['.'] + name.skip(1) =~= name);
}

/// The characters of a string, as a vector.
pub fn str_to_chars(s: &str) -> (v: Vec<char>)
    ensures
        v@ == s@,
{
    let n = s.unicode_len();
    let mut v: Vec<char> = Vec::new();
    let mut i: usize = 0;
    while i < n
        invariant
            i <= n,
            n == s@.len(),
            v@ == s@.take(i as int),
        decreases n - i,
    {
        v.push(s.get_char(i));
        proof {
            assert(s@.take(i as int + 1) =~= s@.take(i as int).push(s@[i as int]));
        }
        i += 1;
    }
    proof {
        assert(s@.take(s@.len() as int) =~= s@);
    }
    v
}

/// Relies on `String::push`: appends exactly one character to the string.
#[verifier::external_body]
fn push_char(s: &mut String, c: char)
    ensures
        final(s)@ == old(s)@.push(c),
{
    s.push(c);
}

/// A string holding exactly the characters of `v`.
pub fn chars_to_string(v: &Vec<char>) -> (s: String)
    ensures
        s@ == v@,
{
    let mut s = String::new();
    let mut i: usize = 0;
    while i < v.len()
        invariant
            i <= v.len(),
            s@ == v@.take(i as int),
        decreases v.len() - i,
    {
        push_char(&mut s, v[i]);
        proof {
            assert(v@.take(i as int + 1) =~= v@.take(i as int).push(v@[i as int]));
        }
        i += 1;
    }
    proof {
        assert(v@.take(v@.len() as int) =~= v@);
    }
    s
}

/// Whether two strings hold the same characters.
pub fn str_eq(a: &str, b: &str) -> (r: bool)
    ensures
        r == (a@ == b@),
{
    let an = a.unicode_len();
    let bn = b.unicode_len();
    if an != bn {
        return false;
    }
    let mut i: usize = 0;
    while i < an
        invariant
            i <= an,
            an == a@.len(),
            an == b@.len(),
            forall|j: int| 0 <= j < i ==> a@[j] == b@[j],
        decreases an - i,
    {
        if a.get_char(i) != b.get_char(i) {
            return false;
        }
        i += 1;
    }
    proof {
        assert(a@ =~= b@);
    }
    true
}

/// The position of the last `.` of `v`, if any.
pub fn find_last_dot(v: &Vec<char>) -> (r: Option<usize>)
    ensures
        match r {
            Some(i) => last_dot(v@) == Some(i as int) && i < v@.len(),
            None => last_dot(v@) is None,
        },
{
    let mut i: usize = v.len();
    proof {
        assert(v@.take(v@.len() as int) =~= v@);
    }
    while i > 0
        invariant
            i <= v.len(),
            last_dot(v@) == last_dot(v@.take(i as int)),
        decreases i,
    {
        if v[i - 1] == '.' {
            proof {
                assert(v@.take(i as int).last() == v@[i - 1]);
            }
            return Some(i - 1);
        }
        proof {
            assert(v@.take(i as int).last() == v@[i - 1]);
            assert(v@.take(i as int).take(i as int - 1) =~= v@.take(i as int - 1));
        }
        i -= 1;
    }
    proof {
        assert(v@.take(0) =~= Seq::<char>::empty());
    }
    None
}

/// Convert one filename to the given convention.
pub fn apply_convention(filename: &str, c: NamingConvention) -> (r: String)
    ensures
        r@ == convert_name(filename@, c),
{
    let chars = str_to_chars(filename);
    let dot = find_last_dot(&chars);
    let mut stem: Vec<char> = Vec::new();
    let mut ext: Vec<char> = Vec::new();
    match dot {
        None => {
            let mut k: usize = 0;
            while k < chars.len()
                invariant
                    k <= chars.len(),
                    stem@ == chars@.take(k as int),
                decreases chars.len() - k,
            {
                stem.push(chars[k]);
                proof {
                    assert(chars@.take(k as int + 1) =~= chars@.take(k as int).push(
                        chars@[k as int],
                    ));
                }
                k += 1;
            }
            proof {
                assert(chars@.take(chars@.len() as int) =~= chars@);
                assert(stem@ == stem_of(filename@));
                assert(ext@ =~= extension_of(filename@));
            }
        },
        Some(i) => {
            let mut k: usize = 0;
            while k < i
                invariant
                    k <= i <= chars.len(),
                    stem@ == chars@.take(k as int).take(k as int),
                    stem@ == chars@.subrange(0, k as int),
                decreases i - k,
            {
                stem.push(chars[k]);
                proof {
                    assert(chars@.subrange(0, k as int + 1) =~= chars@.subrange(0, k as int).push(
                        chars@[k as int],
                    ));
                    assert(chars@.take(k as int + 1).take(k as int + 1) =~= chars@.subrange(
                        0,
                        k as int + 1,
                    ));
                }
                k += 1;
            }
            let mut k2: usize = i + 1;
            while k2 < chars.len()
                invariant
                    i + 1 <= k2 <= chars.len(),
                    ext@ == chars@.subrange(i as int + 1, k2 as int),
                decreases chars.len() - k2,
            {
                ext.push(chars[k2]);
                proof {
                    assert(chars@.subrange(i as int + 1, k2 as int + 1) =~= chars@.subrange(
                        i as int + 1,
                        k2 as int,
                    ).push(chars@[k2 as int]));
                }
                k2 += 1;
            }
            proof {
                assert(stem@ =~= chars@.take(i as int));
                assert(ext@ =~= chars@.skip(i as int + 1));
                assert(stem@ == stem_of(filename@));
                assert(ext@ == extension_of(filename@));
            }
        },
    }
    let new_stem = transform_stem_vec(&stem, c);
    let mut out: Vec<char> = Vec::new();
    if new_stem.len() == 0 {
        out.push('.');
        let mut k: usize = 0;
        while k < ext.len()
            invariant
                k <= ext.len(),
                out@ == seq!['.'] + ext@.take(k as int),
            decreases ext.len() - k,
        {
            out.push(ext[k]);
            proof {
                assert(ext@.take(k as int + 1) =~= ext@.take(k as int).push(ext@[k as int]));
                assert(seq!['.'] + ext@.take(k as int).push(ext@[k as int]) =~= (seq!['.']
                    + ext@.take(k as int)).push(ext@[k as int]));
            }
            k += 1;
        }
        proof {
            assert(ext@.take(ext@.len() as int) =~= ext@);
        }
    } else {
        let mut k: usize = 0;
        while k < new_stem.len()
            invariant
                k <= new_stem.len(),
                out@ == new_stem@.take(k as int),
            decreases new_stem.len() - k,
        {
            out.push(new_stem[k]);
            proof {
                assert(new_stem@.take(k as int + 1) =~= new_stem@.take(k as int).push(
                    new_stem@[k as int],
                ));
            }
            k += 1;
        }
        proof {
            assert(new_stem@.take(new_stem@.len() as int) =~= new_stem@);
        }
        if ext.len() > 0 {
            out.push('.');
            let ghost pre = out@;
            let mut k2: usize = 0;
            while k2 < ext.len()
                invariant
                    k2 <= ext.len(),
                    out@ == pre + ext@.take(k2 as int),
                decreases ext.len() - k2,
            {
                out.push(ext[k2]);
                proof {
                    assert(ext@.take(k2 as int + 1) =~= ext@.take(k2 as int).push(ext@[k2 as int]));
                    assert(pre + ext@.take(k2 as int).push(ext@[k2 as int]) =~= (pre + ext@.take(
                        k2 as int,
                    )).push(ext@[k2 as int]));
                }
                k2 += 1;
            }
            proof {
                assert(ext@.take(ext@.len() as int) =~= ext@);
                assert(pre =~= new_stem@.push('.'));
                assert(new_stem@.push('.') + ext@ =~= new_stem@ + seq!['.'] + ext@);
            }
        } else {
            proof {
                assert(out@ == convert_name(filename@, c));
            }
        }
    }
    chars_to_string(&out)
}

/// Which convention a convention name denotes, if any.
pub open spec fn convention_of_name(s: Seq<char>) -> Option<NamingConvention> {
    if s == "camelCase"@ {
        Some(NamingConvention::Camel)
    } else if s == "kebab-case"@ {
        Some(NamingConvention::Kebab)
    } else if s == "lower case"@ {
        Some(NamingConvention::Lower)
    } else if s == "PascalCase"@ {
        Some(NamingConvention::Pascal)
    } else if s == "SCREAMING_SNAKE_CASE"@ {
        Some(NamingConvention::ScreamingSnake)
    } else if s == "Sentence case"@ {
        Some(NamingConvention::Sentence)
    } else if s == "snake_case"@ {
        Some(NamingConvention::Snake)
    } else if s == "Title Case"@ {
        Some(NamingConvention::Title)
    } else if s == "Train-Case"@ {
        Some(NamingConvention::Train)
    } else {
        None
    }
}

/// Parse a convention name; unknown names are rejected.
pub fn parse_convention(name: &str) -> (r: Result<NamingConvention, ConversionError>)
    ensures
        match r {
            Ok(c) => convention_of_name(name@) == Some(c),
            Err(e) => convention_of_name(name@) is None && e
                == ConversionError::UnknownConvention,
        },
{
    if str_eq(name, "camelCase") {
        Ok(NamingConvention::Camel)
    } else if str_eq(name, "kebab-case") {
        Ok(NamingConvention::Kebab)
    } else if str_eq(name, "lower case") {
        Ok(NamingConvention::Lower)
    } else if str_eq(name, "PascalCase") {
        Ok(NamingConvention::Pascal)
    } else if str_eq(name, "SCREAMING_SNAKE_CASE") {
        Ok(NamingConvention::ScreamingSnake)
    } else if str_eq(name, "Sentence case") {
        Ok(NamingConvention::Sentence)
    } else if str_eq(name, "snake_case") {
        Ok(NamingConvention::Snake)
    } else if str_eq(name, "Title Case") {
        Ok(NamingConvention::Title)
    } else if str_eq(name, "Train-Case") {
        Ok(NamingConvention::Train)
    } else {
        Err(ConversionError::UnknownConvention)
    }
}

/// Convert a filename to the convention with the given name.  Returns the
/// converted name exactly when the convention name is recognised.
pub fn change_naming_convention(filename: &str, convention: &str) -> (r: Result<
    String,
    ConversionError,
>)
    ensures
        match r {
            Ok(s) => {
                &&& convention_of_name(convention@) matches Some(c)
                &&& s@ == convert_name(filename@, c)
            },
            Err(e) => {
                &&& convention_of_name(convention@) is None
                &&& e == ConversionError::UnknownConvention
            },
        },
{
    match parse_convention(convention) {
        Ok(c) => Ok(apply_convention(filename, c)),
        Err(e) => Err(e),
    }
}

/// Text mode: translate one line of text, reusing the filename conversion
/// verbatim (the same last-`.` split applies to the line).
pub fn translate_line(line: &str, convention: &str) -> (r: Result<String, ConversionError>)
    ensures
        match r {
            Ok(s) => {
                &&& convention_of_name(convention@) matches Some(c)
                &&& s@ == convert_name(line@, c)
            },
            Err(e) => {
                &&& convention_of_name(convention@) is None
                &&& e == ConversionError::UnknownConvention
            },
        },
{
    change_naming_convention(line, convention)
}

} // verus!

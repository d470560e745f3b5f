use vstd::prelude::*;

use crate::text::{
    ascii_uppercase, ascii_uppercase_text, char_is_alphanumeric, char_lowercase, chars_vec,
    collapse_whitespace, collapse_whitespace_chars, folded_or_space, is_alphanumeric,
    is_ascii_char, is_folded_char, lowercase_chars,
};

verus! {

/// Whether a character is a quote or an apostrophe: these join the letters around them.
pub open spec fn is_quote_mark(c: char) -> bool {
    c == '\'' || c == '\u{2019}' || c == '\u{2018}' || c == '\u{2bc}' || c == '"' || c
        == '\u{201c}' || c == '\u{201d}'
}

/// What one character of a name becomes: an alphanumeric character its lower case, a quote
/// mark nothing, and any other character a space.
pub open spec fn name_char(c: char) -> Seq<char> {
    if char_is_alphanumeric(c) {
        char_lowercase(c)
    } else if is_quote_mark(c) {
        Seq::empty()
    } else {
        seq![' ']
    }
}

/// The characters of a name, each replaced by what it becomes.
pub open spec fn name_chars(s: Seq<char>) -> Seq<char>
    decreases s.len(),
{
    if s.len() == 0 {
        Seq::empty()
    } else {
        name_chars(s.drop_last()) + name_char(s.last())
    }
}

/// The canonical form of a name: case folded, quote marks dropped, other punctuation turned
/// into word breaks, and the words joined by single spaces.
pub open spec fn normalized_name(s: Seq<char>) -> Seq<char> {
    collapse_whitespace(name_chars(s))
}

/// The canonical form of a name, by which typed names are matched against authored ones.
pub fn normalize_name(name: &str) -> (normalized: String)
    ensures
        normalized@ == normalized_name(name@),
{
    let chars = chars_vec(name);
    let mut mapped: Vec<char> = Vec::new();
    let n = chars.len();
    for i in 0..n
        invariant
            n == chars@.len(),
            chars@ == name@,
            mapped@ == name_chars(chars@.take(i as int)),
    {
        let c = chars[i];
        proof {
            assert(chars@.take(i + 1).drop_last() =~= chars@.take(i as int));
        }
        if is_alphanumeric(c) {
            let lower = lowercase_chars(c);
            let m = lower.len();
            let ghost before = mapped@;
            for j in 0..m
                invariant
                    m == lower@.len(),
                    mapped@ == before + lower@.take(j as int),
            {
                mapped.push(lower[j]);
                assert(before + lower@.take(j + 1) =~= (before + lower@.take(j as int)).push(
                    lower@[j as int],
                ));
            }
            assert(lower@.take(m as int) =~= lower@);
        } else if c == '\'' || c == '\u{2019}' || c == '\u{2018}' || c == '\u{2bc}' || c == '"'
            || c == '\u{201c}' || c == '\u{201d}' {
            assert(name_char(c) =~= Seq::<char>::empty());
            assert(mapped@ =~= mapped@ + name_char(c));
        } else {
            mapped.push(' ');
            assert(mapped@ =~= name_chars(chars@.take(i as int)) + name_char(c));
        }
    }
    assert(chars@.take(n as int) =~= chars@);
    collapse_whitespace_chars(&mapped)
}

/// The name characters of an ASCII text are folded characters and spaces.
pub proof fn lemma_ascii_name_chars_folded(s: Seq<char>)
    requires
        forall|i: int| 0 <= i < s.len() ==> is_ascii_char(#[trigger] s[i]),
    ensures
        folded_or_space(name_chars(s)),
    decreases s.len(),
{
    if s.len() > 0 {
        let p = s.drop_last();
        assert forall|i: int| 0 <= i < p.len() implies is_ascii_char(#[trigger] p[i]) by {
            assert(p[i] == s[i]);
        }
        lemma_ascii_name_chars_folded(p);
        let c = s.last();
        assert(is_ascii_char(s[s.len() - 1]));
        let m = name_char(c);
        assert forall|i: int| 0 <= i < m.len() implies is_folded_char(#[trigger] m[i]) || m[i]
            == ' ' by {
            if 'A' <= c <= 'Z' {
                assert(((c as u32) + 32) as char <= 'z');
                assert('a' <= ((c as u32) + 32) as char);
            }
        }
        let a = name_chars(p);
        let j = a + m;
        assert forall|i: int| 0 <= i < j.len() implies is_folded_char(#[trigger] j[i]) || j[i]
            == ' ' by {
            if i < a.len() {
                assert(j[i] == a[i]);
            } else {
                assert(j[i] == m[i - a.len()]);
            }
        }
    }
}

/// A text of folded characters and spaces is its own name characters.
pub proof fn lemma_name_chars_of_folded(s: Seq<char>)
    requires
        folded_or_space(s),
    ensures
        name_chars(s) == s,
    decreases s.len(),
{
    if s.len() > 0 {
        let p = s.drop_last();
        assert forall|i: int| 0 <= i < p.len() implies is_folded_char(#[trigger] p[i]) || p[i]
            == ' ' by {
            assert(p[i] == s[i]);
        }
        lemma_name_chars_of_folded(p);
        let c = s.last();
        assert(is_folded_char(s[s.len() - 1]) || s[s.len() - 1] == ' ');
        assert(name_char(c) =~= seq![c]);
        assert(p + seq![c] =~= s);
    }
}

/// Making ASCII letters upper case does not change their name characters.
pub proof fn lemma_name_chars_ignore_case(s: Seq<char>)
    ensures
        name_chars(ascii_uppercase_text(s)) == name_chars(s),
    decreases s.len(),
{
    if s.len() > 0 {
        let u = ascii_uppercase_text(s);
        lemma_name_chars_ignore_case(s.drop_last());
        assert(u.drop_last() =~= ascii_uppercase_text(s.drop_last()));
        let c = s.last();
        assert(u.last() == ascii_uppercase(c));
        if 'a' <= c <= 'z' {
            let v = ((c as u32) - 32) as char;
            assert('A' <= v <= 'Z');
            assert(((v as u32) + 32) as char == c);
        }
        assert(name_char(ascii_uppercase(c)) == name_char(c));
    }
}

} // verus!

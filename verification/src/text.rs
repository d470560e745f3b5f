use vstd::prelude::*;

verus! {

/// Whether a character has the Unicode `White_Space` property, which is what
/// `char::is_whitespace` tests: the ASCII tab, line feed, vertical tab, form feed, carriage
/// return and space, and U+0085, U+00A0, U+1680, U+2000 to U+200A, U+2028, U+2029, U+202F,
/// U+205F and U+3000.
pub open spec fn char_is_whitespace(c: char) -> bool {
    ||| '\t' <= c <= '\r'
    ||| c == ' '
    ||| c == '\u{85}'
    ||| c == '\u{a0}'
    ||| c == '\u{1680}'
    ||| '\u{2000}' <= c <= '\u{200a}'
    ||| c == '\u{2028}'
    ||| c == '\u{2029}'
    ||| c == '\u{202f}'
    ||| c == '\u{205f}'
    ||| c == '\u{3000}'
}

/// Whether a character is ASCII.
pub open spec fn is_ascii_char(c: char) -> bool {
    c <= '\u{7f}'
}

/// Whether a character is an ASCII letter or digit.
pub open spec fn is_ascii_alphanumeric(c: char) -> bool {
    ||| 'a' <= c <= 'z'
    ||| 'A' <= c <= 'Z'
    ||| '0' <= c <= '9'
}

/// The lower case of an ASCII character: `A` to `Z` become `a` to `z`; others stay.
pub open spec fn ascii_lowercase(c: char) -> char {
    if 'A' <= c <= 'Z' {
        ((c as u32) + 32) as char
    } else {
        c
    }
}

/// The upper case of an ASCII character: `a` to `z` become `A` to `Z`; others stay.
pub open spec fn ascii_uppercase(c: char) -> char {
    if 'a' <= c <= 'z' {
        ((c as u32) - 32) as char
    } else {
        c
    }
}

/// A text with its ASCII lower-case letters made upper case.
pub open spec fn ascii_uppercase_text(s: Seq<char>) -> Seq<char> {
    Seq::new(s.len(), |i: int| ascii_uppercase(s[i]))
}

/// What `char::is_alphanumeric` returns for a character that is not ASCII (Unicode
/// `Alphabetic` or `Numeric`).
pub uninterp spec fn alphanumeric_beyond_ascii(c: char) -> bool;

/// The characters that `char::to_lowercase` yields for a character that is not ASCII.
pub uninterp spec fn lowercase_beyond_ascii(c: char) -> Seq<char>;

/// What `char::is_alphanumeric` returns: whether a character has the Unicode `Alphabetic` or
/// `Numeric` property; among ASCII characters, exactly the letters and digits.
pub open spec fn char_is_alphanumeric(c: char) -> bool {
    if is_ascii_char(c) {
        is_ascii_alphanumeric(c)
    } else {
        alphanumeric_beyond_ascii(c)
    }
}

/// The characters that `char::to_lowercase` yields for a character: for an ASCII character
/// its ASCII lower case alone.
pub open spec fn char_lowercase(c: char) -> Seq<char> {
    if is_ascii_char(c) {
        seq![ascii_lowercase(c)]
    } else {
        lowercase_beyond_ascii(c)
    }
}

/// The characters of what `str::to_lowercase` returns for a text that is not all ASCII.
pub uninterp spec fn str_lowercase(s: Seq<char>) -> Seq<char>;

/// Whether every character of a text is ASCII.
pub open spec fn is_ascii_text(s: Seq<char>) -> bool {
    forall|i: int| 0 <= i < s.len() ==> is_ascii_char(#[trigger] s[i])
}

/// A text with its ASCII upper-case letters made lower case.
pub open spec fn ascii_lowercase_text(s: Seq<char>) -> Seq<char> {
    Seq::new(s.len(), |i: int| ascii_lowercase(s[i]))
}

/// The characters of what `str::to_lowercase` returns for a text: for an all-ASCII text the
/// ASCII lower case of each character.
pub open spec fn text_lowercase(s: Seq<char>) -> Seq<char> {
    if is_ascii_text(s) {
        ascii_lowercase_text(s)
    } else {
        str_lowercase(s)
    }
}

/// Calls `char::is_whitespace`, which tells whether the character has the Unicode
/// `White_Space` property, as [`char_is_whitespace`] lists it.
#[verifier::external_body]
pub(crate) fn is_whitespace(c: char) -> (b: bool)
    ensures
        b == char_is_whitespace(c),
{
    c.is_whitespace()
}

/// Calls `char::is_alphanumeric`. For an ASCII character the result is whether it is a letter
/// or a digit, the ASCII characters with the `Alphabetic` or `Numeric` property; beyond ASCII
/// it is named [`alphanumeric_beyond_ascii`].
#[verifier::external_body]
pub(crate) fn is_alphanumeric(c: char) -> (b: bool)
    ensures
        b == (if is_ascii_char(c) {
            is_ascii_alphanumeric(c)
        } else {
            alphanumeric_beyond_ascii(c)
        }),
{
    c.is_alphanumeric()
}

/// Calls `char::to_lowercase` and collects what it yields. An ASCII character yields its
/// ASCII lower case alone (`A` to `Z` map to `a` to `z` in Unicode, and every other ASCII
/// character maps to itself); beyond ASCII the characters are named [`lowercase_beyond_ascii`].
#[verifier::external_body]
pub(crate) fn lowercase_chars(c: char) -> (lower: Vec<char>)
    ensures
        lower@ == (if is_ascii_char(c) {
            seq![ascii_lowercase(c)]
        } else {
            lowercase_beyond_ascii(c)
        }),
{
    c.to_lowercase().collect()
}

/// Calls `str::to_lowercase`. For an all-ASCII text the result is the text with `A` to `Z`
/// mapped to `a` to `z` and every other character kept (each ASCII character lower-cases to
/// its ASCII lower case alone, and no ASCII character takes part in a context-dependent
/// mapping); for other texts the characters of the result are named [`str_lowercase`].
#[verifier::external_body]
pub(crate) fn str_to_lowercase(s: &str) -> (lower: String)
    ensures
        lower@ == (if is_ascii_text(s@) {
            ascii_lowercase_text(s@)
        } else {
            str_lowercase(s@)
        }),
{
    s.to_lowercase()
}

/// Calls `String::push`, which appends one character, as its documentation says.
#[verifier::external_body]
pub(crate) fn push_char(s: &mut String, c: char)
    ensures
        final(s)@ == old(s)@.push(c),
{
    s.push(c)
}

/// The characters of a text, in order.
pub fn chars_vec(s: &str) -> (chars: Vec<char>)
    ensures
        chars@ == s@,
{
    let mut chars: Vec<char> = Vec::new();
    for c in it: s.chars()
        invariant
            it.seq() == s@,
            chars@ == it.seq().take(it.index() as int),
    {
        chars.push(c);
    }
    chars
}

/// A text made of the given characters.
pub fn string_from_chars(chars: &Vec<char>) -> (s: String)
    ensures
        s@ == chars@,
{
    let mut s = String::new();
    let n = chars.len();
    for i in 0..n
        invariant
            n == chars@.len(),
            s@ == chars@.take(i as int),
    {
        push_char(&mut s, chars[i]);
        assert(chars@.take(i as int).push(chars@[i as int]) =~= chars@.take(i + 1));
    }
    assert(chars@.take(n as int) =~= chars@);
    s
}

/// Appends `tail` to `s`.
pub fn push_text(s: &mut String, tail: &str)
    ensures
        final(s)@ == old(s)@ + tail@,
{
    s.append(tail);
}

/// Whether two texts have the same characters.
pub fn str_eq(a: &str, b: &str) -> (same: bool)
    ensures
        same == (a@ == b@),
{
    let x = chars_vec(a);
    let y = chars_vec(b);
    seq_char_eq(&x, &y)
}

/// Whether two character vectors hold the same characters.
pub fn seq_char_eq(x: &Vec<char>, y: &Vec<char>) -> (same: bool)
    ensures
        same == (x@ == y@),
{
    if x.len() != y.len() {
        return false;
    }
    let n = x.len();
    for i in 0..n
        invariant
            n == x@.len(),
            n == y@.len(),
            forall|j: int| 0 <= j < i ==> x@[j] == y@[j],
    {
        if x[i] != y[i] {
            return false;
        }
    }
    assert(x@ =~= y@);
    true
}

/// The maximal runs of characters that are not whitespace, in order.
pub open spec fn words(s: Seq<char>) -> Seq<Seq<char>>
    decreases s.len(),
{
    if s.len() == 0 {
        Seq::empty()
    } else {
        let w = words(s.drop_last());
        let c = s.last();
        if char_is_whitespace(c) {
            w
        } else if s.len() >= 2 && !char_is_whitespace(s[s.len() - 2]) && w.len() > 0 {
            w.update(w.len() - 1, w.last().push(c))
        } else {
            w.push(seq![c])
        }
    }
}

/// The parts written one after the other with `sep` between each two.
pub open spec fn join(parts: Seq<Seq<char>>, sep: Seq<char>) -> Seq<char>
    decreases parts.len(),
{
    if parts.len() == 0 {
        Seq::empty()
    } else if parts.len() == 1 {
        parts[0]
    } else {
        join(parts.drop_last(), sep) + sep + parts.last()
    }
}

/// Where the `i`-th part starts in the parts written one after the other with `sep` between
/// each two.
pub open spec fn part_start(parts: Seq<Seq<char>>, sep: Seq<char>, i: int) -> int
    decreases i,
{
    if i <= 0 {
        0
    } else {
        part_start(parts, sep, i - 1) + parts[i - 1].len() + sep.len()
    }
}

/// Where a part starts depends only on the parts before it.
proof fn lemma_part_start_prefix(parts: Seq<Seq<char>>, sep: Seq<char>, i: int)
    requires
        0 <= i < parts.len(),
    ensures
        part_start(parts.drop_last(), sep, i) == part_start(parts, sep, i),
    decreases i,
{
    if i > 0 {
        lemma_part_start_prefix(parts, sep, i - 1);
        assert(parts.drop_last()[i - 1] == parts[i - 1]);
    }
}

/// Parts joined with `sep` end where the last part ends.
pub proof fn lemma_join_len(parts: Seq<Seq<char>>, sep: Seq<char>)
    requires
        parts.len() > 0,
    ensures
        join(parts, sep).len() == part_start(parts, sep, parts.len() - 1) + parts.last().len(),
    decreases parts.len(),
{
    if parts.len() > 1 {
        let d = parts.drop_last();
        lemma_join_len(d, sep);
        lemma_part_start_prefix(parts, sep, parts.len() - 2);
        assert(d.last() == parts[parts.len() - 2]);
    }
}

/// In parts joined with `sep`, each part stands at [`part_start`], followed by `sep` when
/// another part comes after it.
pub proof fn lemma_join_parts(parts: Seq<Seq<char>>, sep: Seq<char>, i: int)
    requires
        0 <= i < parts.len(),
    ensures
        0 <= part_start(parts, sep, i),
        part_start(parts, sep, i) + parts[i].len() <= join(parts, sep).len(),
        join(parts, sep).subrange(part_start(parts, sep, i), part_start(parts, sep, i) + parts[i].len())
            == parts[i],
        i + 1 < parts.len() ==> join(parts, sep).subrange(
            part_start(parts, sep, i) + parts[i].len(),
            part_start(parts, sep, i + 1),
        ) == sep,
    decreases parts.len(),
{
    lemma_part_start_nonneg(parts, sep, i);
    if parts.len() == 1 {
        assert(join(parts, sep).subrange(0, parts[0].len() as int) =~= parts[0]);
    } else {
        let d = parts.drop_last();
        let a = join(d, sep);
        let l = parts.last();
        let j = a + sep + l;
        assert(join(parts, sep) == j);
        lemma_join_len(d, sep);
        lemma_part_start_prefix(parts, sep, parts.len() - 2);
        assert(d.last() == parts[parts.len() - 2]);
        let n = parts.len() - 1;
        assert(part_start(parts, sep, n) == a.len() + sep.len());
        if i < n {
            lemma_join_parts(d, sep, i);
            lemma_part_start_prefix(parts, sep, i);
            assert(d[i] == parts[i]);
            let st = part_start(parts, sep, i);
            assert(j.subrange(st, st + parts[i].len()) =~= a.subrange(st, st + parts[i].len()));
            if i + 1 < n {
                lemma_part_start_prefix(parts, sep, i + 1);
                lemma_join_parts(d, sep, i + 1);
                assert(j.subrange(st + parts[i].len(), part_start(parts, sep, i + 1)) =~= a.subrange(
                    st + parts[i].len(),
                    part_start(parts, sep, i + 1),
                ));
            } else {
                assert(st + parts[i].len() == a.len());
                assert(j.subrange(a.len() as int, (a.len() + sep.len()) as int) =~= sep);
            }
        } else {
            assert(j.subrange((a.len() + sep.len()) as int, j.len() as int) =~= l);
        }
    }
}

/// Parts start at or after the beginning.
proof fn lemma_part_start_nonneg(parts: Seq<Seq<char>>, sep: Seq<char>, i: int)
    ensures
        0 <= part_start(parts, sep, i),
    decreases i,
{
    if i > 0 {
        lemma_part_start_nonneg(parts, sep, i - 1);
    }
}

/// The words of a text joined by single spaces: what
/// `s.split_whitespace().collect::<Vec<_>>().join(" ")` gives.
pub open spec fn collapse_whitespace(s: Seq<char>) -> Seq<char> {
    join(words(s), seq![' '])
}

/// Every word is non-empty, and a text that ends in a non-whitespace character has a word.
pub proof fn lemma_words_nonempty(s: Seq<char>)
    ensures
        forall|i: int| 0 <= i < words(s).len() ==> words(s)[i].len() > 0,
        s.len() > 0 && !char_is_whitespace(s.last()) ==> words(s).len() > 0,
    decreases s.len(),
{
    if s.len() > 0 {
        let w = words(s.drop_last());
        lemma_words_nonempty(s.drop_last());
        assert forall|i: int| 0 <= i < words(s).len() implies words(s)[i].len() > 0 by {
            if i < w.len() {
                assert(words(s)[i].len() >= w[i].len());
            }
        }
    }
}

/// Extending the last part extends the join.
pub proof fn lemma_join_extend_last(parts: Seq<Seq<char>>, sep: Seq<char>, c: char)
    requires
        parts.len() > 0,
    ensures
        join(parts.update(parts.len() - 1, parts.last().push(c)), sep) == join(parts, sep).push(c),
{
    let q = parts.update(parts.len() - 1, parts.last().push(c));
    if parts.len() == 1 {
    } else {
        assert(q.drop_last() =~= parts.drop_last());
        assert((join(parts.drop_last(), sep) + sep + parts.last()).push(c) =~= join(
            parts.drop_last(),
            sep,
        ) + sep + parts.last().push(c));
    }
}

/// A join of non-empty parts is empty exactly when there are no parts.
pub proof fn lemma_join_empty(parts: Seq<Seq<char>>, sep: Seq<char>)
    requires
        forall|i: int| 0 <= i < parts.len() ==> parts[i].len() > 0,
    ensures
        (join(parts, sep).len() == 0) == (parts.len() == 0),
    decreases parts.len(),
{
    if parts.len() > 1 {
        lemma_join_empty(parts.drop_last(), sep);
    }
}

/// Whether a character is a lower-case ASCII letter or an ASCII digit.
pub open spec fn is_folded_char(c: char) -> bool {
    'a' <= c <= 'z' || '0' <= c <= '9'
}

/// Whether every character of a text is a lower-case ASCII letter, an ASCII digit or a space.
pub open spec fn folded_or_space(s: Seq<char>) -> bool {
    forall|i: int| 0 <= i < s.len() ==> is_folded_char(#[trigger] s[i]) || s[i] == ' '
}

/// Whether a word is non-empty and made of lower-case ASCII letters and ASCII digits.
pub open spec fn folded_word(w: Seq<char>) -> bool {
    w.len() > 0 && forall|i: int| 0 <= i < w.len() ==> is_folded_char(#[trigger] w[i])
}

/// Whether a word is non-empty and holds no whitespace.
pub open spec fn solid_word(w: Seq<char>) -> bool {
    w.len() > 0 && forall|i: int| 0 <= i < w.len() ==> !char_is_whitespace(#[trigger] w[i])
}

/// The words of a text made of folded characters and spaces are folded words.
pub proof fn lemma_words_folded(x: Seq<char>)
    requires
        folded_or_space(x),
    ensures
        forall|k: int| 0 <= k < words(x).len() ==> folded_word(#[trigger] words(x)[k]),
    decreases x.len(),
{
    if x.len() > 0 {
        let p = x.drop_last();
        assert forall|i: int| 0 <= i < p.len() implies is_folded_char(#[trigger] p[i]) || p[i]
            == ' ' by {
            assert(p[i] == x[i]);
        }
        lemma_words_folded(p);
        let c = x.last();
        let w = words(p);
        assert(is_folded_char(c) || c == ' ');
        if !char_is_whitespace(c) {
            if x.len() >= 2 && !char_is_whitespace(x[x.len() - 2]) && w.len() > 0 {
                let v = w.last().push(c);
                assert(folded_word(w[w.len() - 1]));
                assert forall|i: int| 0 <= i < v.len() implies is_folded_char(#[trigger] v[i]) by {
                    if i < w.last().len() {
                        assert(v[i] == w.last()[i]);
                    }
                }
                assert forall|k: int| 0 <= k < words(x).len() implies folded_word(
                    #[trigger] words(x)[k],
                ) by {
                    if k < w.len() - 1 {
                        assert(words(x)[k] == w[k]);
                    } else {
                        assert(words(x)[k] == v);
                    }
                }
            } else {
                assert forall|k: int| 0 <= k < words(x).len() implies folded_word(
                    #[trigger] words(x)[k],
                ) by {
                    if k < w.len() {
                        assert(words(x)[k] == w[k]);
                    } else {
                        assert(words(x)[k] == seq![c]);
                        assert(seq![c][0] == c);
                    }
                }
            }
        }
    }
}

/// Folded words joined by single spaces give a text of folded characters and spaces.
pub proof fn lemma_join_folded(ws: Seq<Seq<char>>)
    requires
        forall|k: int| 0 <= k < ws.len() ==> folded_word(#[trigger] ws[k]),
    ensures
        folded_or_space(join(ws, seq![' '])),
    decreases ws.len(),
{
    if ws.len() == 1 {
        assert(folded_word(ws[0]));
    } else if ws.len() > 1 {
        let d = ws.drop_last();
        assert forall|k: int| 0 <= k < d.len() implies folded_word(#[trigger] d[k]) by {
            assert(d[k] == ws[k]);
        }
        lemma_join_folded(d);
        let a = join(d, seq![' ']);
        let l = ws.last();
        assert(folded_word(ws[ws.len() - 1]));
        let j = a + seq![' '] + l;
        assert forall|i: int| 0 <= i < j.len() implies is_folded_char(#[trigger] j[i]) || j[i]
            == ' ' by {
            if i < a.len() {
                assert(j[i] == a[i]);
            } else if i == a.len() {
                assert(j[i] == ' ');
            } else {
                assert(j[i] == l[i - a.len() - 1]);
            }
        }
    }
}

/// Whether every space of a text stands between two characters that are not spaces: no
/// space leads, trails or doubles another.
pub open spec fn single_spaced(t: Seq<char>) -> bool {
    forall|i: int|
        0 <= i < t.len() && #[trigger] t[i] == ' ' ==> 0 < i < t.len() - 1 && t[i - 1] != ' '
            && t[i + 1] != ' '
}

/// Words without whitespace joined by single spaces start with the first word's first
/// character and end with the last word's last character.
proof fn lemma_join_ends(ws: Seq<Seq<char>>)
    requires
        ws.len() > 0,
        forall|k: int| 0 <= k < ws.len() ==> solid_word(#[trigger] ws[k]),
    ensures
        join(ws, seq![' ']).len() > 0,
        join(ws, seq![' '])[0] == ws[0][0],
        join(ws, seq![' ']).last() == ws.last().last(),
    decreases ws.len(),
{
    assert(solid_word(ws[0]));
    assert(solid_word(ws[ws.len() - 1]));
    if ws.len() > 1 {
        let d = ws.drop_last();
        assert forall|k: int| 0 <= k < d.len() implies solid_word(#[trigger] d[k]) by {
            assert(d[k] == ws[k]);
        }
        lemma_join_ends(d);
        let a = join(d, seq![' ']);
        let j = a + seq![' '] + ws.last();
        assert(j[0] == a[0]);
        assert(j.last() == ws.last().last());
    }
}

/// Words without whitespace joined by single spaces are single spaced.
pub proof fn lemma_join_single_spaced(ws: Seq<Seq<char>>)
    requires
        forall|k: int| 0 <= k < ws.len() ==> solid_word(#[trigger] ws[k]),
    ensures
        single_spaced(join(ws, seq![' '])),
    decreases ws.len(),
{
    if ws.len() == 1 {
        let w = ws[0];
        assert(solid_word(w));
        assert forall|i: int| 0 <= i < w.len() && #[trigger] w[i] == ' ' implies false by {
            assert(!char_is_whitespace(w[i]));
        }
    } else if ws.len() > 1 {
        let d = ws.drop_last();
        assert forall|k: int| 0 <= k < d.len() implies solid_word(#[trigger] d[k]) by {
            assert(d[k] == ws[k]);
        }
        lemma_join_single_spaced(d);
        lemma_join_ends(d);
        let a = join(d, seq![' ']);
        let l = ws.last();
        assert(solid_word(ws[ws.len() - 1]));
        assert(solid_word(d[d.len() - 1]));
        assert(!char_is_whitespace(d.last()[d.last().len() - 1]));
        assert(!char_is_whitespace(l[0]));
        let j = a + seq![' '] + l;
        assert forall|i: int| 0 <= i < j.len() && #[trigger] j[i] == ' ' implies 0 < i < j.len() - 1
            && j[i - 1] != ' ' && j[i + 1] != ' ' by {
            if i < a.len() {
                assert(j[i] == a[i]);
                assert(a[i] == ' ');
                if i < a.len() - 1 {
                    assert(j[i + 1] == a[i + 1]);
                    assert(j[i - 1] == a[i - 1]);
                } else {
                    assert(a[i] == a.last());
                }
            } else if i == a.len() {
                assert(j[i - 1] == a.last());
                assert(j[i + 1] == l[0]);
            } else {
                assert(j[i] == l[i - a.len() - 1]);
                assert(!char_is_whitespace(l[i - a.len() - 1]));
            }
        }
    }
}

/// The words of an ASCII text are ASCII.
proof fn lemma_words_ascii(x: Seq<char>)
    requires
        is_ascii_text(x),
    ensures
        forall|k: int| 0 <= k < words(x).len() ==> is_ascii_text(#[trigger] words(x)[k]),
    decreases x.len(),
{
    if x.len() > 0 {
        let p = x.drop_last();
        assert forall|i: int| 0 <= i < p.len() implies is_ascii_char(#[trigger] p[i]) by {
            assert(p[i] == x[i]);
        }
        lemma_words_ascii(p);
        let c = x.last();
        let w = words(p);
        assert(is_ascii_char(x[x.len() - 1]));
        if !char_is_whitespace(c) {
            if x.len() >= 2 && !char_is_whitespace(x[x.len() - 2]) && w.len() > 0 {
                let v = w.last().push(c);
                assert(is_ascii_text(w[w.len() - 1]));
                assert forall|i: int| 0 <= i < v.len() implies is_ascii_char(#[trigger] v[i]) by {
                    if i < w.last().len() {
                        assert(v[i] == w.last()[i]);
                    }
                }
                assert forall|k: int| 0 <= k < words(x).len() implies is_ascii_text(
                    #[trigger] words(x)[k],
                ) by {
                    if k < w.len() - 1 {
                        assert(words(x)[k] == w[k]);
                    } else {
                        assert(words(x)[k] == v);
                    }
                }
            } else {
                assert forall|k: int| 0 <= k < words(x).len() implies is_ascii_text(
                    #[trigger] words(x)[k],
                ) by {
                    if k < w.len() {
                        assert(words(x)[k] == w[k]);
                    } else {
                        assert(words(x)[k] == seq![c]);
                        assert forall|i: int| 0 <= i < 1 implies is_ascii_char(#[trigger] seq![c][i]) by {
                            assert(seq![c][i] == c);
                        }
                    }
                }
            }
        }
    }
}

/// ASCII words joined by single spaces give an ASCII text.
proof fn lemma_join_ascii(ws: Seq<Seq<char>>)
    requires
        forall|k: int| 0 <= k < ws.len() ==> is_ascii_text(#[trigger] ws[k]),
    ensures
        is_ascii_text(join(ws, seq![' '])),
    decreases ws.len(),
{
    if ws.len() == 1 {
        assert(is_ascii_text(ws[0]));
    } else if ws.len() > 1 {
        let d = ws.drop_last();
        assert forall|k: int| 0 <= k < d.len() implies is_ascii_text(#[trigger] d[k]) by {
            assert(d[k] == ws[k]);
        }
        lemma_join_ascii(d);
        let a = join(d, seq![' ']);
        let l = ws.last();
        assert(is_ascii_text(ws[ws.len() - 1]));
        let j = a + seq![' '] + l;
        assert forall|i: int| 0 <= i < j.len() implies is_ascii_char(#[trigger] j[i]) by {
            if i < a.len() {
                assert(j[i] == a[i]);
            } else if i > a.len() {
                assert(j[i] == l[i - a.len() - 1]);
            }
        }
    }
}

/// Collapsing the whitespace of an ASCII text gives an ASCII text.
pub proof fn lemma_collapse_ascii(s: Seq<char>)
    requires
        is_ascii_text(s),
    ensures
        is_ascii_text(collapse_whitespace(s)),
{
    lemma_words_ascii(s);
    lemma_join_ascii(words(s));
}

/// A word appended after a whitespace character (or to nothing) becomes one more word.
proof fn lemma_words_append_word(b: Seq<char>, w: Seq<char>)
    requires
        b.len() == 0 || char_is_whitespace(b.last()),
        solid_word(w),
    ensures
        words(b + w) == words(b).push(w),
    decreases w.len(),
{
    let s = b + w;
    let c = w.last();
    assert(s.last() == c);
    assert(!char_is_whitespace(w[w.len() - 1]));
    if w.len() == 1 {
        assert(s.drop_last() =~= b);
        if s.len() >= 2 {
            assert(s[s.len() - 2] == b.last());
        }
        assert(w =~= seq![c]);
    } else {
        let d = w.drop_last();
        assert forall|i: int| 0 <= i < d.len() implies !char_is_whitespace(#[trigger] d[i]) by {
            assert(d[i] == w[i]);
        }
        lemma_words_append_word(b, d);
        assert(s.drop_last() =~= b + d);
        assert(s[s.len() - 2] == w[w.len() - 2]);
        assert(!char_is_whitespace(w[w.len() - 2]));
        let v = words(b).push(d);
        assert(d.push(c) =~= w);
        assert(v.update(v.len() - 1, v.last().push(c)) =~= words(b).push(w));
    }
}

/// Words without whitespace, joined by single spaces, split back into the same words.
pub proof fn lemma_words_of_join(ws: Seq<Seq<char>>)
    requires
        forall|k: int| 0 <= k < ws.len() ==> solid_word(#[trigger] ws[k]),
    ensures
        words(join(ws, seq![' '])) == ws,
    decreases ws.len(),
{
    if ws.len() == 0 {
        assert(words(join(ws, seq![' '])) =~= ws);
    } else if ws.len() == 1 {
        assert(solid_word(ws[0]));
        lemma_words_append_word(Seq::empty(), ws[0]);
        assert(Seq::<char>::empty() + ws[0] =~= ws[0]);
        assert(words(Seq::<char>::empty()).push(ws[0]) =~= ws);
    } else {
        let d = ws.drop_last();
        assert forall|k: int| 0 <= k < d.len() implies solid_word(#[trigger] d[k]) by {
            assert(d[k] == ws[k]);
        }
        lemma_words_of_join(d);
        let a = join(d, seq![' ']);
        let b = a + seq![' '];
        assert(b.drop_last() =~= a);
        assert(b.last() == ' ');
        assert(words(b) == words(a));
        assert(solid_word(ws[ws.len() - 1]));
        lemma_words_append_word(b, ws.last());
        assert(d.push(ws.last()) =~= ws);
    }
}

/// The words of a text joined by single spaces.
pub fn collapse_whitespace_chars(chars: &Vec<char>) -> (out: String)
    ensures
        out@ == collapse_whitespace(chars@),
{
    let mut out = String::new();
    let mut pending = false;
    let mut has_word = false;
    let n = chars.len();
    for i in 0..n
        invariant
            n == chars@.len(),
            out@ == join(words(chars@.take(i as int)), seq![' ']),
            has_word == (words(chars@.take(i as int)).len() > 0),
            pending == (words(chars@.take(i as int)).len() > 0 && i > 0 && char_is_whitespace(
                chars@[i - 1],
            )),
    {
        let c = chars[i];
        let ghost prefix = chars@.take(i as int);
        let ghost next = chars@.take(i + 1);
        proof {
            assert(next.drop_last() =~= prefix);
            assert(next.last() == c);
            lemma_words_nonempty(prefix);
            lemma_join_empty(words(prefix), seq![' ']);
            if i > 0 {
                assert(prefix.last() == chars@[i - 1]);
                assert(next[next.len() - 2] == chars@[i - 1]);
            }
        }
        if is_whitespace(c) {
            if has_word {
                pending = true;
            }
        } else {
            if pending {
                push_char(&mut out, ' ');
                push_char(&mut out, c);
                proof {
                    let w = words(prefix);
                    assert(words(next) == w.push(seq![c]));
                    assert(w.push(seq![c]).drop_last() =~= w);
                    assert(join(w, seq![' ']) + seq![' '] + seq![c] =~= join(w, seq![' ']).push(
                        ' ',
                    ).push(c));
                }
            } else {
                push_char(&mut out, c);
                proof {
                    let w = words(prefix);
                    if i > 0 && !char_is_whitespace(chars@[i - 1]) {
                        lemma_words_nonempty(prefix);
                        lemma_join_extend_last(w, seq![' '], c);
                    } else {
                        assert(w.len() == 0);
                        assert(words(next) == w.push(seq![c]));
                        assert(join(w.push(seq![c]), seq![' ']) =~= seq![c]);
                        assert(join(w, seq![' ']) =~= Seq::<char>::empty());
                        assert(out@ =~= seq![c]);
                    }
                }
            }
            pending = false;
            has_word = true;
        }
    }
    assert(chars@.take(n as int) =~= chars@);
    out
}


/// The characters of each row, in order.
pub open spec fn char_rows(rows: Seq<Vec<char>>) -> Seq<Seq<char>> {
    Seq::new(rows.len(), |k: int| rows[k]@)
}

/// The words of a text: its maximal runs of characters that are not whitespace.
pub fn split_words(chars: &Vec<char>) -> (out: Vec<Vec<char>>)
    ensures
        char_rows(out@) == words(chars@),
{
    let mut out: Vec<Vec<char>> = Vec::new();
    let mut in_word = false;
    let n = chars.len();
    for i in 0..n
        invariant
            n == chars@.len(),
            char_rows(out@) == words(chars@.take(i as int)),
            in_word == (i > 0 && !char_is_whitespace(chars@[i - 1])),
    {
        let c = chars[i];
        let ghost prefix = chars@.take(i as int);
        let ghost next = chars@.take(i + 1);
        proof {
            assert(next.drop_last() =~= prefix);
            assert(next.last() == c);
            if i > 0 {
                assert(prefix.last() == chars@[i - 1]);
                assert(next[next.len() - 2] == chars@[i - 1]);
            }
        }
        if is_whitespace(c) {
            in_word = false;
        } else if in_word {
            proof {
                lemma_words_nonempty(prefix);
            }
            let mut last = out.pop().unwrap();
            last.push(c);
            out.push(last);
            proof {
                let w = words(prefix);
                assert(char_rows(out@) =~= w.update(w.len() - 1, w.last().push(c)));
            }
        } else {
            let mut word: Vec<char> = Vec::new();
            word.push(c);
            out.push(word);
            proof {
                let w = words(prefix);
                assert(word@ =~= seq![c]);
                assert(char_rows(out@) =~= w.push(seq![c]));
            }
            in_word = true;
        }
    }
    assert(chars@.take(n as int) =~= chars@);
    out
}

/// The rows from `start` on, joined by single spaces.
pub fn join_words(rows: &Vec<Vec<char>>, start: usize) -> (out: String)
    requires
        start <= rows.len(),
    ensures
        out@ == join(char_rows(rows@).skip(start as int), seq![' ']),
{
    let ghost all = char_rows(rows@);
    let mut out = String::new();
    let n = rows.len();
    let mut i = start;
    while i < n
        invariant
            start <= i <= n,
            n == rows.len(),
            all == char_rows(rows@),
            out@ == join(all.subrange(start as int, i as int), seq![' ']),
        decreases n - i,
    {
        let ghost before = all.subrange(start as int, i as int);
        let row = &rows[i];
        if i > start {
            push_char(&mut out, ' ');
        }
        let m = row.len();
        for j in 0..m
            invariant
                m == row@.len(),
                out@ == (if i > start {
                    join(before, seq![' ']) + seq![' ']
                } else {
                    join(before, seq![' '])
                }) + row@.take(j as int),
        {
            push_char(&mut out, row[j]);
            assert(row@.take(j as int).push(row@[j as int]) =~= row@.take(j + 1));
        }
        proof {
            let after = all.subrange(start as int, i + 1);
            assert(row@.take(m as int) =~= row@);
            assert(all[i as int] == row@);
            assert(after.drop_last() =~= before);
            assert(after.last() == row@);
            if i == start {
                assert(before.len() == 0);
                assert(join(before, seq![' ']) =~= Seq::<char>::empty());
                assert(out@ =~= row@);
            }
        }
        i = i + 1;
    }
    assert(all.subrange(start as int, n as int) =~= all.skip(start as int));
    out
}

/// The text without the whitespace at its start.
pub open spec fn trim_start(s: Seq<char>) -> Seq<char>
    decreases s.len(),
{
    if s.len() > 0 && char_is_whitespace(s[0]) {
        trim_start(s.drop_first())
    } else {
        s
    }
}

/// The text without the whitespace at its end.
pub open spec fn trim_end(s: Seq<char>) -> Seq<char>
    decreases s.len(),
{
    if s.len() > 0 && char_is_whitespace(s.last()) {
        trim_end(s.drop_last())
    } else {
        s
    }
}

/// The text without leading and trailing whitespace: what `str::trim` gives.
pub open spec fn trimmed(s: Seq<char>) -> Seq<char> {
    trim_end(trim_start(s))
}

/// The text without leading and trailing whitespace.
pub fn trim_text(s: &str) -> (out: String)
    ensures
        out@ == trimmed(s@),
{
    let chars = chars_vec(s);
    let n = chars.len();
    let mut i: usize = 0;
    assert(chars@.skip(0) =~= chars@);
    while i < n && is_whitespace(chars[i])
        invariant
            i <= n,
            n == chars@.len(),
            trim_start(chars@) == trim_start(chars@.skip(i as int)),
        decreases n - i,
    {
        proof {
            let t = chars@.skip(i as int);
            assert(t[0] == chars@[i as int]);
            assert(t.drop_first() =~= chars@.skip(i + 1));
        }
        i = i + 1;
    }
    let ghost rest = chars@.skip(i as int);
    proof {
        if i < n {
            assert(rest[0] == chars@[i as int]);
        }
    }
    let mut j: usize = n;
    while j > i && is_whitespace(chars[j - 1])
        invariant
            i <= j <= n,
            n == chars@.len(),
            rest == chars@.skip(i as int),
            trim_end(rest) == trim_end(chars@.subrange(i as int, j as int)),
        decreases j,
    {
        proof {
            let t = chars@.subrange(i as int, j as int);
            assert(t.last() == chars@[j - 1]);
            assert(t.drop_last() =~= chars@.subrange(i as int, j - 1));
        }
        j = j - 1;
    }
    proof {
        let t = chars@.subrange(i as int, j as int);
        if j > i {
            assert(t.last() == chars@[j - 1]);
        }
        assert(rest =~= chars@.subrange(i as int, n as int));
    }
    let mut out = String::new();
    let mut k = i;
    while k < j
        invariant
            i <= k <= j,
            j <= n,
            n == chars@.len(),
            out@ == chars@.subrange(i as int, k as int),
        decreases j - k,
    {
        push_char(&mut out, chars[k]);
        assert(chars@.subrange(i as int, k as int).push(chars@[k as int]) =~= chars@.subrange(
            i as int,
            k + 1,
        ));
        k = k + 1;
    }
    out
}

/// Whether `p` is where `s` starts.
pub open spec fn has_prefix(s: Seq<char>, p: Seq<char>) -> bool {
    p.len() <= s.len() && s.take(p.len() as int) == p
}

/// The characters after `prefix`, when `chars` starts with it.
pub fn strip_prefix_chars(chars: &Vec<char>, prefix: &str) -> (rest: Option<Vec<char>>)
    ensures
        rest is Some <==> has_prefix(chars@, prefix@),
        rest matches Some(r) ==> r@ == chars@.skip(prefix@.len() as int),
{
    let p = chars_vec(prefix);
    let m = p.len();
    let n = chars.len();
    if m > n {
        return None;
    }
    for i in 0..m
        invariant
            m == p@.len(),
            p@ == prefix@,
            m <= n,
            n == chars@.len(),
            forall|k: int| 0 <= k < i ==> chars@[k] == p@[k],
    {
        if chars[i] != p[i] {
            proof {
                assert(chars@.take(m as int)[i as int] != p@[i as int]);
            }
            return None;
        }
    }
    assert(chars@.take(m as int) =~= p@);
    let mut r: Vec<char> = Vec::new();
    let mut k = m;
    while k < n
        invariant
            m <= k <= n,
            n == chars@.len(),
            r@ == chars@.subrange(m as int, k as int),
        decreases n - k,
    {
        r.push(chars[k]);
        assert(chars@.subrange(m as int, k as int).push(chars@[k as int]) =~= chars@.subrange(
            m as int,
            k + 1,
        ));
        k = k + 1;
    }
    assert(chars@.subrange(m as int, n as int) =~= chars@.skip(m as int));
    Some(r)
}

/// Whether a character is one of the ASCII digits `0` to `9`.
pub open spec fn is_ascii_digit(c: char) -> bool {
    '0' <= c && c <= '9'
}

/// The number that a run of ASCII digits writes in decimal.
pub open spec fn decimal_value(s: Seq<char>) -> nat
    decreases s.len(),
{
    if s.len() == 0 {
        0
    } else {
        decimal_value(s.drop_last()) * 10 + ((s.last() as int) - ('0' as int)) as nat
    }
}

/// The digits of a number written with an optional leading `+`.
pub open spec fn unsigned_digits(s: Seq<char>) -> Seq<char> {
    if s.len() > 0 && s[0] == '+' {
        s.drop_first()
    } else {
        s
    }
}

/// What `str::parse::<usize>` gives for a text: the number written by an optional `+` and at
/// least one ASCII digit, when it fits in a `usize`.
pub open spec fn parsed_usize(s: Seq<char>) -> Option<usize> {
    let digits = unsigned_digits(s);
    if digits.len() > 0 && (forall|k: int| 0 <= k < digits.len() ==> is_ascii_digit(#[trigger] digits[k]))
        && decimal_value(digits) <= usize::MAX {
        Some(decimal_value(digits) as usize)
    } else {
        None
    }
}

proof fn lemma_decimal_prefix_le(s: Seq<char>, i: int)
    requires
        0 <= i <= s.len(),
        forall|k: int| 0 <= k < s.len() ==> is_ascii_digit(#[trigger] s[k]),
    ensures
        decimal_value(s.take(i)) <= decimal_value(s),
    decreases s.len() - i,
{
    if i < s.len() {
        lemma_decimal_prefix_le(s, i + 1);
        let t = s.take(i + 1);
        assert(t.drop_last() =~= s.take(i));
        assert(is_ascii_digit(s[i]));
    } else {
        assert(s.take(i) =~= s);
    }
}

/// The number a word writes in decimal, as `str::parse::<usize>` reads it.
pub fn parse_usize(word: &Vec<char>) -> (value: Option<usize>)
    ensures
        value == parsed_usize(word@),
{
    let n = word.len();
    let mut start: usize = 0;
    if n > 0 && word[0] == '+' {
        start = 1;
    }
    let ghost digits = unsigned_digits(word@);
    assert(digits =~= word@.skip(start as int));
    if start >= n {
        return None;
    }
    for i in start..n
        invariant
            start <= n,
            n == word@.len(),
            digits == word@.skip(start as int),
            digits == unsigned_digits(word@),
            forall|k: int| 0 <= k < i - start ==> is_ascii_digit(#[trigger] digits[k]),
    {
        let c = word[i];
        assert(digits[i - start] == c);
        if !('0' <= c && c <= '9') {
            assert(!is_ascii_digit(digits[i - start]));
            return None;
        }
    }
    let mut value: usize = 0;
    for i in start..n
        invariant
            start <= n,
            n == word@.len(),
            digits == word@.skip(start as int),
            digits == unsigned_digits(word@),
            forall|k: int| 0 <= k < digits.len() ==> is_ascii_digit(#[trigger] digits[k]),
            value == decimal_value(digits.take(i - start)),
    {
        let c = word[i];
        proof {
            let t = digits.take(i - start + 1);
            assert(t.drop_last() =~= digits.take(i - start));
            assert(t.last() == c);
            assert(digits[i - start] == c);
            assert(is_ascii_digit(digits[i - start]));
        }
        let d = (c as u32 - '0' as u32) as usize;
        assert(decimal_value(digits.take(i - start + 1)) == value * 10 + d);
        match value.checked_mul(10) {
            Some(tens) => match tens.checked_add(d) {
                Some(next) => {
                    value = next;
                },
                None => {
                    proof {
                        lemma_decimal_prefix_le(digits, i - start + 1);
                    }
                    return None;
                },
            },
            None => {
                proof {
                    lemma_decimal_prefix_le(digits, i - start + 1);
                }
                return None;
            },
        }
    }
    assert(digits.take(n - start) =~= digits);
    Some(value)
}

} // verus!

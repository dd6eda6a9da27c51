//! Text as sequences of characters: trimming, splitting, letter case.
use vstd::prelude::*;
use vstd::slice::slice_subrange;

use crate::search::find_chars;

verus! {

/// `String::push` appends one character.
pub assume_specification[ String::push ](s: &mut String, c: char)
    ensures
        final(s)@ == old(s)@.push(c),
;

/// `std::str::from_utf8` reads bytes as text: it succeeds exactly on valid
/// UTF-8, with the characters that the bytes encode.
#[verifier::external_body]
pub(crate) fn utf8_text(bytes: &[u8]) -> (res: Option<String>)
    ensures
        res is Some <==> vstd::utf8::valid_utf8(bytes@),
        res matches Some(s) ==> s@ == vstd::utf8::decode_utf8(bytes@),
{
    std::str::from_utf8(bytes).ok().map(str::to_string)
}

/// What `String::from_utf8_lossy` makes of bytes that are no UTF-8.
pub uninterp spec fn lossy_text(bytes: Seq<u8>) -> Seq<char>;

/// The text that bytes show: what they encode, and where they are no UTF-8,
/// what the lossy reading makes of them.
pub open spec fn shown_text(bytes: Seq<u8>) -> Seq<char> {
    if vstd::utf8::valid_utf8(bytes) {
        vstd::utf8::decode_utf8(bytes)
    } else {
        lossy_text(bytes)
    }
}

/// `String::from_utf8_lossy` is a function of the bytes; on valid UTF-8 it is
/// the encoded text, unchanged. It replaces invalid sequences by U+FFFD and
/// leaves the rest: ASCII bytes stay as they are and where they are, and the
/// bytes between them show as characters beyond ASCII.
#[verifier::external_body]
pub(crate) fn utf8_lossy(bytes: &[u8]) -> (res: String)
    ensures
        res@ == (if vstd::utf8::valid_utf8(bytes@) {
            vstd::utf8::decode_utf8(bytes@)
        } else {
            lossy_text(bytes@)
        }),
        crate::encoding::is_shown(bytes@, res@),
{
    String::from_utf8_lossy(bytes).into_owned()
}

/// The Unicode `White_Space` property.
pub open spec fn is_space(c: char) -> bool {
    ||| '\u{9}' <= c <= '\u{d}'
    ||| c == ' '
    ||| c == '\u{85}'
    ||| c == '\u{a0}'
    ||| c == '\u{1680}'
    ||| '\u{2000}' <= c <= '\u{200a}'
    ||| c == '\u{2028}'
    ||| c == '\u{2029}'
    ||| c == '\u{202f}'
    ||| c == '\u{205f}'
    ||| c == '\u{3000}'
}

pub open spec fn is_digit(c: char) -> bool {
    '0' <= c <= '9'
}

/// ASCII letters and digits.
pub open spec fn is_alphanumeric(c: char) -> bool {
    ||| '0' <= c <= '9'
    ||| 'a' <= c <= 'z'
    ||| 'A' <= c <= 'Z'
}

/// The character with ASCII capitals made small.
pub open spec fn lower_char(c: char) -> char {
    if 'A' <= c <= 'Z' {
        ((c as u8) + 32) as u8 as char
    } else {
        c
    }
}

/// The text with ASCII capitals made small.
pub open spec fn lower(s: Seq<char>) -> Seq<char> {
    s.map_values(|c: char| lower_char(c))
}

/// Equal up to the case of ASCII letters.
pub open spec fn same_ignoring_case(a: Seq<char>, b: Seq<char>) -> bool {
    lower(a) == lower(b)
}

/// The text without the white space that it begins with.
pub open spec fn trim_start(s: Seq<char>) -> Seq<char>
    decreases s.len(),
{
    if s.len() > 0 && is_space(s[0]) {
        trim_start(s.drop_first())
    } else {
        s
    }
}

/// The text without the white space that it ends with.
pub open spec fn trim_end(s: Seq<char>) -> Seq<char>
    decreases s.len(),
{
    if s.len() > 0 && is_space(s.last()) {
        trim_end(s.drop_last())
    } else {
        s
    }
}

/// The text without white space at either end.
pub open spec fn trim(s: Seq<char>) -> Seq<char> {
    trim_end(trim_start(s))
}

/// The text without the copies of `c` that it begins with.
pub open spec fn trim_start_char(s: Seq<char>, c: char) -> Seq<char>
    decreases s.len(),
{
    if s.len() > 0 && s[0] == c {
        trim_start_char(s.drop_first(), c)
    } else {
        s
    }
}

/// The text without the copies of `c` that it ends with.
pub open spec fn trim_end_char(s: Seq<char>, c: char) -> Seq<char>
    decreases s.len(),
{
    if s.len() > 0 && s.last() == c {
        trim_end_char(s.drop_last(), c)
    } else {
        s
    }
}

/// The text up to the first `c`, or all of it.
pub open spec fn before(s: Seq<char>, c: char) -> Seq<char> {
    match crate::search::find(s, seq![c]) {
        Some(i) => s.take(i),
        None => s,
    }
}

/// The texts on the two sides of the first `c`.
pub open spec fn split_once(s: Seq<char>, c: char) -> Option<(Seq<char>, Seq<char>)> {
    match crate::search::find(s, seq![c]) {
        Some(i) => Some((s.take(i), s.skip(i + 1))),
        None => None,
    }
}

/// The last index of `c`.
pub open spec fn rfind(s: Seq<char>, c: char) -> Option<int>
    decreases s.len(),
{
    if s.len() == 0 {
        None
    } else if s.last() == c {
        Some(s.len() - 1)
    } else {
        rfind(s.drop_last(), c)
    }
}

/// The texts on the two sides of the last `c`.
pub open spec fn rsplit_once(s: Seq<char>, c: char) -> Option<(Seq<char>, Seq<char>)> {
    match rfind(s, c) {
        Some(i) => Some((s.take(i), s.skip(i + 1))),
        None => None,
    }
}

/// The texts between the occurrences of `sep`.
pub open spec fn pieces<T>(s: Seq<T>, sep: Seq<T>) -> Seq<Seq<T>>
    decreases s.len(),
{
    match crate::search::find(s, sep) {
        Some(i) => {
            if sep.len() == 0 {
                seq![s]
            } else {
                proof {
                    crate::search::lemma_find(s, sep);
                }
                seq![s.take(i)] + pieces(s.skip(i + sep.len()), sep)
            }
        },
        None => seq![s],
    }
}

/// A line without the carriage return before its line feed.
pub open spec fn strip_cr(s: Seq<char>) -> Seq<char> {
    if s.len() > 0 && s.last() == '\r' {
        s.drop_last()
    } else {
        s
    }
}

/// The lines of a text, split at `\n` and `\r\n`; the last one needs no ending.
pub open spec fn lines(s: Seq<char>) -> Seq<Seq<char>>
    decreases s.len(),
{
    if s.len() == 0 {
        Seq::empty()
    } else {
        match crate::search::find(s, seq!['\n']) {
            Some(i) => {
                proof {
                    crate::search::lemma_find(s, seq!['\n']);
                }
                seq![strip_cr(s.take(i))] + lines(s.skip(i + 1))
            },
            None => seq![s],
        }
    }
}

/// The longest ending of `s` without white space.
pub open spec fn tail_word(s: Seq<char>) -> Seq<char>
    decreases s.len(),
{
    if s.len() == 0 || is_space(s.last()) {
        Seq::empty()
    } else {
        tail_word(s.drop_last()).push(s.last())
    }
}

/// The last of the words that white space separates; empty where there is none.
pub open spec fn last_word(s: Seq<char>) -> Seq<char> {
    tail_word(trim_end(s))
}

/// Views of a list of texts.
pub open spec fn texts(v: Seq<Vec<char>>) -> Seq<Seq<char>> {
    v.map_values(|x: Vec<char>| x@)
}

/// Views of a list of strings.
pub open spec fn strings(v: Seq<String>) -> Seq<Seq<char>> {
    v.map_values(|x: String| x@)
}

/// View of an optional string.
pub open spec fn opt_text(s: Option<String>) -> Option<Seq<char>> {
    match s {
        Some(x) => Some(x@),
        None => None,
    }
}

// ---------------------------------------------------------------------------
// Facts

/// Text whose ends are no white space is its own trimmed form.
pub proof fn lemma_trim_none(s: Seq<char>)
    requires
        s.len() > 0 ==> !is_space(s[0]) && !is_space(s.last()),
    ensures
        trim(s) == s,
{
}

pub proof fn lemma_rfind(s: Seq<char>, c: char)
    ensures
        match rfind(s, c) {
            Some(i) => 0 <= i < s.len() && s[i] == c && (forall|j: int|
                i < j < s.len() ==> s[j] != c),
            None => forall|j: int| 0 <= j < s.len() ==> s[j] != c,
        },
    decreases s.len(),
{
    if s.len() > 0 && s.last() != c {
        lemma_rfind(s.drop_last(), c);
        match rfind(s.drop_last(), c) {
            Some(i) => {
                assert forall|j: int| i < j < s.len() implies s[j] != c by {
                    if j < s.len() - 1 {
                        assert(s.drop_last()[j] == s[j]);
                    }
                }
            },
            None => {
                assert forall|j: int| 0 <= j < s.len() implies s[j] != c by {
                    if j < s.len() - 1 {
                        assert(s.drop_last()[j] == s[j]);
                    }
                }
            },
        }
    }
}

pub proof fn lemma_rfind_is(s: Seq<char>, c: char, i: int)
    requires
        0 <= i < s.len(),
        s[i] == c,
        forall|j: int| i < j < s.len() ==> s[j] != c,
    ensures
        rfind(s, c) == Some(i as int),
{
    lemma_rfind(s, c);
}

/// A character that does not occur is not found.
pub proof fn lemma_find_char_none(s: Seq<char>, c: char)
    requires
        forall|j: int| 0 <= j < s.len() ==> s[j] != c,
    ensures
        crate::search::find(s, seq![c]) == None::<int>,
{
    assert forall|j: int| 0 <= j && j + 1 <= s.len() implies !#[trigger] crate::search::occurs(
        s,
        seq![c],
        j,
    ) by {
        crate::search::lemma_occurs_one(s, c, j);
    }
    crate::search::lemma_find_none(s, seq![c]);
}

pub proof fn lemma_find_char_is(s: Seq<char>, c: char, i: int)
    requires
        0 <= i < s.len(),
        s[i] == c,
        forall|j: int| 0 <= j < i ==> s[j] != c,
    ensures
        crate::search::find(s, seq![c]) == Some(i as int),
{
    crate::search::lemma_occurs_one(s, c, i);
    assert forall|j: int| 0 <= j < i implies !#[trigger] crate::search::occurs(
        s,
        seq![c],
        j,
    ) by {
        crate::search::lemma_occurs_one(s, c, j);
    }
    crate::search::lemma_find_is(s, seq![c], i);
}

/// Where a one-character search ends.
pub proof fn lemma_find_char(s: Seq<char>, c: char)
    ensures
        match crate::search::find(s, seq![c]) {
            Some(i) => 0 <= i < s.len() && s[i] == c && (forall|j: int|
                0 <= j < i ==> s[j] != c),
            None => forall|j: int| 0 <= j < s.len() ==> s[j] != c,
        },
{
    crate::search::lemma_find(s, seq![c]);
    match crate::search::find(s, seq![c]) {
        Some(i) => {
            crate::search::lemma_occurs_one(s, c, i as int);
            assert forall|j: int| 0 <= j < i implies s[j] != c by {
                crate::search::lemma_occurs_one(s, c, j);
            }
        },
        None => {
            assert forall|j: int| 0 <= j < s.len() implies s[j] != c by {
                crate::search::lemma_occurs_one(s, c, j);
            }
        },
    }
}

/// A split has at least one piece.
pub proof fn lemma_pieces_some<T>(s: Seq<T>, sep: Seq<T>)
    ensures
        pieces(s, sep).len() > 0,
{
}

/// Making small letters small changes nothing.
pub proof fn lemma_lower_idempotent(s: Seq<char>)
    ensures
        lower(lower(s)) == lower(s),
{
    assert(lower(lower(s)) =~= lower(s));
}

// ---------------------------------------------------------------------------
// Conversions

/// The characters of `s`.
pub fn chars_of(s: &str) -> (out: Vec<char>)
    ensures
        out@ == s@,
{
    let mut out: Vec<char> = Vec::new();
    for c in it: s.chars()
        invariant
            it.seq() == s@,
            out@ == it.seq().take(it.index()),
    {
        out.push(c);
        assert(out@ =~= it.seq().take(it.index() + 1));
    }
    assert(out@ =~= s@);
    out
}

/// Append `chars` to `out`.
pub fn push_chars(out: &mut String, chars: &[char])
    ensures
        final(out)@ == old(out)@ + chars@,
{
    let ghost start = out@;
    let mut i: usize = 0;
    while i < chars.len()
        invariant
            i <= chars@.len(),
            out@ == start + chars@.take(i as int),
        decreases chars@.len() - i,
    {
        out.push(chars[i]);
        i = i + 1;
        assert(out@ =~= start + chars@.take(i as int));
    }
    assert(out@ =~= start + chars@);
}

/// The text made of `chars`.
pub fn string_of(chars: &[char]) -> (out: String)
    ensures
        out@ == chars@,
{
    let mut out: String = String::new();
    push_chars(&mut out, chars);
    assert(out@ =~= chars@);
    out
}

/// The UTF-8 bytes of `s`.
pub fn bytes_of(s: &str) -> (out: Vec<u8>)
    ensures
        out@ == vstd::utf8::encode_utf8(s@),
{
    let mut out: Vec<u8> = Vec::new();
    let bytes = s.as_bytes();
    out.extend_from_slice(bytes);
    assert(out@ =~= bytes@);
    out
}

/// A copy of an optional string.
pub fn opt_clone(s: &Option<String>) -> (res: Option<String>)
    ensures
        opt_text(res) == opt_text(*s),
{
    match s {
        Some(x) => Some(x.clone()),
        None => None,
    }
}

// ---------------------------------------------------------------------------
// Characters

pub fn char_is_space(c: char) -> (res: bool)
    ensures
        res == is_space(c),
{
    ('\u{9}' <= c && c <= '\u{d}') || c == ' ' || c == '\u{85}' || c == '\u{a0}' || c == '\u{1680}'
        || ('\u{2000}' <= c && c <= '\u{200a}') || c == '\u{2028}' || c == '\u{2029}' || c
        == '\u{202f}' || c == '\u{205f}' || c == '\u{3000}'
}

pub fn char_is_digit(c: char) -> (res: bool)
    ensures
        res == is_digit(c),
{
    '0' <= c && c <= '9'
}

pub fn char_is_alphanumeric(c: char) -> (res: bool)
    ensures
        res == is_alphanumeric(c),
{
    ('0' <= c && c <= '9') || ('a' <= c && c <= 'z') || ('A' <= c && c <= 'Z')
}

fn char_lower(c: char) -> (res: char)
    ensures
        res == lower_char(c),
{
    if 'A' <= c && c <= 'Z' {
        ((c as u8) + 32) as char
    } else {
        c
    }
}

// ---------------------------------------------------------------------------
// Whole texts

/// `str::to_ascii_lowercase`, on characters.
pub fn to_lower(s: &[char]) -> (out: Vec<char>)
    ensures
        out@ == lower(s@),
{
    let mut out: Vec<char> = Vec::new();
    let mut i: usize = 0;
    while i < s.len()
        invariant
            i <= s@.len(),
            out@ == lower(s@.take(i as int)),
        decreases s@.len() - i,
    {
        out.push(char_lower(s[i]));
        i = i + 1;
        assert(out@ =~= lower(s@.take(i as int)));
    }
    assert(s@.take(i as int) =~= s@);
    out
}

/// The two texts hold the same characters.
pub fn same_text(a: &[char], b: &[char]) -> (res: bool)
    ensures
        res == (a@ == b@),
{
    if a.len() != b.len() {
        return false;
    }
    let mut i: usize = 0;
    while i < a.len()
        invariant
            a@.len() == b@.len(),
            i <= a@.len(),
            forall|j: int| 0 <= j < i ==> a@[j] == b@[j],
        decreases a@.len() - i,
    {
        if a[i] != b[i] {
            return false;
        }
        i = i + 1;
    }
    assert(a@ =~= b@);
    true
}

/// The two strings hold the same characters.
pub fn same_str(a: &str, b: &str) -> (res: bool)
    ensures
        res == (a@ == b@),
{
    let x: Vec<char> = chars_of(a);
    let y: Vec<char> = chars_of(b);
    same_text(x.as_slice(), y.as_slice())
}

/// `str::eq_ignore_ascii_case`.
pub fn same_str_ignoring_case(a: &str, b: &str) -> (res: bool)
    ensures
        res == same_ignoring_case(a@, b@),
{
    let x: Vec<char> = to_lower(chars_of(a).as_slice());
    let y: Vec<char> = to_lower(chars_of(b).as_slice());
    same_text(x.as_slice(), y.as_slice())
}

/// Where the trimmed text of `s` begins and ends.
pub fn trim_range(s: &[char]) -> (range: (usize, usize))
    ensures
        range.0 <= range.1 <= s@.len(),
        s@.subrange(range.0 as int, range.1 as int) == trim(s@),
{
    let mut i: usize = 0;
    assert(s@.skip(0) =~= s@);
    while i < s.len() && char_is_space(s[i])
        invariant
            i <= s@.len(),
            trim_start(s@.skip(i as int)) == trim_start(s@),
        decreases s@.len() - i,
    {
        assert(s@.skip(i as int).drop_first() =~= s@.skip(i + 1));
        i = i + 1;
    }
    let ghost t = s@.skip(i as int);
    assert(trim_start(s@) == t);
    let mut j: usize = s.len();
    assert(s@.subrange(i as int, j as int) =~= t);
    while j > i && char_is_space(s[j - 1])
        invariant
            i <= j <= s@.len(),
            trim_end(s@.subrange(i as int, j as int)) == trim_end(t),
        decreases j,
    {
        assert(s@.subrange(i as int, j as int).drop_last() =~= s@.subrange(i as int, j - 1));
        j = j - 1;
    }
    (i, j)
}

/// The text has no characters.
pub fn str_is_empty(s: &str) -> (res: bool)
    ensures
        res == (s@.len() == 0),
{
    proof {
        reveal_with_fuel(vstd::utf8::encode_utf8, 2);
    }
    s.as_bytes().len() == 0
}

/// `str::trim`, on characters.
pub fn trimmed(s: &[char]) -> (out: &[char])
    ensures
        out@ == trim(s@),
{
    let (i, j): (usize, usize) = trim_range(s);
    slice_subrange(s, i, j)
}

/// `str::trim_start_matches` of one character.
pub fn trimmed_start_char(s: &[char], c: char) -> (out: &[char])
    ensures
        out@ == trim_start_char(s@, c),
{
    let mut i: usize = 0;
    assert(s@.skip(0) =~= s@);
    while i < s.len() && s[i] == c
        invariant
            i <= s@.len(),
            trim_start_char(s@.skip(i as int), c) == trim_start_char(s@, c),
        decreases s@.len() - i,
    {
        assert(s@.skip(i as int).drop_first() =~= s@.skip(i + 1));
        i = i + 1;
    }
    let out = slice_subrange(s, i, s.len());
    assert(out@ =~= s@.skip(i as int));
    out
}

/// `str::trim_end_matches` of one character.
pub fn trimmed_end_char(s: &[char], c: char) -> (out: &[char])
    ensures
        out@ == trim_end_char(s@, c),
{
    let mut j: usize = s.len();
    assert(s@.take(j as int) =~= s@);
    while j > 0 && s[j - 1] == c
        invariant
            j <= s@.len(),
            trim_end_char(s@.take(j as int), c) == trim_end_char(s@, c),
        decreases j,
    {
        assert(s@.take(j as int).drop_last() =~= s@.take(j - 1));
        j = j - 1;
    }
    let out = slice_subrange(s, 0, j);
    assert(out@ =~= s@.take(j as int));
    out
}

/// The first index of `c`.
pub fn find_char(s: &[char], c: char) -> (res: Option<usize>)
    ensures
        res is Some <==> crate::search::find(s@, seq![c]) is Some,
        res matches Some(i) ==> crate::search::find(s@, seq![c]) == Some(i as int) && i < s@.len(),
{
    let mut i: usize = 0;
    while i < s.len()
        invariant
            i <= s@.len(),
            forall|j: int| 0 <= j < i ==> s@[j] != c,
        decreases s@.len() - i,
    {
        if s[i] == c {
            proof {
                lemma_find_char_is(s@, c, i as int);
            }
            return Some(i);
        }
        i = i + 1;
    }
    proof {
        lemma_find_char_none(s@, c);
    }
    None
}

/// The last index of `c`.
pub fn rfind_char(s: &[char], c: char) -> (res: Option<usize>)
    ensures
        res is Some <==> rfind(s@, c) is Some,
        res matches Some(i) ==> rfind(s@, c) == Some(i as int) && i < s@.len(),
{
    let mut i: usize = s.len();
    while i > 0
        invariant
            i <= s@.len(),
            forall|j: int| i <= j < s@.len() ==> s@[j] != c,
        decreases i,
    {
        i = i - 1;
        if s[i] == c {
            proof {
                lemma_rfind_is(s@, c, i as int);
            }
            return Some(i);
        }
    }
    proof {
        lemma_rfind(s@, c);
    }
    None
}

/// `str::split(c).next()`.
pub fn before_char(s: &[char], c: char) -> (out: &[char])
    ensures
        out@ == before(s@, c),
{
    match find_char(s, c) {
        Some(i) => slice_subrange(s, 0, i),
        None => s,
    }
}

/// `str::split_once` of one character.
pub fn split_once_char(s: &[char], c: char) -> (res: Option<(&[char], &[char])>)
    ensures
        res is Some <==> split_once(s@, c) is Some,
        res matches Some((a, b)) ==> split_once(s@, c) == Some((a@, b@)),
{
    match find_char(s, c) {
        Some(i) => {
            let n: usize = s.len();
            Some((slice_subrange(s, 0, i), slice_subrange(s, i + 1, n)))
        },
        None => None,
    }
}

/// `str::rsplit_once` of one character.
pub fn rsplit_once_char(s: &[char], c: char) -> (res: Option<(&[char], &[char])>)
    ensures
        res is Some <==> rsplit_once(s@, c) is Some,
        res matches Some((a, b)) ==> rsplit_once(s@, c) == Some((a@, b@)),
{
    match rfind_char(s, c) {
        Some(i) => {
            let n: usize = s.len();
            Some((slice_subrange(s, 0, i), slice_subrange(s, i + 1, n)))
        },
        None => None,
    }
}

/// A text of its own with the characters of a slice.
pub fn to_chars(s: &[char]) -> (out: Vec<char>)
    ensures
        out@ == s@,
{
    let mut out: Vec<char> = Vec::new();
    out.extend_from_slice(s);
    assert(out@ =~= s@);
    out
}

/// `str::split`, collected.
pub fn split_pieces(s: &[char], sep: &[char]) -> (out: Vec<Vec<char>>)
    requires
        sep@.len() > 0,
    ensures
        texts(out@) == pieces(s@, sep@),
{
    let mut out: Vec<Vec<char>> = Vec::new();
    let mut pos: usize = 0;
    let n: usize = s.len();
    assert(s@.skip(0) =~= s@);
    assert(texts(out@) + pieces(s@, sep@) =~= pieces(s@, sep@));
    loop
        invariant
            n == s@.len(),
            pos <= n,
            sep@.len() > 0,
            texts(out@) + pieces(s@.skip(pos as int), sep@) == pieces(s@, sep@),
        decreases n - pos,
    {
        let rest = slice_subrange(s, pos, n);
        assert(rest@ =~= s@.skip(pos as int));
        let ghost before_out = texts(out@);
        match find_chars(rest, sep) {
            Some(i) => {
                let piece = to_chars(slice_subrange(rest, 0, i));
                let ghost p = piece@;
                out.push(piece);
                assert(p =~= rest@.take(i as int));
                assert(texts(out@) =~= before_out.push(p));
                assert(s@.skip(pos as int).skip(i + sep@.len()) =~= s@.skip(
                    pos + i + sep@.len(),
                ));
                assert(before_out.push(p) + pieces(s@.skip(pos + i + sep@.len()), sep@)
                    =~= before_out + (seq![p] + pieces(s@.skip(pos + i + sep@.len()), sep@)));
                pos = pos + i + sep.len();
            },
            None => {
                let piece = to_chars(rest);
                let ghost p = piece@;
                out.push(piece);
                assert(texts(out@) =~= before_out + seq![p]);
                return out;
            },
        }
    }
}

/// `str::lines`, collected.
pub fn split_lines(s: &[char]) -> (out: Vec<Vec<char>>)
    ensures
        texts(out@) == lines(s@),
{
    let mut out: Vec<Vec<char>> = Vec::new();
    let mut pos: usize = 0;
    let n: usize = s.len();
    assert(s@.skip(0) =~= s@);
    assert(texts(out@) + lines(s@) =~= lines(s@));
    while pos < n
        invariant
            n == s@.len(),
            pos <= n,
            texts(out@) + lines(s@.skip(pos as int)) == lines(s@),
        decreases n - pos,
    {
        let rest = slice_subrange(s, pos, n);
        assert(rest@ =~= s@.skip(pos as int));
        let ghost before_out = texts(out@);
        match find_char(rest, '\n') {
            Some(i) => {
                let end: usize = if i > 0 && rest[i - 1] == '\r' {
                    i - 1
                } else {
                    i
                };
                let line = to_chars(slice_subrange(rest, 0, end));
                let ghost p = line@;
                out.push(line);
                assert(p =~= strip_cr(rest@.take(i as int)));
                assert(texts(out@) =~= before_out.push(p));
                assert(s@.skip(pos as int).skip(i + 1) =~= s@.skip(pos + i + 1));
                assert(before_out.push(p) + lines(s@.skip(pos + i + 1)) =~= before_out + (seq![p]
                    + lines(s@.skip(pos + i + 1))));
                pos = pos + i + 1;
            },
            None => {
                let line = to_chars(rest);
                let ghost p = line@;
                out.push(line);
                assert(texts(out@) =~= before_out + seq![p]);
                return out;
            },
        }
    }
    assert(lines(s@.skip(pos as int)) =~= Seq::empty());
    assert(texts(out@) =~= lines(s@));
    out
}

/// `str::split_whitespace().last()`, empty where there is no word.
pub fn final_word(s: &[char]) -> (out: &[char])
    ensures
        out@ == last_word(s@),
{
    let mut j: usize = s.len();
    assert(s@.take(j as int) =~= s@);
    while j > 0 && char_is_space(s[j - 1])
        invariant
            j <= s@.len(),
            trim_end(s@.take(j as int)) == trim_end(s@),
        decreases j,
    {
        assert(s@.take(j as int).drop_last() =~= s@.take(j - 1));
        j = j - 1;
    }
    let ghost t = s@.take(j as int);
    assert(trim_end(s@) == t);
    let mut i: usize = j;
    assert(s@.subrange(i as int, j as int) =~= Seq::empty());
    assert(tail_word(t) =~= tail_word(s@.take(i as int)) + s@.subrange(i as int, j as int));
    while i > 0 && !char_is_space(s[i - 1])
        invariant
            i <= j <= s@.len(),
            tail_word(t) == tail_word(s@.take(i as int)) + s@.subrange(i as int, j as int),
        decreases i,
    {
        assert(s@.take(i as int).drop_last() =~= s@.take(i - 1));
        assert(tail_word(s@.take(i as int)) + s@.subrange(i as int, j as int) =~= tail_word(
            s@.take(i - 1),
        ) + s@.subrange(i - 1, j as int));
        i = i - 1;
    }
    assert(tail_word(s@.take(i as int)) =~= Seq::empty());
    let out = slice_subrange(s, i, j);
    assert(out@ =~= tail_word(t));
    out
}

// ---------------------------------------------------------------------------
// Laws

/// Of the ASCII characters white space is the space and those from the tab to
/// the carriage return.
pub proof fn law_ascii_white_space(c: char)
    ensures
        c <= '\u{7f}' ==> (is_space(c) <==> c == ' ' || c == '\t' || c == '\n' || c == '\u{b}' || c
            == '\u{c}' || c == '\r'),
        c > '\u{7f}' ==> (is_space(c) <==> c == '\u{85}' || c == '\u{a0}' || c == '\u{1680}'
            || '\u{2000}' <= c <= '\u{200a}' || c == '\u{2028}' || c == '\u{2029}' || c
            == '\u{202f}' || c == '\u{205f}' || c == '\u{3000}'),
{
}

/// Trimming takes white space from both ends and nothing else, and leaves none
/// there.
pub proof fn law_trim(s: Seq<char>)
    ensures
        exists|i: int, j: int|
            0 <= i <= j <= s.len() && #[trigger] s.subrange(i, j) == trim(s) && (forall|k: int|
                0 <= k < i || j <= k < s.len() ==> is_space(#[trigger] s[k])),
        trim(s).len() > 0 ==> !is_space(trim(s)[0]) && !is_space(trim(s).last()),
{
    lemma_trim_start(s);
    let t = trim_start(s);
    let i = s.len() - t.len();
    lemma_trim_end(t);
    let j = i + trim(s).len();
    assert(s.subrange(i, j) =~= trim(s)) by {
        assert(s.skip(i) == t);
        assert(t.take(trim(s).len() as int) == trim(s));
    }
    assert forall|k: int| 0 <= k < i || j <= k < s.len() implies is_space(#[trigger] s[k]) by {
        if k >= j {
            assert(t[k - i] == s[k]);
        }
    }
    if trim(s).len() > 0 {
        assert(trim(s)[0] == t[0]);
    }
}

proof fn lemma_trim_start(s: Seq<char>)
    ensures
        trim_start(s).len() <= s.len(),
        s.skip(s.len() - trim_start(s).len()) == trim_start(s),
        forall|k: int| 0 <= k < s.len() - trim_start(s).len() ==> is_space(#[trigger] s[k]),
        trim_start(s).len() > 0 ==> !is_space(trim_start(s)[0]),
    decreases s.len(),
{
    if s.len() > 0 && is_space(s[0]) {
        let rest = s.drop_first();
        lemma_trim_start(rest);
        let n = s.len() - trim_start(s).len();
        assert(s.skip(n) =~= rest.skip(n - 1));
        assert forall|k: int| 0 <= k < n implies is_space(#[trigger] s[k]) by {
            if k > 0 {
                assert(s[k] == rest[k - 1]);
            }
        }
    } else {
        assert(s.skip(0) =~= s);
    }
}

proof fn lemma_trim_end(s: Seq<char>)
    ensures
        trim_end(s).len() <= s.len(),
        s.take(trim_end(s).len() as int) == trim_end(s),
        forall|k: int| trim_end(s).len() <= k < s.len() ==> is_space(#[trigger] s[k]),
        trim_end(s).len() > 0 ==> !is_space(trim_end(s).last()),
    decreases s.len(),
{
    if s.len() > 0 && is_space(s.last()) {
        let rest = s.drop_last();
        lemma_trim_end(rest);
        let n = trim_end(s).len() as int;
        assert(s.take(n) =~= rest.take(n));
        assert forall|k: int| n <= k < s.len() implies is_space(#[trigger] s[k]) by {
            if k < s.len() - 1 {
                assert(s[k] == rest[k]);
            }
        }
    } else {
        assert(s.take(s.len() as int) =~= s);
    }
}

/// Trimming copies of a character takes all of them from that end and nothing
/// else.
pub proof fn law_trim_char(s: Seq<char>, c: char)
    ensures
        trim_end_char(s, c).len() <= s.len(),
        s.take(trim_end_char(s, c).len() as int) == trim_end_char(s, c),
        forall|k: int| trim_end_char(s, c).len() <= k < s.len() ==> #[trigger] s[k] == c,
        trim_end_char(s, c).len() > 0 ==> trim_end_char(s, c).last() != c,
        trim_start_char(s, c).len() <= s.len(),
        s.skip(s.len() - trim_start_char(s, c).len()) == trim_start_char(s, c),
        forall|k: int| 0 <= k < s.len() - trim_start_char(s, c).len() ==> #[trigger] s[k] == c,
        trim_start_char(s, c).len() > 0 ==> trim_start_char(s, c)[0] != c,
    decreases s.len(),
{
    if s.len() > 0 {
        let init = s.drop_last();
        let rest = s.drop_first();
        law_trim_char(init, c);
        law_trim_char(rest, c);
        let n = trim_end_char(s, c).len() as int;
        let m = s.len() - trim_start_char(s, c).len();
        if s.last() == c {
            assert(s.take(n) =~= init.take(n));
            assert forall|k: int| n <= k < s.len() implies #[trigger] s[k] == c by {
                if k < s.len() - 1 {
                    assert(s[k] == init[k]);
                }
            }
        } else {
            assert(s.take(n) =~= s);
        }
        if s[0] == c {
            assert(s.skip(m) =~= rest.skip(m - 1));
            assert forall|k: int| 0 <= k < m implies #[trigger] s[k] == c by {
                if k > 0 {
                    assert(s[k] == rest[k - 1]);
                }
            }
        } else {
            assert(s.skip(m) =~= s);
        }
    } else {
        assert(s.take(0) =~= s);
        assert(s.skip(0) =~= s);
    }
}

/// Small letters stand for capitals; everything else stays as it is.
pub proof fn law_lower(s: Seq<char>)
    ensures
        lower(s).len() == s.len(),
        forall|i: int|
            0 <= i < s.len() ==> (#[trigger] lower(s)[i]) as int == (if 'A' <= s[i] <= 'Z' {
                s[i] as int + 32
            } else {
                s[i] as int
            }),
{
}

/// Texts are the same but for letter case where they are as long as each other
/// and each pair of characters is equal or a letter in its two cases.
pub proof fn law_same_ignoring_case(a: Seq<char>, b: Seq<char>)
    ensures
        same_ignoring_case(a, b) <==> a.len() == b.len() && forall|i: int|
            #![trigger a[i]]
            #![trigger b[i]]
            0 <= i < a.len() ==> a[i] == b[i] || 'A' <= a[i] <= 'Z' && b[i] as int == a[i] as int
                + 32 || 'A' <= b[i] <= 'Z' && a[i] as int == b[i] as int + 32,
{
    if same_ignoring_case(a, b) {
        assert(lower(a).len() == a.len() && lower(b).len() == b.len());
        assert forall|i: int| #![trigger a[i]] #![trigger b[i]] 0 <= i < a.len() implies a[i] == b[i]
            || 'A' <= a[i] <= 'Z' && b[i] as int == a[i] as int + 32 || 'A' <= b[i] <= 'Z' && a[i] as int
            == b[i] as int + 32 by {
            assert(lower(a)[i] == lower(b)[i]);
        }
    } else if a.len() == b.len() && forall|i: int|
        #![trigger a[i]]
        #![trigger b[i]]
        0 <= i < a.len() ==> a[i] == b[i] || 'A' <= a[i] <= 'Z' && b[i] as int == a[i] as int + 32
            || 'A' <= b[i] <= 'Z' && a[i] as int == b[i] as int + 32 {
        assert(lower(a) =~= lower(b)) by {
            assert forall|i: int| 0 <= i < a.len() implies lower(a)[i] == lower(b)[i] by {
                assert(a[i] == b[i] || 'A' <= a[i] <= 'Z' && b[i] as int == a[i] as int + 32
                    || 'A' <= b[i] <= 'Z' && a[i] as int == b[i] as int + 32);
            }
        }
    }
}

/// Text splits at the first of a character, and at the last where it is split
/// from the right; text without the character does not split.
pub proof fn law_splitting(a: Seq<char>, c: char, b: Seq<char>)
    ensures
        (forall|i: int| 0 <= i < a.len() ==> a[i] != c) ==> {
            &&& before(a, c) == a
            &&& before(a + seq![c] + b, c) == a
            &&& split_once(a, c) is None
            &&& split_once(a + seq![c] + b, c) == Some((a, b))
            &&& rsplit_once(a, c) is None
        },
        (forall|i: int| 0 <= i < b.len() ==> b[i] != c) ==> rsplit_once(a + seq![c] + b, c) == Some(
            (a, b),
        ),
{
    let s = a + seq![c] + b;
    let k = a.len() as int;
    assert(s[k] == c);
    assert(s.take(k) =~= a);
    assert(s.skip(k + 1) =~= b);
    if forall|i: int| 0 <= i < a.len() ==> a[i] != c {
        lemma_find_char_none(a, c);
        assert forall|i: int| 0 <= i < k implies s[i] != c by {
            assert(s[i] == a[i]);
        }
        lemma_find_char_is(s, c, k);
        lemma_rfind(a, c);
    }
    if forall|i: int| 0 <= i < b.len() ==> b[i] != c {
        assert forall|j: int| k < j < s.len() implies s[j] != c by {
            assert(s[j] == b[j - k - 1]);
        }
        lemma_rfind_is(s, c, k);
    }
}

/// Lines end at a line feed, with or without a carriage return before it; the
/// last one needs no end.
pub proof fn law_lines(line: Seq<char>, rest: Seq<char>)
    requires
        forall|i: int| 0 <= i < line.len() ==> line[i] != '\n',
    ensures
        lines(Seq::empty()).len() == 0,
        line.len() > 0 ==> lines(line) == seq![line],
        line.len() > 0 && line.last() == '\r' || lines(line + seq!['\n'] + rest) == seq![line] + lines(
            rest,
        ),
        lines(line + seq!['\r', '\n'] + rest) == seq![line] + lines(rest),
{
    let cr = line + seq!['\r'];
    let plain = line + seq!['\n'] + rest;
    let full = line + seq!['\r', '\n'] + rest;
    lemma_find_char_none(line, '\n');
    assert(full =~= cr + seq!['\n'] + rest);
    assert(plain[line.len() as int] == '\n' && full[cr.len() as int] == '\n');
    assert forall|i: int| 0 <= i < line.len() implies plain[i] != '\n' by {
        assert(plain[i] == line[i]);
    }
    assert forall|i: int| 0 <= i < cr.len() implies full[i] != '\n' by {
        if i < line.len() {
            assert(full[i] == line[i]);
        }
    }
    lemma_find_char_is(plain, '\n', line.len() as int);
    lemma_find_char_is(full, '\n', cr.len() as int);
    assert(plain.take(line.len() as int) =~= line);
    assert(plain.skip(line.len() as int + 1) =~= rest);
    assert(full.take(cr.len() as int) =~= cr);
    assert(full.skip(cr.len() as int + 1) =~= rest);
    assert(cr.drop_last() =~= line);
    assert(cr.last() == '\r');
}

/// Text splits at each separator: where the first one stands behind `piece`, that
/// is the first piece.
pub proof fn law_pieces<T>(piece: Seq<T>, sep: Seq<T>, rest: Seq<T>)
    requires
        sep.len() > 0,
    ensures
        (forall|j: int|
            0 <= j < piece.len() ==> !#[trigger] crate::search::occurs(piece + sep + rest, sep, j))
            ==> pieces(piece + sep + rest, sep) == seq![piece] + pieces(rest, sep),
        (forall|j: int| 0 <= j < piece.len() ==> !#[trigger] crate::search::occurs(piece, sep, j))
            ==> pieces(piece, sep) == seq![piece],
{
    let s = piece + sep + rest;
    let k = piece.len() as int;
    assert(s.subrange(k, k + sep.len()) =~= sep);
    assert(s.take(k) =~= piece);
    assert(s.skip(k + sep.len()) =~= rest);
    if forall|j: int|
        0 <= j < piece.len() ==> !#[trigger] crate::search::occurs(piece + sep + rest, sep, j) {
        crate::search::lemma_find_is(s, sep, k);
    }
    if forall|j: int| 0 <= j < piece.len() ==> !#[trigger] crate::search::occurs(piece, sep, j) {
        crate::search::lemma_find_none(piece, sep);
    }
}

/// The last word stands behind white space, or at the front, and in front of
/// nothing but white space.
pub proof fn law_last_word(front: Seq<char>, word: Seq<char>, back: Seq<char>)
    requires
        word.len() > 0,
        forall|i: int| 0 <= i < word.len() ==> !is_space(#[trigger] word[i]),
        forall|i: int| 0 <= i < back.len() ==> is_space(#[trigger] back[i]),
        front.len() > 0 ==> is_space(front.last()),
    ensures
        last_word(front + word + back) == word,
        last_word(back).len() == 0,
{
    let s = front + word + back;
    lemma_trim_end(s);
    lemma_trim_end(back);
    let n = trim_end(s).len() as int;
    let k = (front + word).len() as int;
    assert(s[k - 1] == word.last());
    assert(n == k) by {
        if n < k {
            assert(is_space(s[k - 1]));
        } else if n > k {
            assert(trim_end(s).last() == s[n - 1]);
            assert(s[n - 1] == back[n - 1 - k]);
        }
    }
    assert(trim_end(s) =~= front + word);
    lemma_tail_word(front, word);
    if trim_end(back).len() > 0 {
        assert(trim_end(back).last() == back[trim_end(back).len() - 1]);
    }
}

proof fn lemma_tail_word(front: Seq<char>, word: Seq<char>)
    requires
        forall|i: int| 0 <= i < word.len() ==> !is_space(#[trigger] word[i]),
        front.len() > 0 ==> is_space(front.last()),
    ensures
        tail_word(front + word) == word,
    decreases word.len(),
{
    let s = front + word;
    if word.len() == 0 {
        assert(s =~= front);
        assert(tail_word(s) =~= word);
    } else {
        let less = word.drop_last();
        assert forall|i: int| 0 <= i < less.len() implies !is_space(#[trigger] less[i]) by {
            assert(less[i] == word[i]);
        }
        assert(s.last() == word[word.len() - 1]);
        assert(s.drop_last() =~= front + less);
        lemma_tail_word(front, less);
        assert(tail_word(s) =~= word);
    }
}

/// White space around text that neither begins nor ends with any is taken away.
pub proof fn law_trim_takes_what_is_around(front: Seq<char>, s: Seq<char>, back: Seq<char>)
    requires
        forall|i: int| 0 <= i < front.len() ==> is_space(#[trigger] front[i]),
        forall|i: int| 0 <= i < back.len() ==> is_space(#[trigger] back[i]),
        s.len() > 0 ==> !is_space(s[0]) && !is_space(s.last()),
    ensures
        trim(front + s + back) == s,
{
    let all = front + s + back;
    law_trim(all);
    let (i, j) = choose|i: int, j: int|
        0 <= i <= j <= all.len() && #[trigger] all.subrange(i, j) == trim(all) && (forall|k: int|
            0 <= k < i || j <= k < all.len() ==> is_space(#[trigger] all[k]));
    let (n, m) = (front.len() as int, (front + s).len() as int);
    if s.len() > 0 {
        assert(all[n] == s[0] && all[m - 1] == s.last());
        assert(i <= n && m <= j);
        if i < n {
            assert(all[i] == front[i] && all.subrange(i, j)[0] == all[i]);
        }
        if m < j {
            assert(all[j - 1] == back[j - 1 - m] && all.subrange(i, j).last() == all[j - 1]);
        }
        assert(all.subrange(n, m) =~= s);
    } else if trim(all).len() > 0 {
        assert(all.subrange(i, j)[0] == all[i]);
        if i < n {
            assert(all[i] == front[i]);
        } else {
            assert(all[i] == back[i - n]);
        }
    } else {
        assert(trim(all) =~= s);
    }
}

/// Bytes of text are shown as that text, and lists of texts as they stand.
pub proof fn law_shown_as_it_is(s: Seq<char>, v: Seq<String>, o: Option<String>)
    ensures
        shown_text(vstd::utf8::encode_utf8(s)) == s,
        strings(v).len() == v.len(),
        forall|i: int| 0 <= i < v.len() ==> #[trigger] strings(v)[i] == v[i]@,
        opt_text(o) is Some <==> o is Some,
        o matches Some(text) ==> opt_text(o) == Some(text@),
{
    vstd::utf8::encode_utf8_valid_utf8(s);
    vstd::utf8::encode_utf8_decode_utf8(s);
}

} // verus!

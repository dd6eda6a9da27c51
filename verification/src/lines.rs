//! What the lines of a head say.
use vstd::prelude::*;

verus! {

/// A byte that may stand in a value: a tab, or one from the space on, without
/// DEL.
pub open spec fn is_text_byte(b: u8) -> bool {
    b == 9 || b >= 32 && b != 127
}

pub open spec fn is_text(s: Seq<u8>) -> bool {
    forall|i: int| 0 <= i < s.len() ==> is_text_byte(#[trigger] s[i])
}

/// Bytes that may stand in a request target.
pub open spec fn is_visible(s: Seq<u8>) -> bool {
    forall|i: int| 0 <= i < s.len() ==> (#[trigger] s[i]) >= 33 && s[i] != 127
}

/// A byte that may stand in a name or a method: a letter, a digit, or one of
/// `` !#$%&'*+-.^_`|~ ``.
pub open spec fn is_token_byte(b: u8) -> bool {
    ||| 97 <= b <= 122
    ||| 65 <= b <= 90
    ||| 48 <= b <= 57
    ||| b == 33
    ||| 35 <= b <= 39
    ||| b == 42 || b == 43 || b == 45 || b == 46
    ||| 94 <= b <= 96
    ||| b == 124 || b == 126
}

pub open spec fn is_token(s: Seq<u8>) -> bool {
    &&& s.len() > 0
    &&& forall|i: int| 0 <= i < s.len() ==> is_token_byte(#[trigger] s[i])
}

/// ASCII bytes as text.
pub open spec fn ascii_text(s: Seq<u8>) -> Seq<char> {
    Seq::new(s.len(), |i: int| s[i] as char)
}

/// A space or a tab.
pub open spec fn is_gap(b: u8) -> bool {
    b == 32 || b == 9
}

/// Bytes without the spaces and tabs in front.
pub open spec fn ungapped_start(s: Seq<u8>) -> Seq<u8>
    decreases s.len(),
{
    if s.len() > 0 && is_gap(s[0]) {
        ungapped_start(s.drop_first())
    } else {
        s
    }
}

/// Bytes without the spaces and tabs behind.
pub open spec fn ungapped_end(s: Seq<u8>) -> Seq<u8>
    decreases s.len(),
{
    if s.len() > 0 && is_gap(s.last()) {
        ungapped_end(s.drop_last())
    } else {
        s
    }
}

/// Bytes without the spaces and tabs around them.
pub open spec fn ungapped(s: Seq<u8>) -> Seq<u8> {
    ungapped_end(ungapped_start(s))
}

/// The name and the value that a header line says: they stand around its first
/// colon.
pub open spec fn header_on(line: Seq<u8>) -> Option<(Seq<char>, Seq<u8>)> {
    match crate::search::find(line, seq![58u8]) {
        Some(k) => if is_token(line.take(k)) && is_text(line.skip(k + 1)) {
            Some((ascii_text(line.take(k)), ungapped(line.skip(k + 1))))
        } else {
            None
        },
        None => None,
    }
}

/// The headers that lines say, if each says one.
pub open spec fn headers_on(lines: Seq<Seq<u8>>) -> Option<Seq<(Seq<char>, Seq<u8>)>> {
    if forall|i: int| 0 <= i < lines.len() ==> header_on(#[trigger] lines[i]) is Some {
        Some(Seq::new(lines.len(), |i: int| header_on(lines[i])->Some_0))
    } else {
        None
    }
}

pub open spec fn is_version(s: Seq<u8>) -> bool {
    s == vstd::utf8::encode_utf8("HTTP/1.1"@) || s == vstd::utf8::encode_utf8("HTTP/1.0"@)
}

/// The method and the target that a request line says, a space behind each.
pub open spec fn request_on(line: Seq<u8>) -> Option<(Seq<char>, Seq<char>)> {
    match crate::search::find(line, seq![32u8]) {
        Some(k) => {
            let method = line.take(k);
            let rest = line.skip(k + 1);
            match crate::search::find(rest, seq![32u8]) {
                Some(n) => {
                    let target = rest.take(n);
                    if is_token(method) && target.len() > 0 && is_visible(target)
                        && vstd::utf8::valid_utf8(target) && is_version(rest.skip(n + 1)) {
                        Some((ascii_text(method), vstd::utf8::decode_utf8(target)))
                    } else {
                        None
                    }
                },
                None => None,
            }
        },
        None => None,
    }
}

pub open spec fn is_digit_byte(b: u8) -> bool {
    48 <= b <= 57
}

/// The status that a status line says: three digits behind the version, with or
/// without a reason behind them.
pub open spec fn status_on(line: Seq<u8>) -> Option<u16> {
    match crate::search::find(line, seq![32u8]) {
        Some(k) => {
            let rest = line.skip(k + 1);
            if is_version(line.take(k)) && rest.len() >= 3 && is_digit_byte(rest[0])
                && is_digit_byte(rest[1]) && is_digit_byte(rest[2]) && (rest.len() == 3 || rest[3]
                == 32) && is_text(rest) {
                Some((100 * (rest[0] - 48) + 10 * (rest[1] - 48) + (rest[2] - 48)) as u16)
            } else {
                None
            }
        },
        None => None,
    }
}

/// Text whose bytes may stand in a value.
pub open spec fn is_value_text(s: Seq<char>) -> bool {
    forall|i: int|
        0 <= i < s.len() ==> (#[trigger] s[i]) == '\t' || s[i] >= ' ' && s[i] != '\u{7f}'
}

pub proof fn lemma_value_text(s: Seq<char>)
    requires
        is_value_text(s),
    ensures
        is_text(vstd::utf8::encode_utf8(s)),
{
    crate::encoding::lemma_encoded_has(s);
    let bytes = vstd::utf8::encode_utf8(s);
    assert forall|k: int| 0 <= k < bytes.len() implies is_text_byte(#[trigger] bytes[k]) by {
        if bytes[k] < 128 {
            let j = choose|j: int|
                0 <= j < s.len() && (#[trigger] s[j]) <= '\u{7f}' && s[j] as u8 == bytes[k];
            assert(s[j] == '\t' || s[j] >= ' ' && s[j] != '\u{7f}');
        }
    }
}

/// A version is ASCII, without a space or a line break, and holds a slash.
pub proof fn lemma_version(s: Seq<u8>)
    requires
        is_version(s),
    ensures
        s.len() == 8,
        forall|i: int| 0 <= i < 8 ==> 33 <= #[trigger] s[i] < 127,
        s[0] == 72,
        s[4] == 47,
{
    reveal_strlit("HTTP/1.1");
    reveal_strlit("HTTP/1.0");
    let new = "HTTP/1.1"@;
    let old = "HTTP/1.0"@;
    assert(vstd::utf8::is_ascii_chars(new));
    assert(vstd::utf8::is_ascii_chars(old));
    vstd::utf8::is_ascii_chars_encode_utf8(new);
    vstd::utf8::is_ascii_chars_encode_utf8(old);
    assert forall|i: int| 0 <= i < 8 implies 33 <= #[trigger] s[i] < 127 by {
        assert(new[i] as u8 == vstd::utf8::encode_utf8(new)[i]);
        assert(old[i] as u8 == vstd::utf8::encode_utf8(old)[i]);
    }
    assert(new[0] as u8 == vstd::utf8::encode_utf8(new)[0]);
    assert(old[0] as u8 == vstd::utf8::encode_utf8(old)[0]);
    assert(new[4] as u8 == vstd::utf8::encode_utf8(new)[4]);
    assert(old[4] as u8 == vstd::utf8::encode_utf8(old)[4]);
}

/// A request line begins with no line break and holds none.
pub proof fn lemma_request_line_bytes(line: Seq<u8>)
    requires
        request_on(line) is Some,
    ensures
        line.len() > 0,
        line[0] != 13,
        line[0] != 10,
        !line.contains(10u8),
{
    crate::search::lemma_find(line, seq![32u8]);
    let k = crate::search::find(line, seq![32u8])->Some_0;
    crate::search::lemma_occurs_one(line, 32u8, k);
    let rest = line.skip(k + 1);
    crate::search::lemma_find(rest, seq![32u8]);
    let n = crate::search::find(rest, seq![32u8])->Some_0;
    crate::search::lemma_occurs_one(rest, 32u8, n);
    let version = rest.skip(n + 1);
    lemma_version(version);
    assert(is_token_byte(line.take(k)[0]));
    assert forall|i: int| 0 <= i < line.len() implies line[i] != 10 by {
        if i < k {
            assert(is_token_byte(line.take(k)[i]));
        } else if i > k {
            assert(line[i] == rest[i - k - 1]);
            if i - k - 1 < n {
                assert(rest.take(n)[i - k - 1] >= 33);
            } else if i - k - 1 > n {
                assert(version[i - k - 2 - n] >= 33);
            }
        }
    }
}

/// A status line begins with no line break and holds none.
pub proof fn lemma_status_line_bytes(line: Seq<u8>)
    requires
        status_on(line) is Some,
    ensures
        line.len() > 0,
        line[0] != 13,
        line[0] != 10,
        !line.contains(10u8),
{
    crate::search::lemma_find(line, seq![32u8]);
    let k = crate::search::find(line, seq![32u8])->Some_0;
    crate::search::lemma_occurs_one(line, 32u8, k);
    let rest = line.skip(k + 1);
    lemma_version(line.take(k));
    assert(line.take(k)[0] == line[0]);
    assert forall|i: int| 0 <= i < line.len() implies line[i] != 10 by {
        if i < k {
            assert(line.take(k)[i] >= 33);
        } else if i > k {
            assert(is_text_byte(rest[i - k - 1]));
        }
    }
}

/// A header line holds no line break, and something.
pub proof fn lemma_header_line_bytes(line: Seq<u8>)
    requires
        header_on(line) is Some,
    ensures
        line.len() > 0,
        !line.contains(10u8),
{
    crate::search::lemma_find(line, seq![58u8]);
    let k = crate::search::find(line, seq![58u8])->Some_0;
    crate::search::lemma_occurs_one(line, 58u8, k);
    assert forall|i: int| 0 <= i < line.len() implies line[i] != 10 by {
        if i < k {
            assert(is_token_byte(line.take(k)[i]));
        } else if i > k {
            assert(is_text_byte(line.skip(k + 1)[i - k - 1]));
        }
    }
}

/// The first place of a byte behind bytes without it.
pub proof fn lemma_first_byte(front: Seq<u8>, b: u8, rest: Seq<u8>)
    requires
        !front.contains(b),
    ensures
        crate::search::find(front + seq![b] + rest, seq![b]) == Some(front.len() as int),
        (front + seq![b] + rest).take(front.len() as int) == front,
        (front + seq![b] + rest).skip(front.len() as int + 1) == rest,
{
    let all = front + seq![b] + rest;
    let k = front.len() as int;
    crate::search::lemma_occurs_one(all, b, k);
    assert forall|j: int| 0 <= j < k implies !#[trigger] crate::search::occurs(
        all,
        seq![b],
        j,
    ) by {
        crate::search::lemma_occurs_one(all, b, j);
        assert(all[j] == front[j]);
    }
    crate::search::lemma_find_is(all, seq![b], k);
    assert(all.take(k) =~= front);
    assert(all.skip(k + 1) =~= rest);
}

/// A name is made of letters, digits and fifteen other characters; a value of
/// everything but control characters, with tabs; a target of what is visible.
pub proof fn law_bytes_of_a_head(b: u8)
    ensures
        is_token_byte(b) <==> 'a' <= b as char <= 'z' || 'A' <= b as char <= 'Z' || '0' <= b as char
            <= '9' || b as char == '!' || b as char == '#' || b as char == '$' || b as char == '%'
            || b as char == '&' || b as char == '\'' || b as char == '*' || b as char == '+'
            || b as char == '-' || b as char == '.' || b as char == '^' || b as char == '_'
            || b as char == '`' || b as char == '|' || b as char == '~',
        is_token(seq![b]) <==> is_token_byte(b),
        is_text(seq![b]) <==> b == 9 || 32 <= b < 127 || 128 <= b,
        is_visible(seq![b]) <==> 33 <= b < 127 || 128 <= b,
        !is_token(Seq::empty()),
        is_text(Seq::empty()),
{
    let one = seq![b];
    assert(one[0] == b);
}

/// What holds of the bytes of two pieces holds of the bytes of both.
pub proof fn law_bytes_side_by_side(a: Seq<u8>, b: Seq<u8>)
    ensures
        is_text(a + b) <==> is_text(a) && is_text(b),
        is_visible(a + b) <==> is_visible(a) && is_visible(b),
        a.len() > 0 && b.len() > 0 ==> (is_token(a + b) <==> is_token(a) && is_token(b)),
{
    let all = a + b;
    assert forall|i: int| 0 <= i < a.len() implies all[i] == a[i] by {}
    assert forall|i: int| 0 <= i < b.len() implies all[i + a.len()] == b[i] by {}
    if is_text(all) {
        assert forall|i: int| 0 <= i < a.len() implies is_text_byte(#[trigger] a[i]) by {
            assert(is_text_byte(all[i]));
        }
        assert forall|i: int| 0 <= i < b.len() implies is_text_byte(#[trigger] b[i]) by {
            assert(is_text_byte(all[i + a.len()]));
        }
    }
    if is_visible(all) {
        assert forall|i: int| 0 <= i < a.len() implies (#[trigger] a[i]) >= 33 && a[i] != 127 by {
            assert(all[i] >= 33 && all[i] != 127);
        }
        assert forall|i: int| 0 <= i < b.len() implies (#[trigger] b[i]) >= 33 && b[i] != 127 by {
            assert(all[i + a.len()] >= 33 && all[i + a.len()] != 127);
        }
    }
    if a.len() > 0 && b.len() > 0 && is_token(all) {
        assert forall|i: int| 0 <= i < a.len() implies is_token_byte(#[trigger] a[i]) by {
            assert(is_token_byte(all[i]));
        }
        assert forall|i: int| 0 <= i < b.len() implies is_token_byte(#[trigger] b[i]) by {
            assert(is_token_byte(all[i + a.len()]));
        }
    }
}

proof fn lemma_ungapped_start(gap: Seq<u8>, s: Seq<u8>)
    requires
        forall|i: int| 0 <= i < gap.len() ==> (#[trigger] gap[i]) == 32 || gap[i] == 9,
        s.len() > 0 ==> s[0] != 32 && s[0] != 9,
    ensures
        ungapped_start(gap + s) == s,
    decreases gap.len(),
{
    if gap.len() == 0 {
        assert(gap + s =~= s);
    } else {
        assert((gap + s)[0] == gap[0]);
        assert((gap + s).drop_first() =~= gap.drop_first() + s);
        assert forall|i: int| 0 <= i < gap.drop_first().len() implies (
        #[trigger] gap.drop_first()[i]) == 32 || gap.drop_first()[i] == 9 by {
            assert(gap[i + 1] == 32 || gap[i + 1] == 9);
        }
        lemma_ungapped_start(gap.drop_first(), s);
    }
}

proof fn lemma_ungapped_end(s: Seq<u8>, gap: Seq<u8>)
    requires
        forall|i: int| 0 <= i < gap.len() ==> (#[trigger] gap[i]) == 32 || gap[i] == 9,
        s.len() > 0 ==> s.last() != 32 && s.last() != 9,
    ensures
        ungapped_end(s + gap) == s,
    decreases gap.len(),
{
    if gap.len() == 0 {
        assert(s + gap =~= s);
    } else {
        assert((s + gap).last() == gap.last());
        assert((s + gap).drop_last() =~= s + gap.drop_last());
        assert forall|i: int| 0 <= i < gap.drop_last().len() implies (
        #[trigger] gap.drop_last()[i]) == 32 || gap.drop_last()[i] == 9 by {
            assert(gap[i] == 32 || gap[i] == 9);
        }
        lemma_ungapped_end(s, gap.drop_last());
    }
}

/// A header line is a name, a colon and a value; spaces and tabs around the value
/// do not count. A line without a colon, with a name that is none, or with a
/// control character in its value says no header.
pub proof fn law_header_lines(name: Seq<u8>, before: Seq<u8>, value: Seq<u8>, behind: Seq<u8>)
    requires
        forall|i: int| 0 <= i < before.len() ==> (#[trigger] before[i]) == 32 || before[i] == 9,
        forall|i: int| 0 <= i < behind.len() ==> (#[trigger] behind[i]) == 32 || behind[i] == 9,
        value.len() > 0 ==> value[0] != 32 && value[0] != 9 && value.last() != 32 && value.last()
            != 9,
        !name.contains(58u8),
    ensures
        header_on(name) is None,
        is_token(name) && is_text(value) ==> header_on(
            name + seq![58u8] + (before + value + behind),
        ) == Some((Seq::new(name.len(), |i: int| name[i] as char), value)),
        !is_token(name) || !is_text(value) ==> header_on(
            name + seq![58u8] + (before + value + behind),
        ) is None,
{
    let rest = before + value + behind;
    lemma_first_byte(name, 58u8, rest);
    crate::search::lemma_find(name, seq![58u8]);
    if crate::search::find(name, seq![58u8]) is Some {
        let k = crate::search::find(name, seq![58u8])->Some_0;
        crate::search::lemma_occurs_one(name, 58u8, k);
        assert(name.contains(58u8));
    }
    if value.len() == 0 {
        let gap = before + behind;
        assert(rest =~= gap);
        let none = Seq::<u8>::empty();
        assert(gap + none =~= gap);
        lemma_ungapped_start(gap, none);
        assert(ungapped(rest) =~= value);
    } else {
        assert(rest =~= before + (value + behind));
        assert((value + behind)[0] == value[0]);
        lemma_ungapped_start(before, value + behind);
        lemma_ungapped_end(value, behind);
    }
    assert(is_text(before)) by {
        assert forall|i: int| 0 <= i < before.len() implies is_text_byte(#[trigger] before[i]) by {
            assert(before[i] == 32 || before[i] == 9);
        }
    }
    assert(is_text(behind)) by {
        assert forall|i: int| 0 <= i < behind.len() implies is_text_byte(#[trigger] behind[i]) by {
            assert(behind[i] == 32 || behind[i] == 9);
        }
    }
    law_bytes_side_by_side(before, value);
    law_bytes_side_by_side(before + value, behind);
    if is_token(name) && is_text(value) {
        assert(ascii_text(name) =~= Seq::new(name.len(), |i: int| name[i] as char));
    }
}

/// Lines say headers one by one; one that says none spoils them all.
pub proof fn law_headers_one_by_one(lines: Seq<Seq<u8>>, line: Seq<u8>)
    ensures
        headers_on(Seq::empty()) == Some(Seq::<(Seq<char>, Seq<u8>)>::empty()),
        match (headers_on(lines), header_on(line)) {
            (Some(headers), Some(header)) => headers_on(lines.push(line)) == Some(
                headers.push(header),
            ),
            _ => headers_on(lines.push(line)) is None,
        },
{
    let all = lines.push(line);
    let none = Seq::<Seq<u8>>::empty();
    assert(headers_on(none)->Some_0 =~= Seq::<(Seq<char>, Seq<u8>)>::empty());
    assert(all[lines.len() as int] == line);
    assert forall|i: int| 0 <= i < lines.len() implies all[i] == lines[i] by {}
    if headers_on(lines) is Some && header_on(line) is Some {
        assert(headers_on(all)->Some_0 =~= headers_on(lines)->Some_0.push(header_on(line)->Some_0));
    } else if headers_on(lines) is None {
        let i = choose|i: int| 0 <= i < lines.len() && header_on(#[trigger] lines[i]) is None;
        assert(header_on(all[i]) is None);
    }
}

/// A request line is a method, a target and the version 1.1 or 1.0, with one space
/// between them.
pub proof fn law_request_lines(method: Seq<u8>, target: Seq<u8>, version: Seq<u8>)
    requires
        !method.contains(32u8),
        !target.contains(32u8),
    ensures
        ({
            let line = method + seq![32u8] + (target + seq![32u8] + version);
            let said = is_token(method) && target.len() > 0 && is_visible(target)
                && vstd::utf8::valid_utf8(target) && (version == vstd::utf8::encode_utf8(
                "HTTP/1.1"@,
            ) || version == vstd::utf8::encode_utf8("HTTP/1.0"@));
            &&& said ==> request_on(line) == Some(
                (
                    Seq::new(method.len(), |i: int| method[i] as char),
                    vstd::utf8::decode_utf8(target),
                ),
            )
            &&& !said ==> request_on(line) is None
        }),
        request_on(method) is None,
        request_on(method + seq![32u8] + target) is None,
{
    lemma_first_byte(method, 32u8, target + seq![32u8] + version);
    lemma_first_byte(target, 32u8, version);
    lemma_first_byte(method, 32u8, target);
    assert(ascii_text(method) =~= Seq::new(method.len(), |i: int| method[i] as char));
    crate::search::lemma_find(method, seq![32u8]);
    if crate::search::find(method, seq![32u8]) is Some {
        let k = crate::search::find(method, seq![32u8])->Some_0;
        crate::search::lemma_occurs_one(method, 32u8, k);
        assert(method.contains(32u8));
    }
    crate::search::lemma_find(target, seq![32u8]);
    if crate::search::find(target, seq![32u8]) is Some {
        let k = crate::search::find(target, seq![32u8])->Some_0;
        crate::search::lemma_occurs_one(target, 32u8, k);
        assert(target.contains(32u8));
    }
}

/// A status line is the version 1.1 or 1.0 and three digits, and behind them
/// nothing, or a space and a reason.
pub proof fn law_status_lines(version: Seq<u8>, a: u8, b: u8, c: u8, reason: Seq<u8>)
    requires
        !version.contains(32u8),
    ensures
        ({
            let bare = version + seq![32u8] + seq![a, b, c];
            let line = version + seq![32u8] + (seq![a, b, c, 32u8] + reason);
            let said = (version == vstd::utf8::encode_utf8("HTTP/1.1"@) || version
                == vstd::utf8::encode_utf8("HTTP/1.0"@)) && 48 <= a <= 57 && 48 <= b <= 57 && 48
                <= c <= 57;
            let code = (100 * (a - 48) + 10 * (b - 48) + (c - 48)) as u16;
            &&& said ==> status_on(bare) == Some(code)
            &&& said && is_text(reason) ==> status_on(line) == Some(code)
            &&& !said ==> status_on(bare) is None && status_on(line) is None
            &&& !is_text(reason) ==> status_on(line) is None
        }),
{
    let digits = seq![a, b, c];
    let front = seq![a, b, c, 32u8];
    lemma_first_byte(version, 32u8, digits);
    lemma_first_byte(version, 32u8, front + reason);
    let rest = front + reason;
    assert(rest[0] == a && rest[1] == b && rest[2] == c && rest[3] == 32);
    assert(digits[0] == a && digits[1] == b && digits[2] == c);
    law_bytes_side_by_side(front, reason);
    if 48 <= a <= 57 && 48 <= b <= 57 && 48 <= c <= 57 {
        assert forall|i: int| 0 <= i < 3 implies is_text_byte(#[trigger] digits[i]) by {}
        assert forall|i: int| 0 <= i < 4 implies is_text_byte(#[trigger] front[i]) by {}
    }
}

} // verus!

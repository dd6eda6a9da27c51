//! Stable machine ids: the hash of a hardware id, or of chance where there is
//! none.
use rand::RngCore;
use sha2::Digest;
use vstd::prelude::*;

use crate::number::push_hex_bytes;
use crate::search::find_chars;
use crate::text::{
    chars_of, final_word, split_lines, split_pieces, string_of, trimmed,
};

verus! {

/// The SHA-256 digest of bytes.
pub uninterp spec fn sha256_of(bytes: Seq<u8>) -> Seq<u8>;

/// `sha2::Sha256::digest` is a function of the bytes, 32 bytes long.
#[verifier::external_body]
fn sha256(bytes: &[u8]) -> (digest: Vec<u8>)
    ensures
        digest@ == sha256_of(bytes@),
        digest@.len() == 32,
{
    sha2::Sha256::digest(bytes).to_vec()
}

/// `rand`'s `fill_bytes` fills a buffer; with what is chance.
#[verifier::external_body]
fn random_bytes(n: usize) -> (bytes: Vec<u8>)
    ensures
        bytes@.len() == n,
{
    let mut bytes = vec![0u8; n];
    rand::thread_rng().fill_bytes(&mut bytes);
    bytes
}

/// Text of 64 small hexadecimal digits.
pub open spec fn is_id(s: Seq<char>) -> bool {
    &&& s.len() == 64
    &&& forall|i: int| 0 <= i < s.len() ==> is_hex_digit(#[trigger] s[i])
}

pub open spec fn is_hex_digit(c: char) -> bool {
    '0' <= c <= '9' || 'a' <= c <= 'f'
}

proof fn lemma_hex_bytes(bytes: Seq<u8>)
    ensures
        crate::number::hex_bytes(bytes).len() == 2 * bytes.len(),
        forall|i: int|
            0 <= i < crate::number::hex_bytes(bytes).len() ==> is_hex_digit(
                #[trigger] crate::number::hex_bytes(bytes)[i],
            ),
    decreases bytes.len(),
{
    if bytes.len() > 0 {
        lemma_hex_bytes(bytes.drop_last());
        let init = crate::number::hex_bytes(bytes.drop_last());
        let last = crate::number::hex_byte(bytes.last());
        assert forall|i: int|
            0 <= i < crate::number::hex_bytes(bytes).len() implies is_hex_digit(
            #[trigger] crate::number::hex_bytes(bytes)[i],
        ) by {
            if i < init.len() {
                assert(crate::number::hex_bytes(bytes)[i] == init[i]);
            } else {
                assert(crate::number::hex_bytes(bytes)[i] == last[i - init.len()]);
            }
        }
    }
}

/// The id that a raw id stands for: its SHA-256 in small hexadecimal digits.
pub open spec fn id_of(raw: Seq<char>) -> Seq<char> {
    crate::number::hex_bytes(sha256_of(vstd::utf8::encode_utf8(raw)))
}

/// The id that a raw id stands for.
pub fn hash_id(raw: &str) -> (res: String)
    ensures
        res@ == id_of(raw@),
        is_id(res@),
{
    let digest: Vec<u8> = sha256(raw.as_bytes());
    let mut out: String = String::new();
    push_hex_bytes(&mut out, digest.as_slice());
    proof {
        lemma_hex_bytes(digest@);
    }
    assert(out@ =~= crate::number::hex_bytes(digest@));
    out
}

/// A raw id from chance: 32 bytes in hexadecimal digits.
pub fn generate_random_raw() -> (res: String)
    ensures
        is_id(res@),
        exists|bytes: Seq<u8>|
            bytes.len() == 32 && res@ == #[trigger] crate::number::hex_bytes(bytes),
{
    let bytes: Vec<u8> = random_bytes(32);
    let mut out: String = String::new();
    push_hex_bytes(&mut out, bytes.as_slice());
    proof {
        lemma_hex_bytes(bytes@);
    }
    assert(out@ =~= crate::number::hex_bytes(bytes@));
    out
}

/// The machine id for a hardware id; without one it is drawn by chance.
pub fn derive_machine_id(hardware: Option<String>) -> (res: String)
    ensures
        is_id(res@),
        hardware matches Some(raw) ==> res@ == id_of(raw@),
        hardware is None ==> exists|raw: Seq<char>| is_id(raw) && res@ == #[trigger] id_of(raw),
{
    let raw: String = match hardware {
        Some(raw) => raw,
        None => generate_random_raw(),
    };
    hash_id(raw.as_str())
}

/// The UUID on a line of `ioreg` output, if it holds one: the fourth of the
/// parts between quotes.
pub open spec fn uuid_on_line(line: Seq<char>) -> Option<Seq<char>> {
    let parts = crate::text::pieces(line, seq!['"']);
    if crate::search::find(line, "IOPlatformUUID"@) is Some && parts.len() >= 4
        && crate::text::trim(parts[3]).len() > 0 {
        Some(crate::text::trim(parts[3]))
    } else {
        None
    }
}

/// The first UUID on lines of `ioreg` output.
pub open spec fn uuid_on_lines(lines: Seq<Seq<char>>) -> Option<Seq<char>>
    decreases lines.len(),
{
    if lines.len() == 0 {
        None
    } else if uuid_on_line(lines[0]) is Some {
        uuid_on_line(lines[0])
    } else {
        uuid_on_lines(lines.drop_first())
    }
}

/// The last word on a line of `REG QUERY` output that speaks of the machine's
/// id.
pub open spec fn guid_on_line(line: Seq<char>) -> Option<Seq<char>> {
    if crate::search::find(line, "MachineGuid"@) is Some && crate::text::last_word(line).len() > 0 {
        Some(crate::text::last_word(line))
    } else {
        None
    }
}

/// The first such word on lines of `REG QUERY` output.
pub open spec fn guid_on_lines(lines: Seq<Seq<char>>) -> Option<Seq<char>>
    decreases lines.len(),
{
    if lines.len() == 0 {
        None
    } else if guid_on_line(lines[0]) is Some {
        guid_on_line(lines[0])
    } else {
        guid_on_lines(lines.drop_first())
    }
}

/// The platform UUID in the output of `ioreg`.
pub fn macos_platform_uuid(output: &str) -> (res: Option<String>)
    ensures
        crate::text::opt_text(res) == uuid_on_lines(crate::text::lines(output@)),
{
    let chars: Vec<char> = chars_of(output);
    let lines: Vec<Vec<char>> = split_lines(chars.as_slice());
    let ghost views = crate::text::texts(lines@);
    let key: Vec<char> = chars_of("IOPlatformUUID");
    let mut quote: Vec<char> = Vec::new();
    quote.push('"');
    assert(quote@ =~= seq!['"']);
    let mut i: usize = 0;
    assert(views.skip(0) =~= views);
    while i < lines.len()
        invariant
            i <= lines@.len(),
            views == crate::text::texts(lines@),
            views == crate::text::lines(output@),
            key@ == "IOPlatformUUID"@,
            quote@ == seq!['"'],
            uuid_on_lines(views.skip(i as int)) == uuid_on_lines(views),
        decreases lines@.len() - i,
    {
        assert(views.skip(i as int)[0] == lines@[i as int]@);
        assert(views.skip(i as int).drop_first() =~= views.skip(i + 1));
        let line = lines[i].as_slice();
        if find_chars(line, key.as_slice()).is_some() {
            let parts: Vec<Vec<char>> = split_pieces(line, quote.as_slice());
            if parts.len() >= 4 {
                assert(crate::text::texts(parts@)[3] == parts@[3]@);
                let uuid = trimmed(parts[3].as_slice());
                if uuid.len() > 0 {
                    return Some(string_of(uuid));
                }
            }
        }
        i = i + 1;
    }
    None
}

/// The machine id in the output of `REG QUERY`.
pub fn windows_machine_guid(output: &str) -> (res: Option<String>)
    ensures
        crate::text::opt_text(res) == guid_on_lines(crate::text::lines(output@)),
{
    let chars: Vec<char> = chars_of(output);
    let lines: Vec<Vec<char>> = split_lines(chars.as_slice());
    let ghost views = crate::text::texts(lines@);
    let key: Vec<char> = chars_of("MachineGuid");
    let mut i: usize = 0;
    assert(views.skip(0) =~= views);
    while i < lines.len()
        invariant
            i <= lines@.len(),
            views == crate::text::texts(lines@),
            views == crate::text::lines(output@),
            key@ == "MachineGuid"@,
            guid_on_lines(views.skip(i as int)) == guid_on_lines(views),
        decreases lines@.len() - i,
    {
        assert(views.skip(i as int)[0] == lines@[i as int]@);
        assert(views.skip(i as int).drop_first() =~= views.skip(i + 1));
        let line = lines[i].as_slice();
        if find_chars(line, key.as_slice()).is_some() {
            let guid = final_word(line);
            if guid.len() > 0 {
                return Some(string_of(guid));
            }
        }
        i = i + 1;
    }
    None
}

/// The machine id in a file, without the white space around it; an empty file
/// holds none.
pub fn linux_machine_id(content: &str) -> (res: Option<String>)
    ensures
        crate::text::opt_text(res) == (if crate::text::trim(content@).len() > 0 {
            Some(crate::text::trim(content@))
        } else {
            None
        }),
{
    let chars: Vec<char> = chars_of(content);
    let id = trimmed(chars.as_slice());
    if id.len() > 0 {
        Some(string_of(id))
    } else {
        None
    }
}

/// An id is 64 digits from `0` to `9` and `a` to `f`, and every such text is one.
pub proof fn law_ids(s: Seq<char>)
    ensures
        is_id(s) <==> s.len() == 64 && forall|i: int|
            0 <= i < s.len() ==> '0' <= #[trigger] s[i] <= '9' || 'a' <= s[i] <= 'f',
{
    if s.len() == 64 && forall|i: int|
        0 <= i < s.len() ==> '0' <= #[trigger] s[i] <= '9' || 'a' <= s[i] <= 'f' {
        assert forall|i: int| 0 <= i < s.len() implies is_hex_digit(#[trigger] s[i]) by {
            assert('0' <= s[i] <= '9' || 'a' <= s[i] <= 'f');
        }
    } else if is_id(s) {
        assert forall|i: int| 0 <= i < s.len() implies '0' <= #[trigger] s[i] <= '9' || 'a' <= s[i]
            <= 'f' by {
            assert(is_hex_digit(s[i]));
        }
    }
}

/// A raw id is hashed as it is, and its hash is written with two digits a byte.
pub proof fn law_hashed_ids(raw: Seq<char>)
    ensures
        id_of(raw).len() == 2 * sha256_of(vstd::utf8::encode_utf8(raw)).len(),
        forall|i: int|
            0 <= i < sha256_of(vstd::utf8::encode_utf8(raw)).len() ==> {
                let b = #[trigger] sha256_of(vstd::utf8::encode_utf8(raw))[i];
                &&& id_of(raw)[2 * i] == crate::number::hex_byte(b)[0]
                &&& id_of(raw)[2 * i + 1] == crate::number::hex_byte(b)[1]
            },
{
    lemma_byte_digits(sha256_of(vstd::utf8::encode_utf8(raw)));
}

proof fn lemma_byte_digits(bytes: Seq<u8>)
    ensures
        crate::number::hex_bytes(bytes).len() == 2 * bytes.len(),
        forall|i: int|
            0 <= i < bytes.len() ==> {
                let b = #[trigger] bytes[i];
                &&& crate::number::hex_bytes(bytes)[2 * i] == crate::number::hex_byte(b)[0]
                &&& crate::number::hex_bytes(bytes)[2 * i + 1] == crate::number::hex_byte(b)[1]
            },
    decreases bytes.len(),
{
    if bytes.len() > 0 {
        let init = bytes.drop_last();
        lemma_byte_digits(init);
        assert forall|i: int| 0 <= i < bytes.len() implies {
            let b = #[trigger] bytes[i];
            &&& crate::number::hex_bytes(bytes)[2 * i] == crate::number::hex_byte(b)[0]
            &&& crate::number::hex_bytes(bytes)[2 * i + 1] == crate::number::hex_byte(b)[1]
        } by {
            if i < bytes.len() - 1 {
                assert(init[i] == bytes[i]);
            }
        }
    }
}

/// A line of `ioreg` output that speaks of `IOPlatformUUID` holds what stands
/// between its third and its fourth quote, without the white space around that;
/// other lines hold nothing.
pub proof fn law_uuid_lines(
    before: Seq<char>,
    key: Seq<char>,
    between: Seq<char>,
    value: Seq<char>,
    behind: Seq<char>,
    line: Seq<char>,
)
    requires
        forall|i: int| 0 <= i < before.len() ==> before[i] != '"',
        forall|i: int| 0 <= i < key.len() ==> key[i] != '"',
        forall|i: int| 0 <= i < between.len() ==> between[i] != '"',
        forall|i: int| 0 <= i < value.len() ==> value[i] != '"',
    ensures
        ({
            let q = seq!['"'];
            let whole = before + q + (key + q + (between + q + (value + q + behind)));
            &&& crate::update::contains(whole, "IOPlatformUUID"@) && crate::text::trim(value).len()
                > 0 ==> uuid_on_line(whole) == Some(crate::text::trim(value))
            &&& crate::text::trim(value).len() == 0 ==> uuid_on_line(whole) is None
        }),
        (forall|j: int| !#[trigger] crate::search::occurs(line, "IOPlatformUUID"@, j))
            ==> uuid_on_line(line) is None,
{
    let q = seq!['"'];
    let w3 = value + q + behind;
    let w2 = between + q + w3;
    let w1 = key + q + w2;
    let whole = before + q + w1;
    lemma_first_piece(value, behind);
    lemma_first_piece(between, w3);
    lemma_first_piece(key, w2);
    lemma_first_piece(before, w1);
    let parts = crate::text::pieces(whole, q);
    assert(parts =~= seq![before, key, between, value] + crate::text::pieces(behind, q));
    assert(parts[3] == value);
    crate::search::lemma_find(line, "IOPlatformUUID"@);
}

proof fn lemma_first_piece(piece: Seq<char>, rest: Seq<char>)
    requires
        forall|i: int| 0 <= i < piece.len() ==> piece[i] != '"',
    ensures
        crate::text::pieces(piece + seq!['"'] + rest, seq!['"']) == seq![piece]
            + crate::text::pieces(rest, seq!['"']),
{
    let all = piece + seq!['"'] + rest;
    assert forall|j: int| 0 <= j < piece.len() implies !#[trigger] crate::search::occurs(
        all,
        seq!['"'],
        j,
    ) by {
        crate::search::lemma_occurs_one(all, '"', j);
        assert(all[j] == piece[j]);
    }
    crate::text::law_pieces(piece, seq!['"'], rest);
}

/// A line of `REG QUERY` output that speaks of `MachineGuid` holds its last word;
/// other lines hold nothing.
pub proof fn law_guid_lines(
    front: Seq<char>,
    word: Seq<char>,
    back: Seq<char>,
    line: Seq<char>,
)
    requires
        word.len() > 0,
        forall|i: int| 0 <= i < word.len() ==> !crate::text::is_space(#[trigger] word[i]),
        forall|i: int| 0 <= i < back.len() ==> crate::text::is_space(#[trigger] back[i]),
        front.len() > 0 ==> crate::text::is_space(front.last()),
    ensures
        crate::update::contains(front + word + back, "MachineGuid"@) ==> guid_on_line(
            front + word + back,
        ) == Some(word),
        (forall|j: int| !#[trigger] crate::search::occurs(line, "MachineGuid"@, j))
            ==> guid_on_line(line) is None,
{
    crate::text::law_last_word(front, word, back);
    crate::search::lemma_find(line, "MachineGuid"@);
}

/// The first line that holds an id decides.
pub proof fn law_first_lines_decide(line: Seq<char>, rest: Seq<Seq<char>>)
    ensures
        uuid_on_lines(Seq::empty()) is None,
        uuid_on_lines(seq![line] + rest) == (if uuid_on_line(line) is Some {
            uuid_on_line(line)
        } else {
            uuid_on_lines(rest)
        }),
        guid_on_lines(Seq::empty()) is None,
        guid_on_lines(seq![line] + rest) == (if guid_on_line(line) is Some {
            guid_on_line(line)
        } else {
            guid_on_lines(rest)
        }),
{
    assert((seq![line] + rest).drop_first() =~= rest);
}

} // verus!

//! Where text stands in its UTF-8 bytes.
use vstd::prelude::*;

verus! {

/// The bytes of joined text are the joined bytes.
pub proof fn lemma_encode_append(a: Seq<char>, b: Seq<char>)
    ensures
        vstd::utf8::encode_utf8(a + b) == vstd::utf8::encode_utf8(a) + vstd::utf8::encode_utf8(b),
    decreases a.len(),
{
    if a.len() == 0 {
        assert(a + b =~= b);
        assert(vstd::utf8::encode_utf8(a) + vstd::utf8::encode_utf8(b)
            =~= vstd::utf8::encode_utf8(b));
    } else {
        assert((a + b).drop_first() =~= a.drop_first() + b);
        lemma_encode_append(a.drop_first(), b);
        let first = vstd::utf8::encode_scalar(a[0] as u32);
        assert(first + (vstd::utf8::encode_utf8(a.drop_first()) + vstd::utf8::encode_utf8(b))
            =~= first + vstd::utf8::encode_utf8(a.drop_first()) + vstd::utf8::encode_utf8(b));
    }
}

/// An ASCII character is its own byte; every other one has bytes beyond ASCII
/// alone.
pub proof fn lemma_encode_scalar(c: char)
    ensures
        0 <= c as int,
        c <= '\u{7f}' ==> vstd::utf8::encode_scalar(c as u32) == seq![c as u8],
        c > '\u{7f}' ==> vstd::utf8::encode_scalar(c as u32).len() > 0 && forall|i: int|
            0 <= i < vstd::utf8::encode_scalar(c as u32).len() ==> #[trigger] vstd::utf8::encode_scalar(
                c as u32,
            )[i] >= 128,
{
    let v = c as u32;
    if c <= '\u{7f}' {
        assert(v as u8 == (v & 0x7F) as u8) by (bit_vector)
            requires
                v <= 0x7f,
        ;
        assert(vstd::utf8::encode_scalar(v) =~= seq![c as u8]);
    } else {
        assert((0xC0u8 | ((v >> 6) & 0x1F) as u8) >= 128) by (bit_vector);
        assert((0xE0u8 | ((v >> 12) & 0x0F) as u8) >= 128) by (bit_vector);
        assert((0xF0u8 | ((v >> 18) & 0x7) as u8) >= 128) by (bit_vector);
        assert((0x80u8 | (v & 0x3F) as u8) >= 128) by (bit_vector);
        assert((0x80u8 | ((v >> 6) & 0x3F) as u8) >= 128) by (bit_vector);
        assert((0x80u8 | ((v >> 12) & 0x3F) as u8) >= 128) by (bit_vector);
    }
}

/// Text begins with an ASCII pattern where its bytes begin with those of the
/// pattern.
proof fn lemma_encoded_prefix(t: Seq<char>, p: Seq<char>)
    requires
        vstd::utf8::is_ascii_chars(p),
    ensures
        crate::search::occurs(vstd::utf8::encode_utf8(t), vstd::utf8::encode_utf8(p), 0)
            == crate::search::occurs(t, p, 0),
    decreases p.len(),
{
    let bytes = vstd::utf8::encode_utf8(t);
    let pat = vstd::utf8::encode_utf8(p);
    if p.len() == 0 {
        assert(bytes.subrange(0, 0) =~= pat);
        assert(t.subrange(0, 0) =~= p);
    } else {
        let p0 = p[0];
        lemma_encode_scalar(p0);
        assert(pat[0] == p0 as u8);
        if t.len() == 0 {
            assert(bytes.len() == 0);
        } else {
            let first = vstd::utf8::encode_scalar(t[0] as u32);
            let rest = vstd::utf8::encode_utf8(t.drop_first());
            lemma_encode_scalar(t[0]);
            lemma_encoded_prefix(t.drop_first(), p.drop_first());
            assert(bytes == first + rest);
            assert(bytes[0] == first[0]);
            let later = vstd::utf8::encode_utf8(p.drop_first());
            assert(pat == seq![p0 as u8] + later);
            if crate::search::occurs(t, p, 0) {
                assert(t.subrange(0, p.len() as int)[0] == t[0]);
                assert(t.drop_first().subrange(0, p.len() - 1) =~= t.subrange(
                    0,
                    p.len() as int,
                ).drop_first());
                assert(rest.subrange(0, later.len() as int) == later);
                assert(bytes.subrange(0, pat.len() as int) =~= pat) by {
                    assert forall|i: int| 0 <= i < pat.len() implies bytes[i] == pat[i] by {
                        if i > 0 {
                            assert(rest.subrange(0, later.len() as int)[i - 1] == rest[i - 1]);
                        }
                    }
                }
            }
            if crate::search::occurs(bytes, pat, 0) {
                assert(bytes.subrange(0, pat.len() as int)[0] == bytes[0]);
                assert(t[0] <= '\u{7f}');
                assert(t[0] as u8 == p0 as u8);
                assert(t[0] as u8 as int == t[0] as int);
                assert(p0 as u8 as int == p0 as int);
                assert(t[0] == p0);
                assert(rest.subrange(0, later.len() as int) =~= later) by {
                    assert forall|i: int| 0 <= i < later.len() implies rest[i] == later[i] by {
                        assert(bytes.subrange(0, pat.len() as int)[i + 1] == bytes[i + 1]);
                    }
                }
                assert(crate::search::occurs(t.drop_first(), p.drop_first(), 0));
                assert(t.subrange(0, p.len() as int) =~= p) by {
                    assert forall|i: int| 0 <= i < p.len() implies t[i] == p[i] by {
                        if i > 0 {
                            assert(t.drop_first().subrange(0, p.len() - 1)[i - 1]
                                == p.drop_first()[i - 1]);
                        }
                    }
                }
            }
        }
    }
}

/// What stands behind `front` stands in the rest.
proof fn lemma_occurs_later<T>(front: Seq<T>, rest: Seq<T>, p: Seq<T>, j: int)
    requires
        j >= front.len(),
    ensures
        crate::search::occurs(front + rest, p, j) == crate::search::occurs(
            rest,
            p,
            j - front.len(),
        ),
{
    if j + p.len() <= (front + rest).len() {
        assert((front + rest).subrange(j, j + p.len()) =~= rest.subrange(
            j - front.len(),
            j - front.len() + p.len(),
        ));
    }
}

/// An ASCII pattern stands in the bytes of text where it stands in the text.
pub proof fn lemma_find_encoded(t: Seq<char>, p: Seq<char>)
    requires
        vstd::utf8::is_ascii_chars(p),
        p.len() > 0,
    ensures
        match crate::search::find(t, p) {
            Some(i) => crate::search::find(
                vstd::utf8::encode_utf8(t),
                vstd::utf8::encode_utf8(p),
            ) == Some(vstd::utf8::encode_utf8(t.take(i)).len() as int),
            None => crate::search::find(vstd::utf8::encode_utf8(t), vstd::utf8::encode_utf8(p))
                is None,
        },
    decreases t.len(),
{
    let bytes = vstd::utf8::encode_utf8(t);
    let pat = vstd::utf8::encode_utf8(p);
    lemma_encoded_prefix(t, p);
    vstd::utf8::is_ascii_chars_encode_utf8(p);
    crate::search::lemma_find(t, p);
    if crate::search::occurs(t, p, 0) {
        crate::search::lemma_find_is(t, p, 0);
        crate::search::lemma_find_is(bytes, pat, 0);
        assert(t.take(0) =~= Seq::empty());
    } else if t.len() == 0 {
        crate::search::lemma_find_none(bytes, pat);
        crate::search::lemma_find_none(t, p);
    } else {
        let rest = t.drop_first();
        let first = vstd::utf8::encode_scalar(t[0] as u32);
        let tail = vstd::utf8::encode_utf8(rest);
        let n = first.len() as int;
        lemma_find_encoded(rest, p);
        lemma_encode_scalar(t[0]);
        crate::search::lemma_find(rest, p);
        crate::search::lemma_find(tail, pat);
        assert(t =~= seq![t[0]] + rest);
        assert(bytes == first + tail);
        assert forall|j: int| 0 <= j < n implies !#[trigger] crate::search::occurs(
            bytes,
            pat,
            j,
        ) by {
            if j > 0 && crate::search::occurs(bytes, pat, j) {
                assert(bytes.subrange(j, j + pat.len())[0] == bytes[j]);
                assert(bytes[j] == first[j]);
                assert(p[0] as u8 == pat[0]);
            }
        }
        assert forall|j: int| j >= n implies #[trigger] crate::search::occurs(bytes, pat, j)
            == crate::search::occurs(tail, pat, j - n) by {
            lemma_occurs_later(first, tail, pat, j);
        }
        assert forall|j: int| j >= 1 implies #[trigger] crate::search::occurs(t, p, j)
            == crate::search::occurs(rest, p, j - 1) by {
            lemma_occurs_later(seq![t[0]], rest, p, j);
        }
        match crate::search::find(rest, p) {
            Some(i) => {
                crate::search::lemma_find_is(t, p, i + 1);
                let m = vstd::utf8::encode_utf8(rest.take(i)).len() as int;
                assert(t.take(i + 1).drop_first() =~= rest.take(i));
                assert(vstd::utf8::encode_utf8(t.take(i + 1)) == first
                    + vstd::utf8::encode_utf8(rest.take(i)));
                assert(crate::search::occurs(bytes, pat, n + m));
                crate::search::lemma_find_is(bytes, pat, n + m);
            },
            None => {
                crate::search::lemma_find_none(t, p);
                crate::search::lemma_find_none(bytes, pat);
            },
        }
    }
}

/// How many bytes beyond ASCII stand in front.
pub open spec fn high_bytes(b: Seq<u8>) -> int
    decreases b.len(),
{
    if b.len() > 0 && b[0] >= 128 {
        1 + high_bytes(b.drop_first())
    } else {
        0
    }
}

/// How many characters beyond ASCII stand in front.
pub open spec fn high_chars(t: Seq<char>) -> int
    decreases t.len(),
{
    if t.len() > 0 && t[0] > '\u{7f}' {
        1 + high_chars(t.drop_first())
    } else {
        0
    }
}

/// The text shows the bytes: ASCII bytes as they are, and each run of other bytes
/// as characters beyond ASCII, one at least.
pub open spec fn is_shown(b: Seq<u8>, t: Seq<char>) -> bool
    decreases b.len(),
{
    if b.len() == 0 {
        t.len() == 0
    } else if b[0] < 128 {
        t.len() > 0 && t[0] as int == b[0] as int && is_shown(b.drop_first(), t.drop_first())
    } else {
        proof {
            lemma_high_bytes(b);
        }
        high_chars(t) > 0 && is_shown(b.skip(high_bytes(b)), t.skip(high_chars(t)))
    }
}

pub proof fn lemma_high_bytes(b: Seq<u8>)
    ensures
        0 <= high_bytes(b) <= b.len(),
        forall|i: int| 0 <= i < high_bytes(b) ==> #[trigger] b[i] >= 128,
        high_bytes(b) < b.len() ==> b[high_bytes(b)] < 128,
    decreases b.len(),
{
    if b.len() > 0 && b[0] >= 128 {
        let rest = b.drop_first();
        lemma_high_bytes(rest);
        assert forall|i: int| 0 <= i < high_bytes(b) implies #[trigger] b[i] >= 128 by {
            if i > 0 {
                assert(b[i] == rest[i - 1]);
            }
        }
        if high_bytes(b) < b.len() {
            assert(b[high_bytes(b)] == rest[high_bytes(rest)]);
        }
    }
}

proof fn lemma_high_bytes_is(b: Seq<u8>, n: int)
    requires
        0 <= n <= b.len(),
        forall|i: int| 0 <= i < n ==> #[trigger] b[i] >= 128,
        n < b.len() ==> b[n] < 128,
    ensures
        high_bytes(b) == n,
{
    lemma_high_bytes(b);
    if high_bytes(b) < n {
        assert(b[high_bytes(b)] >= 128);
    }
}

proof fn lemma_high_chars(t: Seq<char>)
    ensures
        0 <= high_chars(t) <= t.len(),
        forall|i: int| 0 <= i < high_chars(t) ==> #[trigger] t[i] > '\u{7f}',
        high_chars(t) < t.len() ==> t[high_chars(t)] <= '\u{7f}',
    decreases t.len(),
{
    if t.len() > 0 && t[0] > '\u{7f}' {
        let rest = t.drop_first();
        lemma_high_chars(rest);
        assert forall|i: int| 0 <= i < high_chars(t) implies #[trigger] t[i] > '\u{7f}' by {
            if i > 0 {
                assert(t[i] == rest[i - 1]);
            }
        }
        if high_chars(t) < t.len() {
            assert(t[high_chars(t)] == rest[high_chars(rest)]);
        }
    }
}

proof fn lemma_high_chars_is(t: Seq<char>, n: int)
    requires
        0 <= n <= t.len(),
        forall|i: int| 0 <= i < n ==> #[trigger] t[i] > '\u{7f}',
        n < t.len() ==> t[n] <= '\u{7f}',
    ensures
        high_chars(t) == n,
{
    lemma_high_chars(t);
    if high_chars(t) < n {
        assert(t[high_chars(t)] > '\u{7f}');
    }
}

/// Shown text begins with an ASCII pattern where the bytes do.
pub proof fn lemma_shown_prefix(b: Seq<u8>, t: Seq<char>, p: Seq<char>)
    requires
        is_shown(b, t),
        vstd::utf8::is_ascii_chars(p),
    ensures
        crate::search::occurs(b, vstd::utf8::encode_utf8(p), 0) == crate::search::occurs(t, p, 0),
        crate::search::occurs(t, p, 0) ==> p.len() <= b.len() && p.len() <= t.len() && is_shown(
            b.skip(p.len() as int),
            t.skip(p.len() as int),
        ),
    decreases p.len(),
{
    let pat = vstd::utf8::encode_utf8(p);
    vstd::utf8::is_ascii_chars_encode_utf8(p);
    if p.len() == 0 {
        assert(b.subrange(0, 0) =~= pat);
        assert(t.subrange(0, 0) =~= p);
        assert(b.skip(0) =~= b);
        assert(t.skip(0) =~= t);
    } else {
        assert(p[0] as u8 == pat[0]);
        assert('\0' <= p[0] <= '\u{7f}');
        if b.len() > 0 && b[0] < 128 {
            let (b1, t1, p1) = (b.drop_first(), t.drop_first(), p.drop_first());
            assert(vstd::utf8::is_ascii_chars(p1)) by {
                assert forall|i: int| 0 <= i < p1.len() implies '\0' <= #[trigger] p1[i]
                    <= '\u{7f}' by {
                    assert(p1[i] == p[i + 1]);
                }
            }
            lemma_shown_prefix(b1, t1, p1);
            vstd::utf8::is_ascii_chars_encode_utf8(p1);
            let pat1 = vstd::utf8::encode_utf8(p1);
            assert(pat1 =~= pat.drop_first()) by {
                assert forall|i: int| 0 <= i < pat1.len() implies pat1[i] == pat[i + 1] by {
                    assert(p1[i] as u8 == pat1[i]);
                    assert(p[i + 1] as u8 == pat[i + 1]);
                }
            }
            if p.len() <= b.len() {
                assert(b.subrange(0, p.len() as int).drop_first() =~= b1.subrange(
                    0,
                    p.len() - 1,
                ));
                assert(b.subrange(0, p.len() as int)[0] == b[0]);
                if crate::search::occurs(b1, pat1, 0) && b[0] == pat[0] {
                    assert(b.subrange(0, p.len() as int) =~= pat) by {
                        assert forall|i: int| 0 <= i < p.len() implies b[i] == pat[i] by {
                            if i > 0 {
                                assert(b1.subrange(0, p.len() - 1)[i - 1] == pat1[i - 1]);
                            }
                        }
                    }
                }
            }
            if p.len() <= t.len() {
                assert(t.subrange(0, p.len() as int).drop_first() =~= t1.subrange(
                    0,
                    p.len() - 1,
                ));
                assert(t.subrange(0, p.len() as int)[0] == t[0]);
                if crate::search::occurs(t1, p1, 0) && t[0] == p[0] {
                    assert(t.subrange(0, p.len() as int) =~= p) by {
                        assert forall|i: int| 0 <= i < p.len() implies t[i] == p[i] by {
                            if i > 0 {
                                assert(t1.subrange(0, p.len() - 1)[i - 1] == p1[i - 1]);
                            }
                        }
                    }
                }
            }
            assert((b[0] == pat[0]) == (t[0] == p[0])) by {
                assert(p[0] as u8 as int == p[0] as int);
            }
            if p.len() <= b.len() && p.len() <= t.len() {
                assert(b.skip(p.len() as int) =~= b1.skip(p1.len() as int));
                assert(t.skip(p.len() as int) =~= t1.skip(p1.len() as int));
            }
        } else if b.len() > 0 {
            lemma_high_chars(t);
            if crate::search::occurs(b, pat, 0) {
                assert(b.subrange(0, pat.len() as int)[0] == b[0]);
            }
            if crate::search::occurs(t, p, 0) {
                assert(t.subrange(0, p.len() as int)[0] == t[0]);
            }
        }
    }
}

/// An ASCII pattern stands in shown text where it stands in the bytes.
pub proof fn lemma_shown_find(b: Seq<u8>, t: Seq<char>, p: Seq<char>)
    requires
        is_shown(b, t),
        vstd::utf8::is_ascii_chars(p),
        p.len() > 0,
    ensures
        match (crate::search::find(b, vstd::utf8::encode_utf8(p)), crate::search::find(t, p)) {
            (Some(i), Some(j)) => {
                &&& 0 <= i
                &&& i + p.len() <= b.len()
                &&& 0 <= j
                &&& j + p.len() <= t.len()
                &&& is_shown(b.take(i), t.take(j))
                &&& is_shown(b.skip(i + p.len()), t.skip(j + p.len()))
            },
            (None, None) => true,
            _ => false,
        },
    decreases b.len(),
{
    let pat = vstd::utf8::encode_utf8(p);
    vstd::utf8::is_ascii_chars_encode_utf8(p);
    assert(p[0] as u8 == pat[0]);
    assert('\0' <= p[0] <= '\u{7f}');
    lemma_shown_prefix(b, t, p);
    crate::search::lemma_find(b, pat);
    crate::search::lemma_find(t, p);
    if crate::search::occurs(t, p, 0) {
        crate::search::lemma_find_is(t, p, 0);
        crate::search::lemma_find_is(b, pat, 0);
        assert(b.take(0).len() == 0 && t.take(0).len() == 0);
    } else if b.len() == 0 {
        crate::search::lemma_find_none(b, pat);
        crate::search::lemma_find_none(t, p);
    } else {
        let (n, m): (int, int) = if b[0] < 128 {
            (1, 1)
        } else {
            (high_bytes(b), high_chars(t))
        };
        lemma_high_bytes(b);
        lemma_high_chars(t);
        let (b1, t1) = (b.skip(n), t.skip(m));
        if b[0] < 128 {
            assert(b.drop_first() =~= b1);
            assert(t.drop_first() =~= t1);
        }
        lemma_shown_find(b1, t1, p);
        crate::search::lemma_find(b1, pat);
        crate::search::lemma_find(t1, p);
        assert(b =~= b.take(n) + b1);
        assert(t =~= t.take(m) + t1);
        assert forall|k: int| 0 <= k < n implies !#[trigger] crate::search::occurs(b, pat, k) by {
            if k > 0 && crate::search::occurs(b, pat, k) {
                assert(b.subrange(k, k + pat.len())[0] == b[k]);
            }
        }
        assert forall|k: int| 0 <= k < m implies !#[trigger] crate::search::occurs(t, p, k) by {
            if k > 0 && crate::search::occurs(t, p, k) {
                assert(t.subrange(k, k + p.len())[0] == t[k]);
            }
        }
        assert forall|k: int| k >= n implies #[trigger] crate::search::occurs(b, pat, k)
            == crate::search::occurs(b1, pat, k - n) by {
            lemma_occurs_later(b.take(n), b1, pat, k);
        }
        assert forall|k: int| k >= m implies #[trigger] crate::search::occurs(t, p, k)
            == crate::search::occurs(t1, p, k - m) by {
            lemma_occurs_later(t.take(m), t1, p, k);
        }
        match (crate::search::find(b1, pat), crate::search::find(t1, p)) {
            (Some(i), Some(j)) => {
                assert(crate::search::occurs(b, pat, n + i));
                crate::search::lemma_find_is(b, pat, n + i);
                assert(crate::search::occurs(t, p, m + j));
                crate::search::lemma_find_is(t, p, m + j);
                assert(b.skip(n + i + p.len()) =~= b1.skip(i + p.len()));
                assert(t.skip(m + j + p.len()) =~= t1.skip(j + p.len()));
                lemma_shown_front(b, t, n, m, i, j);
            },
            _ => {
                crate::search::lemma_find_none(t, p);
                crate::search::lemma_find_none(b, pat);
            },
        }
    }
}

/// What shows a front and what shows more of the rest shows both.
proof fn lemma_shown_front(b: Seq<u8>, t: Seq<char>, n: int, m: int, i: int, j: int)
    requires
        is_shown(b, t),
        b.len() > 0,
        (n, m) == (if b[0] < 128 {
            (1int, 1int)
        } else {
            (high_bytes(b), high_chars(t))
        }),
        0 <= i,
        n + i <= b.len(),
        0 <= j,
        m + j <= t.len(),
        is_shown(b.skip(n).take(i), t.skip(m).take(j)),
    ensures
        is_shown(b.take(n + i), t.take(m + j)),
{
    let (bf, tf) = (b.take(n + i), t.take(m + j));
    lemma_high_bytes(b);
    lemma_high_chars(t);
    assert(b.skip(n).take(i) =~= bf.skip(n));
    assert(t.skip(m).take(j) =~= tf.skip(m));
    assert(bf[0] == b[0]);
    if b[0] < 128 {
        assert(tf[0] == t[0]);
        assert(bf.drop_first() =~= bf.skip(n));
        assert(tf.drop_first() =~= tf.skip(m));
    } else {
        lemma_high_bytes_is(bf, n);
        lemma_high_chars_is(tf, m);
    }
}

/// Shown text splits where the bytes split.
pub proof fn lemma_shown_pieces(b: Seq<u8>, t: Seq<char>, p: Seq<char>)
    requires
        is_shown(b, t),
        vstd::utf8::is_ascii_chars(p),
        p.len() > 0,
    ensures
        ({
            let bytes = crate::text::pieces(b, vstd::utf8::encode_utf8(p));
            let texts = crate::text::pieces(t, p);
            &&& bytes.len() == texts.len()
            &&& forall|k: int|
                0 <= k < bytes.len() ==> is_shown(#[trigger] bytes[k], #[trigger] texts[k])
        }),
    decreases b.len(),
{
    let pat = vstd::utf8::encode_utf8(p);
    vstd::utf8::is_ascii_chars_encode_utf8(p);
    lemma_shown_find(b, t, p);
    match (crate::search::find(b, pat), crate::search::find(t, p)) {
        (Some(i), Some(j)) => {
            let (b1, t1) = (b.skip(i + p.len()), t.skip(j + p.len()));
            lemma_shown_pieces(b1, t1, p);
            let bytes = crate::text::pieces(b, pat);
            let texts = crate::text::pieces(t, p);
            assert forall|k: int| 0 <= k < bytes.len() implies is_shown(
                #[trigger] bytes[k],
                #[trigger] texts[k],
            ) by {
                if k > 0 {
                    assert(bytes[k] == crate::text::pieces(b1, pat)[k - 1]);
                    assert(texts[k] == crate::text::pieces(t1, p)[k - 1]);
                }
            }
        },
        _ => {},
    }
}

/// ASCII bytes show as themselves.
pub proof fn lemma_shown_ascii(b: Seq<u8>, t: Seq<char>)
    requires
        is_shown(b, t),
        forall|i: int| 0 <= i < b.len() ==> #[trigger] b[i] < 128,
    ensures
        t.len() == b.len(),
        forall|i: int| 0 <= i < b.len() ==> #[trigger] t[i] as int == b[i] as int,
        vstd::utf8::encode_utf8(t) == b,
    decreases b.len(),
{
    if b.len() > 0 {
        let (b1, t1) = (b.drop_first(), t.drop_first());
        assert forall|i: int| 0 <= i < b1.len() implies #[trigger] b1[i] < 128 by {
            assert(b1[i] == b[i + 1]);
        }
        lemma_shown_ascii(b1, t1);
        assert forall|i: int| 0 <= i < b.len() implies #[trigger] t[i] as int == b[i] as int by {
            if i > 0 {
                assert(t[i] == t1[i - 1]);
            }
        }
        lemma_encode_scalar(t[0]);
        assert(t[0] as u8 == b[0]);
        assert(vstd::utf8::encode_utf8(t) =~= b);
    } else {
        assert(vstd::utf8::encode_utf8(t) =~= b);
    }
}

/// Every ASCII character of shown text is one of the bytes.
proof fn lemma_shown_has(b: Seq<u8>, t: Seq<char>)
    requires
        is_shown(b, t),
    ensures
        forall|j: int|
            0 <= j < t.len() && (#[trigger] t[j]) <= '\u{7f}' ==> b.contains(t[j] as u8),
        b.len() > 0 <==> t.len() > 0,
    decreases b.len(),
{
    if b.len() > 0 {
        let (n, m): (int, int) = if b[0] < 128 {
            (1, 1)
        } else {
            (high_bytes(b), high_chars(t))
        };
        lemma_high_bytes(b);
        lemma_high_chars(t);
        let (b1, t1) = (b.skip(n), t.skip(m));
        if b[0] < 128 {
            assert(b.drop_first() =~= b1);
            assert(t.drop_first() =~= t1);
        }
        lemma_shown_has(b1, t1);
        assert forall|j: int|
            0 <= j < t.len() && (#[trigger] t[j]) <= '\u{7f}' implies b.contains(t[j] as u8) by {
            if j >= m {
                assert(t1[j - m] == t[j]);
                let k = choose|k: int| 0 <= k < b1.len() && b1[k] == t[j] as u8;
                assert(b[k + n] == t[j] as u8);
            } else if b[0] < 128 {
                assert(b[0] == t[j] as u8);
            }
        }
    }
}

/// Every ASCII byte of encoded text is one of its characters.
pub proof fn lemma_encoded_has(t: Seq<char>)
    ensures
        forall|k: int|
            0 <= k < vstd::utf8::encode_utf8(t).len() && (#[trigger] vstd::utf8::encode_utf8(t)[k])
                < 128 ==> exists|j: int|
                0 <= j < t.len() && (#[trigger] t[j]) <= '\u{7f}' && t[j] as u8
                    == vstd::utf8::encode_utf8(t)[k],
        t.len() > 0 <==> vstd::utf8::encode_utf8(t).len() > 0,
    decreases t.len(),
{
    let all = vstd::utf8::encode_utf8(t);
    if t.len() > 0 {
        let rest = t.drop_first();
        let first = vstd::utf8::encode_scalar(t[0] as u32);
        let tail = vstd::utf8::encode_utf8(rest);
        lemma_encode_scalar(t[0]);
        lemma_encoded_has(rest);
        assert(all == first + tail);
        assert forall|k: int| 0 <= k < all.len() && (#[trigger] all[k]) < 128 implies exists|j: int|
            0 <= j < t.len() && (#[trigger] t[j]) <= '\u{7f}' && t[j] as u8 == all[k] by {
            if k < first.len() {
                assert(all[k] == first[k]);
                assert(t[0] <= '\u{7f}' && t[0] as u8 == all[k]);
            } else {
                assert(all[k] == tail[k - first.len()]);
                let j = choose|j: int|
                    0 <= j < rest.len() && (#[trigger] rest[j]) <= '\u{7f}' && rest[j] as u8
                        == tail[k - first.len()];
                assert(t[j + 1] == rest[j]);
            }
        }
    }
}

/// Shown text, encoded anew, has no ASCII byte that the bytes did not have.
pub proof fn lemma_shown_encoded(b: Seq<u8>, t: Seq<char>)
    requires
        is_shown(b, t),
    ensures
        forall|k: int|
            0 <= k < vstd::utf8::encode_utf8(t).len() && (#[trigger] vstd::utf8::encode_utf8(t)[k])
                < 128 ==> b.contains(vstd::utf8::encode_utf8(t)[k]),
        b.len() > 0 <==> vstd::utf8::encode_utf8(t).len() > 0,
{
    lemma_shown_has(b, t);
    lemma_encoded_has(t);
    let all = vstd::utf8::encode_utf8(t);
    assert forall|k: int| 0 <= k < all.len() && (#[trigger] all[k]) < 128 implies b.contains(
        all[k],
    ) by {
        let j = choose|j: int|
            0 <= j < t.len() && (#[trigger] t[j]) <= '\u{7f}' && t[j] as u8 == all[k];
        assert(b.contains(t[j] as u8));
    }
}

/// The bytes of text split where the text splits.
pub proof fn lemma_encoded_pieces(t: Seq<char>, p: Seq<char>)
    requires
        vstd::utf8::is_ascii_chars(p),
        p.len() > 0,
    ensures
        crate::text::pieces(vstd::utf8::encode_utf8(t), vstd::utf8::encode_utf8(p))
            == encoded_lines(crate::text::pieces(t, p)),
    decreases t.len(),
{
    let bytes = vstd::utf8::encode_utf8(t);
    let pat = vstd::utf8::encode_utf8(p);
    vstd::utf8::is_ascii_chars_encode_utf8(p);
    lemma_find_encoded(t, p);
    crate::search::lemma_find(t, p);
    crate::search::lemma_find(bytes, pat);
    let lines = crate::text::pieces(t, p);
    match crate::search::find(t, p) {
        Some(i) => {
            let rest = t.skip(i + p.len());
            let k = vstd::utf8::encode_utf8(t.take(i)).len() as int;
            assert(t =~= t.take(i) + (p + rest)) by {
                assert(t.subrange(i, i + p.len()) == p);
                assert(t =~= t.take(i) + t.subrange(i, i + p.len()) + rest);
            }
            lemma_encode_append(t.take(i), p + rest);
            lemma_encode_append(p, rest);
            lemma_encoded_pieces(rest, p);
            assert(bytes.take(k) =~= vstd::utf8::encode_utf8(t.take(i)));
            assert(bytes.skip(k + pat.len()) =~= vstd::utf8::encode_utf8(rest));
            assert(encoded_lines(lines) =~= seq![vstd::utf8::encode_utf8(t.take(i))]
                + encoded_lines(crate::text::pieces(rest, p)));
        },
        None => {
            assert(encoded_lines(lines) =~= seq![bytes]);
        },
    }
}

/// The bytes of each line.
pub open spec fn encoded_lines(lines: Seq<Seq<char>>) -> Seq<Seq<u8>> {
    Seq::new(lines.len(), |i: int| vstd::utf8::encode_utf8(lines[i]))
}

} // verus!

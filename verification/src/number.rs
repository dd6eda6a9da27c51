//! Numbers written as text: decimal and hexadecimal numerals.
use vstd::prelude::*;

verus! {

/// The digit that stands for `d` in bases up to sixteen, in small letters.
pub open spec fn digit_char(d: nat) -> char {
    if d < 10 {
        (0x30 + d) as u8 as char
    } else {
        (0x61 + (d - 10)) as u8 as char
    }
}

/// The numeral of `n` in base `radix`, without leading zeros.
pub open spec fn numeral(n: nat, radix: nat) -> Seq<char>
    decreases n,
{
    if radix < 2 || n < radix {
        seq![digit_char(n)]
    } else {
        proof {
            vstd::arithmetic::div_mod::lemma_div_decreases(n as int, radix as int);
        }
        numeral(n / radix, radix).push(digit_char(n % radix))
    }
}

/// `{}` of an unsigned integer.
pub open spec fn decimal(n: nat) -> Seq<char> {
    numeral(n, 10)
}

/// `{:x}` of an unsigned integer.
pub open spec fn hex(n: nat) -> Seq<char> {
    numeral(n, 16)
}

/// `{:02x}` of a byte.
pub open spec fn hex_byte(b: u8) -> Seq<char> {
    seq![digit_char(b as nat / 16), digit_char(b as nat % 16)]
}

/// `{:02x}` of each byte, joined.
pub open spec fn hex_bytes(s: Seq<u8>) -> Seq<char>
    decreases s.len(),
{
    if s.len() == 0 {
        Seq::empty()
    } else {
        hex_bytes(s.drop_last()) + hex_byte(s.last())
    }
}

/// What `c` counts for as a digit of base `radix`.
pub open spec fn digit_value(c: char, radix: nat) -> Option<nat> {
    let v: int = if '0' <= c <= '9' {
        c as u8 - 0x30
    } else if 'a' <= c <= 'f' {
        c as u8 - 0x61 + 10
    } else if 'A' <= c <= 'F' {
        c as u8 - 0x41 + 10
    } else {
        16
    };
    if v < radix && v < 16 {
        Some(v as nat)
    } else {
        None
    }
}

/// The number that a row of digits writes; `None` where one is no digit.
pub open spec fn digits_value(s: Seq<char>, radix: nat) -> Option<nat>
    decreases s.len(),
{
    if s.len() == 0 {
        Some(0)
    } else {
        match (digits_value(s.drop_last(), radix), digit_value(s.last(), radix)) {
            (Some(a), Some(d)) => Some(a * radix + d),
            _ => None,
        }
    }
}

/// What the standard library parses as an unsigned integer up to `max`: an
/// optional `+`, then one or more digits and nothing else.
pub open spec fn unsigned(s: Seq<char>, radix: nat, max: nat) -> Option<nat> {
    let digits = if s.len() > 0 && s[0] == '+' {
        s.drop_first()
    } else {
        s
    };
    if digits.len() == 0 {
        None
    } else {
        match digits_value(digits, radix) {
            Some(v) => if v <= max {
                Some(v)
            } else {
                None
            },
            None => None,
        }
    }
}

proof fn lemma_digits_prefix(s: Seq<char>, radix: nat, i: int)
    requires
        0 <= i <= s.len(),
        radix >= 1,
        digits_value(s, radix) is Some,
    ensures
        digits_value(s.take(i), radix) is Some,
        digits_value(s.take(i), radix)->0 <= digits_value(s, radix)->0,
    decreases s.len(),
{
    if i == s.len() {
        assert(s.take(i) =~= s);
    } else {
        lemma_digits_prefix(s.drop_last(), radix, i);
        assert(s.drop_last().take(i) =~= s.take(i));
        let a = digits_value(s.drop_last(), radix)->0;
        assert(a <= a * radix) by (nonlinear_arith)
            requires
                radix >= 1,
        ;
    }
}

proof fn lemma_digit_char_value(d: nat, radix: nat)
    requires
        d < radix <= 16,
    ensures
        digit_value(digit_char(d), radix) == Some(d),
        digit_char(d) != '+',
{
}

pub proof fn lemma_numeral(n: nat, radix: nat)
    requires
        2 <= radix <= 16,
    ensures
        numeral(n, radix).len() >= 1,
        digits_value(numeral(n, radix), radix) == Some(n),
        forall|i: int|
            0 <= i < numeral(n, radix).len() ==> digit_value(
                #[trigger] numeral(n, radix)[i],
                radix,
            ) is Some,
    decreases n,
{
    reveal_with_fuel(digits_value, 2);
    if n < radix {
        lemma_digit_char_value(n, radix);
        assert(numeral(n, radix).drop_last() =~= Seq::empty());
        assert(numeral(n, radix)[0] == digit_char(n));
        assert(0 * radix == 0) by (nonlinear_arith);
    } else {
        vstd::arithmetic::div_mod::lemma_div_decreases(n as int, radix as int);
        vstd::arithmetic::div_mod::lemma_fundamental_div_mod(n as int, radix as int);
        vstd::arithmetic::div_mod::lemma_mod_bound(n as int, radix as int);
        vstd::arithmetic::mul::lemma_mul_is_commutative(radix as int, n as int / radix as int);
        let head = numeral(n / radix, radix);
        lemma_numeral(n / radix, radix);
        lemma_digit_char_value(n % radix, radix);
        assert(numeral(n, radix).drop_last() =~= head);
        assert((n / radix) * radix + n % radix == n);
        assert forall|i: int| 0 <= i < numeral(n, radix).len() implies digit_value(
            #[trigger] numeral(n, radix)[i],
            radix,
        ) is Some by {
            if i < head.len() {
                assert(numeral(n, radix)[i] == head[i]);
            } else {
                assert(numeral(n, radix)[i] == digit_char(n % radix));
            }
        }
    }
}

/// A decimal numeral holds digits only.
pub proof fn lemma_decimal_digits(n: nat)
    ensures
        decimal(n).len() >= 1,
        forall|i: int|
            0 <= i < decimal(n).len() ==> crate::text::is_digit(#[trigger] decimal(n)[i]),
{
    lemma_numeral(n, 10);
    assert forall|i: int| 0 <= i < decimal(n).len() implies crate::text::is_digit(
        #[trigger] decimal(n)[i],
    ) by {
        assert(digit_value(numeral(n, 10)[i], 10) is Some);
    }
}

/// Parsing gives back the number whose numeral was printed.
pub proof fn law_numeral_roundtrip(n: nat, radix: nat, max: nat)
    requires
        2 <= radix <= 16,
        n <= max,
    ensures
        unsigned(numeral(n, radix), radix, max) == Some(n),
{
    lemma_numeral(n, radix);
    let s = numeral(n, radix);
    assert(digit_value(s[0], radix) is Some);
    assert(s[0] != '+');
}

fn digit(d: u64) -> (c: char)
    requires
        d < 16,
    ensures
        c == digit_char(d as nat),
{
    if d < 10 {
        (0x30u8 + d as u8) as char
    } else {
        (0x61u8 + (d as u8 - 10)) as char
    }
}

/// Append the numeral of `n` in base `radix`.
pub fn push_numeral(out: &mut String, n: u64, radix: u64)
    requires
        2 <= radix <= 16,
    ensures
        final(out)@ == old(out)@ + numeral(n as nat, radix as nat),
    decreases n,
{
    let ghost start = out@;
    if n >= radix {
        proof {
            vstd::arithmetic::div_mod::lemma_div_decreases(n as int, radix as int);
        }
        push_numeral(out, n / radix, radix);
    }
    proof {
        vstd::arithmetic::div_mod::lemma_mod_bound(n as int, radix as int);
        if n < radix {
            vstd::arithmetic::div_mod::lemma_small_mod(n as nat, radix as nat);
        }
    }
    out.push(digit(n % radix));
    assert(out@ =~= start + numeral(n as nat, radix as nat));
}

/// Append `{}` of `n`.
pub fn push_decimal(out: &mut String, n: u64)
    ensures
        final(out)@ == old(out)@ + decimal(n as nat),
{
    push_numeral(out, n, 10);
}

/// Append `{:02x}` of each byte.
pub fn push_hex_bytes(out: &mut String, bytes: &[u8])
    ensures
        final(out)@ == old(out)@ + hex_bytes(bytes@),
{
    let ghost start = out@;
    let mut i: usize = 0;
    while i < bytes.len()
        invariant
            i <= bytes@.len(),
            out@ == start + hex_bytes(bytes@.take(i as int)),
        decreases bytes@.len() - i,
    {
        out.push(digit((bytes[i] / 16) as u64));
        out.push(digit((bytes[i] % 16) as u64));
        i = i + 1;
        assert(bytes@.take(i as int).drop_last() =~= bytes@.take(i - 1));
        assert(out@ =~= start + hex_bytes(bytes@.take(i as int)));
    }
    assert(bytes@.take(i as int) =~= bytes@);
}

fn value_of_digit(c: char, radix: u64) -> (res: Option<u64>)
    requires
        2 <= radix <= 16,
    ensures
        res is Some <==> digit_value(c, radix as nat) is Some,
        res matches Some(v) ==> digit_value(c, radix as nat) == Some(v as nat) && v < 16,
{
    let v: u64 = if '0' <= c && c <= '9' {
        (c as u8 - 0x30) as u64
    } else if 'a' <= c && c <= 'f' {
        (c as u8 - 0x61) as u64 + 10
    } else if 'A' <= c && c <= 'F' {
        (c as u8 - 0x41) as u64 + 10
    } else {
        16
    };
    if v < radix && v < 16 {
        Some(v)
    } else {
        None
    }
}

/// Parse an unsigned integer of base `radix` up to `max`.
pub fn parse_unsigned(s: &[char], radix: u64, max: u64) -> (res: Option<u64>)
    requires
        2 <= radix <= 16,
    ensures
        res is Some <==> unsigned(s@, radix as nat, max as nat) is Some,
        res matches Some(v) ==> unsigned(s@, radix as nat, max as nat) == Some(v as nat) && v
            <= max,
{
    let start: usize = if s.len() > 0 && s[0] == '+' {
        1
    } else {
        0
    };
    let ghost digits = s@.skip(start as int);
    proof {
        if start == 1 {
            assert(digits =~= s@.drop_first());
        } else {
            assert(digits =~= s@);
        }
    }
    if start == s.len() {
        return None;
    }
    let mut acc: u64 = 0;
    let mut i: usize = start;
    assert(digits.take(0) =~= Seq::empty());
    while i < s.len()
        invariant
            start <= i <= s@.len(),
            start <= 1,
            digits == s@.skip(start as int),
            2 <= radix <= 16,
            digits.len() > 0,
            digits_value(digits.take(i - start), radix as nat) == Some(acc as nat),
            acc <= max,
            unsigned(s@, radix as nat, max as nat) == (match digits_value(digits, radix as nat) {
                Some(v) => if v <= max {
                    Some(v)
                } else {
                    None
                },
                None => None::<nat>,
            }),
        decreases s@.len() - i,
    {
        let ghost k = i - start;
        proof {
            assert(digits.take(k + 1).drop_last() =~= digits.take(k));
            assert(digits.take(k + 1).last() == s@[i as int]);
            if digits_value(digits, radix as nat) is Some {
                lemma_digits_prefix(digits, radix as nat, k + 1);
            }
        }
        match value_of_digit(s[i], radix) {
            None => {
                return None;
            },
            Some(d) => {
                assert(digits_value(digits.take(k + 1), radix as nat) == Some(
                    acc as nat * radix as nat + d as nat,
                ));
                match acc.checked_mul(radix) {
                    None => {
                        return None;
                    },
                    Some(m) => match m.checked_add(d) {
                        None => {
                            return None;
                        },
                        Some(t) => {
                            if t > max {
                                return None;
                            }
                            acc = t;
                        },
                    },
                }
            },
        }
        i = i + 1;
    }
    assert(digits.take(i - start) =~= digits);
    Some(acc)
}

/// A decimal numeral is the numeral of the tens with the last digit behind it,
/// and no zero stands in front.
pub proof fn law_decimal_digits(tens: nat, ones: nat)
    requires
        ones < 10,
    ensures
        decimal(ones) == seq!["0123456789"@[ones as int]],
        tens > 0 ==> decimal(10 * tens + ones) == decimal(tens).push("0123456789"@[ones as int]),
{
    reveal_strlit("0123456789");
    assert(digit_char(ones) == "0123456789"@[ones as int]);
    if tens > 0 {
        let n: nat = 10 * tens + ones;
        assert(n / 10 == tens && n % 10 == ones);
    }
}

/// A hexadecimal numeral is the numeral of the sixteens with the last digit behind
/// it, in small letters.
pub proof fn law_hex_digits(high: nat, low: nat)
    requires
        low < 16,
    ensures
        hex(low) == seq!["0123456789abcdef"@[low as int]],
        high > 0 ==> hex(16 * high + low) == hex(high).push("0123456789abcdef"@[low as int]),
{
    reveal_strlit("0123456789abcdef");
    assert(digit_char(low) == "0123456789abcdef"@[low as int]);
    if high > 0 {
        let n: nat = 16 * high + low;
        assert(n / 16 == high && n % 16 == low);
    }
}

/// Each byte is written as two hexadecimal digits, in order.
pub proof fn law_hex_bytes(bytes: Seq<u8>, high: u8, low: u8)
    requires
        high < 16,
        low < 16,
    ensures
        hex_bytes(Seq::empty()).len() == 0,
        hex_bytes(bytes.push((16 * high + low) as u8)) == hex_bytes(bytes) + seq![
            "0123456789abcdef"@[high as int],
            "0123456789abcdef"@[low as int],
        ],
{
    reveal_strlit("0123456789abcdef");
    let b = (16 * high + low) as u8;
    assert(bytes.push(b).drop_last() =~= bytes);
    assert(b as nat / 16 == high && b as nat % 16 == low);
    assert(digit_char(high as nat) == "0123456789abcdef"@[high as int]);
    assert(digit_char(low as nat) == "0123456789abcdef"@[low as int]);
}

/// What a row of decimal digits is read as grows by its last digit, up to the
/// largest number that is allowed; a plus sign may stand in front.
pub proof fn law_reading_decimals(digits: Seq<char>, value: nat, ones: nat, max: nat)
    requires
        ones < 10,
        digits.len() == 0 && value == 0 || digits.len() > 0 && digits[0] != '+' && exists|large: nat|
            unsigned(digits, 10, large) == Some(value),
    ensures
        unsigned(Seq::empty(), 10, max) is None,
        unsigned(seq!['+'], 10, max) is None,
        unsigned(digits.push("0123456789"@[ones as int]), 10, max) == (if 10 * value + ones <= max {
            Some(10 * value + ones)
        } else {
            None
        }),
        unsigned(seq!['+'] + digits.push("0123456789"@[ones as int]), 10, max) == unsigned(
            digits.push("0123456789"@[ones as int]),
            10,
            max,
        ),
{
    reveal_strlit("0123456789");
    let c = "0123456789"@[ones as int];
    let s = digits.push(c);
    assert(s.drop_last() =~= digits);
    assert(digit_value(c, 10) == Some(ones));
    assert(digits_value(digits, 10) == Some(value));
    let plus = seq!['+'] + s;
    assert(plus.drop_first() =~= s);
    assert(s[0] != '+') by {
        if digits.len() == 0 {
            assert(s[0] == c);
        } else {
            assert(s[0] == digits[0]);
        }
    }
    assert(seq!['+'].drop_first() =~= Seq::empty());
}

/// Hexadecimal digits are read in both letter cases.
pub proof fn law_reading_hex_digits(d: nat)
    requires
        d < 16,
    ensures
        unsigned(seq!["0123456789abcdef"@[d as int]], 16, 15) == Some(d),
        unsigned(seq!["0123456789ABCDEF"@[d as int]], 16, 15) == Some(d),
{
    reveal_strlit("0123456789abcdef");
    reveal_strlit("0123456789ABCDEF");
    let small = seq!["0123456789abcdef"@[d as int]];
    let large = seq!["0123456789ABCDEF"@[d as int]];
    assert(small.drop_last() =~= Seq::empty());
    assert(large.drop_last() =~= Seq::empty());
    reveal_with_fuel(digits_value, 2);
}

/// Text that holds anything but digits behind a plus sign is no number.
pub proof fn law_only_digits_are_numbers(s: Seq<char>, i: int, max: nat)
    requires
        0 <= i < s.len(),
        !('0' <= s[i] <= '9'),
        !(i == 0 && s[0] == '+'),
    ensures
        unsigned(s, 10, max) is None,
{
    let digits = if s[0] == '+' {
        s.drop_first()
    } else {
        s
    };
    let k = if s[0] == '+' {
        i - 1
    } else {
        i
    };
    assert(digits[k] == s[i]);
    lemma_no_digit(digits, k);
}

proof fn lemma_no_digit(s: Seq<char>, i: int)
    requires
        0 <= i < s.len(),
        !('0' <= s[i] <= '9'),
    ensures
        digits_value(s, 10) is None,
    decreases s.len(),
{
    if i < s.len() - 1 {
        assert(s.drop_last()[i] == s[i]);
        lemma_no_digit(s.drop_last(), i);
    }
}

/// A hexadecimal number counts its last digit once and those before it sixteen
/// times; small and capital letters count alike.
pub proof fn law_reading_hex_numbers(digits: Seq<char>, value: nat, ones: nat, max: nat)
    requires
        ones < 16,
        digits.len() == 0 && value == 0 || digits.len() > 0 && digits[0] != '+' && exists|large: nat|
            unsigned(digits, 16, large) == Some(value),
    ensures
        unsigned(digits.push("0123456789abcdef"@[ones as int]), 16, max) == (if 16 * value + ones
            <= max {
            Some(16 * value + ones)
        } else {
            None
        }),
        unsigned(digits.push("0123456789ABCDEF"@[ones as int]), 16, max) == unsigned(
            digits.push("0123456789abcdef"@[ones as int]),
            16,
            max,
        ),
        unsigned(Seq::empty(), 16, max) is None,
{
    reveal_strlit("0123456789abcdef");
    reveal_strlit("0123456789ABCDEF");
    let small = digits.push("0123456789abcdef"@[ones as int]);
    let large = digits.push("0123456789ABCDEF"@[ones as int]);
    assert(small.drop_last() =~= digits);
    assert(large.drop_last() =~= digits);
    assert(digits_value(digits, 16) == Some(value));
    if digits.len() > 0 {
        assert(small[0] == digits[0] && large[0] == digits[0]);
    }
}

} // verus!

//! Text that the labels are made of: numbers in a base, and UTF-16.
use vstd::prelude::*;
use vstd::string::StringExecFns;

verus! {

/// `String::push` puts one character behind what the string holds.
pub assume_specification[ String::push ](s: &mut String, c: char)
    ensures
        final(s)@ == old(s)@.push(c),
;

/// The character of one digit, in upper or lower case where it is a letter.
pub open spec fn digit(d: nat, upper: bool) -> char {
    if d < 10 {
        (('0' as nat) + d) as char
    } else if upper {
        (('A' as nat) + (d - 10) as nat) as char
    } else {
        (('a' as nat) + (d - 10) as nat) as char
    }
}

/// Dividing by a base of two or more makes a positive number smaller.
pub proof fn lemma_quotient_smaller(n: nat, base: nat)
    by (nonlinear_arith)
    requires
        base >= 2,
    ensures
        n > 0 ==> n / base < n,
        n < base ==> n / base == 0 && n % base == n,
        n % base < base,
{
}

/// `n` written in `base` with at least `width` digits, zeros in front.
pub open spec fn number(n: nat, base: nat, width: nat, upper: bool) -> Seq<char>
    decreases n + width,
{
    if base < 2 || (n < base && width <= 1) {
        seq![digit(n, upper)]
    } else {
        proof {
            lemma_quotient_smaller(n, base);
        }
        number(n / base, base, if width == 0 { 0 } else { (width - 1) as nat }, upper).push(
            digit(n % base, upper),
        )
    }
}

/// `n` in decimal, no padding.
pub open spec fn decimal(n: nat) -> Seq<char> {
    number(n, 10, 1, false)
}

/// `n` in decimal, its sign always written.
pub open spec fn signed(n: int) -> Seq<char> {
    if n < 0 {
        seq!['-'] + decimal((-n) as nat)
    } else {
        seq!['+'] + decimal(n as nat)
    }
}

/// `0x` and `n` in lower-case hexadecimal with at least `width` digits.
pub open spec fn hexed(n: nat, width: nat) -> Seq<char> {
    seq!['0', 'x'] + number(n, 16, width, false)
}

fn digit_char(d: u64, upper: bool) -> (r: char)
    requires
        d < 16,
    ensures
        r == digit(d as nat, upper),
{
    let b: u8 = if d < 10 {
        48 + d as u8
    } else if upper {
        65 + (d - 10) as u8
    } else {
        97 + (d - 10) as u8
    };
    b as char
}

/// Appends `n` in `base`, padded with zeros to `width` digits.
pub fn push_number(out: &mut String, n: u64, base: u64, width: u64, upper: bool)
    requires
        2 <= base <= 16,
    ensures
        final(out)@ == old(out)@ + number(n as nat, base as nat, width as nat, upper),
    decreases n + width,
{
    proof {
        lemma_quotient_smaller(n as nat, base as nat);
    }
    if n >= base || width > 1 {
        let rest: u64 = if width == 0 { 0 } else { width - 1 };
        push_number(out, n / base, base, rest, upper);
    }
    out.push(digit_char(n % base, upper));
}

/// Appends `n` in decimal.
pub fn push_decimal(out: &mut String, n: u64)
    ensures
        final(out)@ == old(out)@ + decimal(n as nat),
{
    push_number(out, n, 10, 1, false);
}

/// Appends `n` in decimal with its sign in front.
pub fn push_signed(out: &mut String, n: i32)
    ensures
        final(out)@ == old(out)@ + signed(n as int),
{
    if n < 0 {
        out.push('-');
        push_decimal(out, (-(n as i64)) as u64);
    } else {
        out.push('+');
        push_decimal(out, n as u64);
    }
}

/// Appends `0x` and `n` in hexadecimal with at least `width` digits.
pub fn push_hexed(out: &mut String, n: u16, width: u64)
    ensures
        final(out)@ == old(out)@ + hexed(n as nat, width as nat),
{
    out.push('0');
    out.push('x');
    push_number(out, n as u64, 16, width, false);
}

/// `char::from_u32` gives the character with that code point, and nothing for a number that is
/// no code point or a surrogate.
pub assume_specification[ char::from_u32 ](i: u32) -> (r: Option<char>)
    ensures
        r is Some <==> (i <= 0xD7FF || 0xE000 <= i <= 0x10FFFF),
        r is Some ==> r->0 as int == i as int,
;

/// The characters of `s`, one by one.
pub fn chars_of(s: &str) -> (r: Vec<char>)
    ensures
        r@ == s@,
{
    let mut out: Vec<char> = Vec::new();
    for c in iter: s.chars()
        invariant
            out@ == iter.seq().take(iter.index()),
            iter.seq() == s@,
    {
        out.push(c);
    }
    out
}

/// A string made of the characters of `v`.
pub fn string_of(v: &Vec<char>) -> (r: String)
    ensures
        r@ == v@,
{
    let mut out = String::new();
    let mut i: usize = 0;
    while i < v.len()
        invariant
            i <= v.len(),
            out@ == v@.take(i as int),
        decreases v.len() - i,
    {
        out.push(v[i]);
        i += 1;
    }
    out
}

/// A code unit that opens a surrogate pair.
pub open spec fn is_high(u: u16) -> bool {
    0xD800 <= u <= 0xDBFF
}

/// A code unit that closes a surrogate pair.
pub open spec fn is_low(u: u16) -> bool {
    0xDC00 <= u <= 0xDFFF
}

/// A character is a Unicode scalar value.
pub proof fn lemma_char_range(c: char)
    ensures
        0 <= c as int <= 0xD7FF || 0xE000 <= c as int <= 0x10FFFF,
{
}

/// The UTF-16 code units of one character.
pub open spec fn units_of(c: char) -> Seq<u16> {
    let n = c as int;
    if n < 0x1_0000 {
        seq![n as u16]
    } else {
        seq![
            (0xD800 + (n - 0x1_0000) / 0x400) as u16,
            (0xDC00 + (n - 0x1_0000) % 0x400) as u16,
        ]
    }
}

proof fn lemma_units(c: char)
    ensures
        (c as int) < 0x1_0000 ==> {
            let u = units_of(c);
            &&& u.len() == 1
            &&& !is_high(u[0])
            &&& !is_low(u[0])
            &&& u[0] as char == c
            &&& u[0] as int == c as int
        },
        (c as int) >= 0x1_0000 ==> {
            let u = units_of(c);
            &&& u.len() == 2
            &&& is_high(u[0])
            &&& is_low(u[1])
            &&& joined(u[0], u[1]) == c
        },
{
}

/// The UTF-16 code units of a text.
pub open spec fn utf16(s: Seq<char>) -> Seq<u16>
    decreases s.len(),
{
    if s.len() == 0 {
        Seq::empty()
    } else {
        units_of(s[0]) + utf16(s.drop_first())
    }
}

/// The character that a surrogate pair stands for.
pub open spec fn joined(high: u16, low: u16) -> char {
    (0x1_0000 + (high - 0xD800) * 0x400 + (low - 0xDC00)) as char
}

/// The text that UTF-16 code units stand for; a surrogate without its partner reads as U+FFFD.
pub open spec fn utf16_decoded(u: Seq<u16>) -> Seq<char>
    decreases u.len(),
{
    if u.len() == 0 {
        Seq::empty()
    } else if !is_high(u[0]) && !is_low(u[0]) {
        seq![u[0] as char] + utf16_decoded(u.drop_first())
    } else if is_high(u[0]) && u.len() >= 2 && is_low(u[1]) {
        seq![joined(u[0], u[1])] + utf16_decoded(u.skip(2))
    } else {
        seq!['\u{FFFD}'] + utf16_decoded(u.drop_first())
    }
}

/// Encodes a text as UTF-16.
pub fn encode_utf16(s: &str) -> (r: Vec<u16>)
    ensures
        r@ == utf16(s@),
{
    let chars = chars_of(s);
    let mut out: Vec<u16> = Vec::new();
    let mut i: usize = 0;
    assert(s@.skip(0) == s@);
    while i < chars.len()
        invariant
            i <= chars.len(),
            chars@ == s@,
            utf16(s@) == out@ + utf16(s@.skip(i as int)),
        decreases chars.len() - i,
    {
        let c: char = chars[i];
        proof {
            lemma_char_range(c);
        }
        let n: u32 = c as u32;
        if n < 0x1_0000 {
            out.push(n as u16);
        } else {
            out.push((0xD800 + (n - 0x1_0000) / 0x400) as u16);
            out.push((0xDC00 + (n - 0x1_0000) % 0x400) as u16);
        }
        assert(s@.skip(i as int).drop_first() == s@.skip(i + 1));
        i += 1;
    }
    out
}

/// Reads UTF-16 back into text.
pub fn decode_utf16(u: &[u16]) -> (r: String)
    ensures
        r@ == utf16_decoded(u@),
{
    let mut out = String::new();
    let mut i: usize = 0;
    assert(u@.skip(0) == u@);
    while i < u.len()
        invariant
            i <= u.len(),
            utf16_decoded(u@) == out@ + utf16_decoded(u@.skip(i as int)),
        decreases u.len() - i,
    {
        let ghost rest = u@.skip(i as int);
        let first: u16 = u[i];
        let lone: bool = first < 0xD800 || first > 0xDFFF;
        let paired: bool = !lone && first < 0xDC00 && i + 1 < u.len() && u[i + 1] >= 0xDC00 && u[i
            + 1] <= 0xDFFF;
        let code: u32 = if lone {
            first as u32
        } else if paired {
            0x1_0000 + (first as u32 - 0xD800) * 0x400 + (u[i + 1] as u32 - 0xDC00)
        } else {
            0xFFFD
        };
        let c = match char::from_u32(code) {
            Some(c) => c,
            None => '\u{FFFD}',
        };
        out.push(c);
        assert(rest.drop_first() == u@.skip(i + 1));
        if paired {
            assert(rest.skip(2) == u@.skip(i + 2));
            i += 2;
        } else {
            i += 1;
        }
    }
    out
}

/// Decoding what was encoded gives the text back, whatever stands behind it.
pub proof fn law_utf16_round_trip(s: Seq<char>, rest: Seq<u16>)
    ensures
        utf16_decoded(utf16(s) + rest) == s + utf16_decoded(rest),
    decreases s.len(),
{
    if s.len() > 0 {
        let tail = s.drop_first();
        let u = utf16(s) + rest;
        let inner = utf16(tail) + rest;
        law_utf16_round_trip(tail, rest);
        lemma_char_range(s[0]);
        lemma_units(s[0]);
        if (s[0] as int) < 0x1_0000 {
            assert(u.drop_first() == inner);
        } else {
            assert(u.skip(2) == inner);
        }
    }
}

/// Text without a zero in it has none in UTF-16.
pub proof fn lemma_no_zero_units(s: Seq<char>)
    requires
        forall|i: int| 0 <= i < s.len() ==> s[i] != '\0',
    ensures
        forall|i: int| 0 <= i < utf16(s).len() ==> utf16(s)[i] != 0,
    decreases s.len(),
{
    if s.len() > 0 {
        lemma_char_range(s[0]);
        lemma_units(s[0]);
        lemma_no_zero_units(s.drop_first());
        let head = units_of(s[0]);
        let tail = utf16(s.drop_first());
        assert forall|i: int| 0 <= i < utf16(s).len() implies utf16(s)[i] != 0 by {
            if i < head.len() {
                assert(utf16(s)[i] == head[i]);
            } else {
                assert(utf16(s)[i] == tail[i - head.len()]);
            }
        }
    }
}

/// The characters that numbers are written with, and the `x` in front of hexadecimal ones.
pub open spec fn is_numeral(c: char) -> bool {
    '0' <= c <= '9' || 'a' <= c <= 'f' || 'A' <= c <= 'F' || c == 'x'
}

/// A number is written in numerals, one at least.
pub proof fn lemma_number_is_numerals(n: nat, base: nat, width: nat, upper: bool)
    requires
        2 <= base <= 16,
    ensures
        number(n, base, width, upper).len() >= 1,
        forall|i: int|
            0 <= i < number(n, base, width, upper).len() ==> is_numeral(
                #[trigger] number(n, base, width, upper)[i],
            ),
    decreases n + width,
{
    lemma_quotient_smaller(n, base);
    if !(n < base && width <= 1) {
        lemma_number_is_numerals(
            n / base,
            base,
            if width == 0 {
                0
            } else {
                (width - 1) as nat
            },
            upper,
        );
    }
}

/// Different numbers are written differently.
pub proof fn lemma_numbers_differ(n: nat, m: nat, base: nat, width: nat, upper: bool)
    requires
        2 <= base <= 16,
        number(n, base, width, upper) == number(m, base, width, upper),
    ensures
        n == m,
    decreases n + width,
{
    let (s, t) = (number(n, base, width, upper), number(m, base, width, upper));
    let less = if width == 0 {
        0
    } else {
        (width - 1) as nat
    };
    lemma_quotient_smaller(n, base);
    lemma_quotient_smaller(m, base);
    lemma_number_is_numerals(n / base, base, less, upper);
    lemma_number_is_numerals(m / base, base, less, upper);
    assert(s.last() == digit(n % base, upper));
    assert(t.last() == digit(m % base, upper));
    assert(n % base == m % base);
    if !(n < base && width <= 1) {
        let (high_n, high_m) = (
            number(n / base, base, less, upper),
            number(m / base, base, less, upper),
        );
        assert(s == high_n.push(digit(n % base, upper)));
        assert(!(m < base && width <= 1));
        assert(t == high_m.push(digit(m % base, upper)));
        assert(s.drop_last() == high_n);
        assert(t.drop_last() == high_m);
        lemma_numbers_differ(n / base, m / base, base, less, upper);
        vstd::arithmetic::div_mod::lemma_fundamental_div_mod(n as int, base as int);
        vstd::arithmetic::div_mod::lemma_fundamental_div_mod(m as int, base as int);
    }
}

/// Text up to the first `mark` is the same where the whole is the same, and so is what follows.
pub proof fn lemma_split_at_mark(a: Seq<char>, x: Seq<char>, b: Seq<char>, y: Seq<char>, mark: char)
    requires
        a + seq![mark] + x == b + seq![mark] + y,
        !a.contains(mark),
        !b.contains(mark),
    ensures
        a == b,
        x == y,
{
    let (s, t) = (a + seq![mark] + x, b + seq![mark] + y);
    assert(s[a.len() as int] == mark);
    assert(t[b.len() as int] == mark);
    if a.len() < b.len() {
        assert(b[a.len() as int] == t[a.len() as int]);
    } else if b.len() < a.len() {
        assert(a[b.len() as int] == s[b.len() as int]);
    }
    assert forall|i: int| 0 <= i < a.len() implies a[i] == b[i] by {
        assert(s[i] == t[i]);
    }
    assert(a == b);
    let k = a.len() as int + 1;
    assert(s.skip(k) == x);
    assert(t.skip(k) == y);
}

// ----------------------------------------------------------- numbers as text

/// What a character counts for as a digit, in either case.
pub open spec fn worth(c: char) -> int {
    let n = c as int;
    if 48 <= n <= 57 {
        n - 48
    } else if 65 <= n <= 70 {
        n - 55
    } else if 97 <= n <= 102 {
        n - 87
    } else {
        99
    }
}

/// The number that digits stand for.
pub open spec fn read_in(s: Seq<char>, base: int) -> int
    decreases s.len(),
{
    if s.len() == 0 {
        0
    } else {
        read_in(s.drop_last(), base) * base + worth(s.last())
    }
}

/// A number reads back from its digits, in whatever base and width it was written. There are as many
/// digits as asked for, zeros in front, and more only where the number needs them. Letters are in
/// the case that was asked for.
pub proof fn law_numbers_read_back(n: nat, base: nat, width: nat, upper: bool)
    requires
        2 <= base <= 16,
    ensures
        ({
            let s = number(n, base, width, upper);
            &&& read_in(s, base as int) == n
            &&& s.len() >= 1
            &&& s.len() >= width
            &&& s.len() > width && s.len() > 1 ==> s[0] as int != 48
            &&& forall|i: int|
                0 <= i < s.len() ==> worth(#[trigger] s[i]) < base && (s[i] as int >= 97 ==> !upper)
                    && (65 <= s[i] as int <= 90 ==> upper)
        }),
    decreases n + width,
{
    let s = number(n, base, width, upper);
    lemma_quotient_smaller(n, base);
    if n < base && width <= 1 {
        assert(s.drop_last() == Seq::<char>::empty());
        assert(s.last() == digit(n, upper));
        assert(read_in(s.drop_last(), base as int) == 0);
        assert(0 * base == 0);
    } else {
        let less = if width == 0 {
            0
        } else {
            (width - 1) as nat
        };
        law_numbers_read_back(n / base, base, less, upper);
        let high = number(n / base, base, less, upper);
        assert(s == high.push(digit(n % base, upper)));
        assert(s.drop_last() == high);
        assert(s.last() == digit(n % base, upper));
        vstd::arithmetic::div_mod::lemma_fundamental_div_mod(n as int, base as int);
        assert((n / base) * base == base * (n / base)) by (nonlinear_arith);
        if s.len() > width && s.len() > 1 && high.len() == 1 {
            if less == 0 || high.len() <= less {
                lemma_one_digit(n / base, base, less, upper);
            }
        }
    }
}

/// A number in one digit that is written because of its size is not zero.
proof fn lemma_one_digit(n: nat, base: nat, width: nat, upper: bool)
    requires
        2 <= base <= 16,
        number(n, base, width, upper).len() == 1,
    ensures
        n < base,
        number(n, base, width, upper)[0] == digit(n, upper),
    decreases n + width,
{
    lemma_quotient_smaller(n, base);
    if !(n < base && width <= 1) {
        let less = if width == 0 {
            0
        } else {
            (width - 1) as nat
        };
        lemma_number_is_numerals(n / base, base, less, upper);
        assert(number(n, base, width, upper).len() == number(n / base, base, less, upper).len() + 1);
    }
}

/// A decimal number has no zeros in front; with a sign it has exactly one, which is a minus where it
/// is below zero; and a hexadecimal one has `0x` in front of its digits.
pub proof fn law_signs_and_prefixes(n: int, m: nat, width: nat)
    ensures
        read_in(decimal(m), 10) == m,
        decimal(m).len() > 1 ==> decimal(m)[0] as int != 48,
        signed(n)[0] as int == if n < 0 {
            45int
        } else {
            43
        },
        read_in(signed(n).skip(1), 10) == if n < 0 {
            -n
        } else {
            n
        },
        hexed(m, width)[0] as int == 48,
        hexed(m, width)[1] as int == 120,
        read_in(hexed(m, width).skip(2), 16) == m,
        hexed(m, width).len() >= width + 2,
{
    law_numbers_read_back(m, 10, 1, false);
    law_numbers_read_back(m, 16, width, false);
    let size = if n < 0 {
        (-n) as nat
    } else {
        n as nat
    };
    law_numbers_read_back(size, 10, 1, false);
    assert(signed(n).skip(1) == decimal(size));
    assert(hexed(m, width).skip(2) == number(m, 16, width, false));
}

/// Text is encoded character by character: one below 0x10000 as itself, one above as a high and a low
/// surrogate that hold the twenty bits of what it is above.
pub proof fn law_characters_are_encoded_one_by_one(a: Seq<char>, b: Seq<char>, c: char)
    ensures
        utf16(a + b) == utf16(a) + utf16(b),
        (c as int) < 0x1_0000 ==> utf16(seq![c]).len() == 1 && utf16(seq![c])[0] == c as int,
        (c as int) >= 0x1_0000 ==> {
            let u = utf16(seq![c]);
            &&& u.len() == 2
            &&& 0xD800 <= u[0] <= 0xDBFF
            &&& 0xDC00 <= u[1] <= 0xDFFF
            &&& (u[0] - 0xD800) * 1024 + (u[1] - 0xDC00) == c as int - 0x1_0000
        },
    decreases a.len(),
{
    lemma_char_range(c);
    lemma_units(c);
    assert(seq![c].drop_first() == Seq::<char>::empty());
    assert(utf16(Seq::<char>::empty()) == Seq::<u16>::empty());
    assert(utf16(seq![c]) == units_of(c));
    if a.len() == 0 {
        assert(a + b == b);
        assert(utf16(a) + utf16(b) == utf16(b));
    } else {
        assert((a + b).drop_first() == a.drop_first() + b);
        law_characters_are_encoded_one_by_one(a.drop_first(), b, c);
        assert(units_of(a[0]) + (utf16(a.drop_first()) + utf16(b)) == units_of(a[0]) + utf16(
            a.drop_first(),
        ) + utf16(b));
    }
}

/// A surrogate without its partner reads as U+FFFD and costs nothing of what follows.
pub proof fn law_lone_surrogates_are_replaced(u: u16, rest: Seq<u16>)
    requires
        0xD800 <= u <= 0xDFFF,
        u >= 0xDC00 || rest.len() == 0 || !(0xDC00 <= rest[0] <= 0xDFFF),
    ensures
        utf16_decoded(seq![u] + rest) == seq!['\u{FFFD}'] + utf16_decoded(rest),
{
    assert((seq![u] + rest).drop_first() == rest);
    if rest.len() > 0 {
        assert((seq![u] + rest)[1] == rest[0]);
    }
}

} // verus!

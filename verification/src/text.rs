//! Numbers as text, and text as numbers.
use vstd::prelude::*;

verus! {

/// Whether two strings are equal.
pub(crate) fn same_text(a: &str, b: &str) -> (r: bool)
    ensures
        r == (a@ == b@),
{
    let n: usize = a.unicode_len();
    if n != b.unicode_len() {
        return false;
    }
    let mut i: usize = 0;
    while i < n
        invariant
            i <= n,
            n == a@.len(),
            n == b@.len(),
            forall|j: int| 0 <= j < i ==> a@[j] == b@[j],
        decreases n - i,
    {
        if a.get_char(i) != b.get_char(i) {
            return false;
        }
        i = i + 1;
    }
    assert(a@ =~= b@);
    true
}

/// The digit of a number below 16.
pub open spec fn digit_char(d: int) -> char {
    if d == 0 {
        '0'
    } else if d == 1 {
        '1'
    } else if d == 2 {
        '2'
    } else if d == 3 {
        '3'
    } else if d == 4 {
        '4'
    } else if d == 5 {
        '5'
    } else if d == 6 {
        '6'
    } else if d == 7 {
        '7'
    } else if d == 8 {
        '8'
    } else if d == 9 {
        '9'
    } else if d == 10 {
        'a'
    } else if d == 11 {
        'b'
    } else if d == 12 {
        'c'
    } else if d == 13 {
        'd'
    } else if d == 14 {
        'e'
    } else {
        'f'
    }
}

/// The digits of a number in base 10 or 16, without leading zeros.
pub open spec fn digits(n: nat, base: nat) -> Seq<char>
    decreases n,
{
    if base < 2 || n < base {
        seq![digit_char(n as int)]
    } else {
        proof {
            vstd::arithmetic::div_mod::lemma_div_decreases(n as int, base as int);
        }
        digits(n / base, base).push(digit_char((n % base) as int))
    }
}

/// A number in hexadecimal, with the prefix 0x.
pub open spec fn hex_text(n: nat) -> Seq<char> {
    "0x"@ + digits(n, 16)
}

/// A number in decimal.
pub open spec fn decimal_text(n: nat) -> Seq<char> {
    digits(n, 10)
}

fn digit_str(d: u64) -> (r: &'static str)
    requires
        d < 16,
    ensures
        r@ == seq![digit_char(d as int)],
{
    proof {
        reveal_strlit("0");
        reveal_strlit("1");
        reveal_strlit("2");
        reveal_strlit("3");
        reveal_strlit("4");
        reveal_strlit("5");
        reveal_strlit("6");
        reveal_strlit("7");
        reveal_strlit("8");
        reveal_strlit("9");
        reveal_strlit("a");
        reveal_strlit("b");
        reveal_strlit("c");
        reveal_strlit("d");
        reveal_strlit("e");
        reveal_strlit("f");
    }
    let r = match d {
        0 => "0",
        1 => "1",
        2 => "2",
        3 => "3",
        4 => "4",
        5 => "5",
        6 => "6",
        7 => "7",
        8 => "8",
        9 => "9",
        10 => "a",
        11 => "b",
        12 => "c",
        13 => "d",
        14 => "e",
        _ => "f",
    };
    assert(r@ =~= seq![digit_char(d as int)]);
    r
}

/// Appends the digits of a number.
fn push_digits(text: &mut String, n: u64, base: u64)
    requires
        base == 10 || base == 16,
    ensures
        final(text)@ == old(text)@ + digits(n as nat, base as nat),
    decreases n,
{
    if n >= base {
        push_digits(text, n / base, base);
    }
    text.append(digit_str(n % base));
    assert(text@ =~= old(text)@ + digits(n as nat, base as nat));
}

/// Appends a number in hexadecimal.
pub fn push_hex(text: &mut String, n: u64)
    ensures
        final(text)@ == old(text)@ + hex_text(n as nat),
{
    text.append("0x");
    push_digits(text, n, 16);
    assert(text@ =~= old(text)@ + hex_text(n as nat));
}

/// Appends a number in decimal.
pub fn push_decimal(text: &mut String, n: u64)
    ensures
        final(text)@ == old(text)@ + decimal_text(n as nat),
{
    push_digits(text, n, 10);
}

/// Why a text is not an address.
#[derive(Debug, Clone, Copy, PartialEq, Eq, Structural)]
pub enum AddressError {
    /// There is no digit.
    Empty,
    /// A character is no digit of the base.
    InvalidDigit,
    /// The number does not fit in 32 bits.
    Overflow,
}

/// White space at the ends of an address is ignored.
pub open spec fn is_space(c: char) -> bool {
    let n = c as u32;
    ||| 0x09 <= n <= 0x0D
    ||| n == 0x20
    ||| n == 0x85
    ||| n == 0xA0
    ||| n == 0x1680
    ||| 0x2000 <= n <= 0x200A
    ||| n == 0x2028
    ||| n == 0x2029
    ||| n == 0x202F
    ||| n == 0x205F
    ||| n == 0x3000
}

fn space(c: char) -> (r: bool)
    ensures
        r == is_space(c),
{
    let n: u32 = c as u32;
    (0x09 <= n && n <= 0x0D) || n == 0x20 || n == 0x85 || n == 0xA0 || n == 0x1680 || (0x2000 <= n
        && n <= 0x200A) || n == 0x2028 || n == 0x2029 || n == 0x202F || n == 0x205F || n == 0x3000
}

/// The text without white space at its start.
pub open spec fn trim_start(s: Seq<char>) -> Seq<char>
    decreases s.len(),
{
    if s.len() > 0 && is_space(s[0]) {
        trim_start(s.skip(1))
    } else {
        s
    }
}

/// The text without white space at its end.
pub open spec fn trim_end(s: Seq<char>) -> Seq<char>
    decreases s.len(),
{
    if s.len() > 0 && is_space(s.last()) {
        trim_end(s.drop_last())
    } else {
        s
    }
}

/// The value of a digit.
pub open spec fn digit_value(c: char, base: int) -> Option<int> {
    let n = c as u32;
    let v = if 0x30 <= n <= 0x39 {
        n - 0x30
    } else if 0x61 <= n <= 0x66 {
        n - 0x61 + 10
    } else if 0x41 <= n <= 0x46 {
        n - 0x41 + 10
    } else {
        99
    };
    if v < base {
        Some(v)
    } else {
        None
    }
}

fn value_of_digit(c: char, base: u64) -> (r: Option<u64>)
    requires
        base == 10 || base == 16,
    ensures
        match digit_value(c, base as int) {
            Some(v) => r == Some(v as u64) && 0 <= v < 16,
            None => r is None,
        },
{
    let n: u32 = c as u32;
    let v: u64 = if 0x30 <= n && n <= 0x39 {
        n as u64 - 0x30
    } else if 0x61 <= n && n <= 0x66 {
        n as u64 - 0x61 + 10
    } else if 0x41 <= n && n <= 0x46 {
        n as u64 - 0x41 + 10
    } else {
        99
    };
    if v < base {
        Some(v)
    } else {
        None
    }
}

/// Reading digits after a number that was already read; the first character that
/// is no digit, or that makes the number too large, decides.
pub open spec fn number_from(s: Seq<char>, base: int, acc: int) -> Result<u32, AddressError>
    decreases s.len(),
{
    if s.len() == 0 {
        Ok(acc as u32)
    } else {
        match digit_value(s[0], base) {
            None => Err(AddressError::InvalidDigit),
            Some(v) => if acc * base + v > 0xFFFF_FFFF {
                Err(AddressError::Overflow)
            } else {
                number_from(s.skip(1), base, acc * base + v)
            },
        }
    }
}

/// A number with an optional plus sign.
pub open spec fn number_of(s: Seq<char>, base: int) -> Result<u32, AddressError> {
    if s.len() == 0 {
        Err(AddressError::Empty)
    } else if s.len() == 1 && (s[0] == '+' || s[0] == '-') {
        Err(AddressError::InvalidDigit)
    } else if s[0] == '+' {
        number_from(s.skip(1), base, 0)
    } else {
        number_from(s, base, 0)
    }
}

/// An address: hexadecimal after 0x or 0X, else decimal, with white space around
/// it.
pub open spec fn address_of(s: Seq<char>) -> Result<u32, AddressError> {
    let t = trim_end(trim_start(s));
    if t.len() >= 2 && t[0] == '0' && (t[1] == 'x' || t[1] == 'X') {
        number_of(t.skip(2), 16)
    } else {
        number_of(t, 10)
    }
}

/// The characters of a text.
fn chars_of(s: &str) -> (r: Vec<char>)
    ensures
        r@ == s@,
{
    let n: usize = s.unicode_len();
    let mut v: Vec<char> = Vec::new();
    let mut i: usize = 0;
    while i < n
        invariant
            i <= n,
            n == s@.len(),
            v@ == s@.take(i as int),
        decreases n - i,
    {
        v.push(s.get_char(i));
        assert(s@.take(i + 1) =~= s@.take(i as int).push(s@[i as int]));
        i = i + 1;
    }
    assert(s@.take(n as int) =~= s@);
    v
}

fn read_number(v: &Vec<char>, from: usize, to: usize, base: u64) -> (r: Result<u32, AddressError>)
    requires
        from <= to <= v@.len(),
        base == 10 || base == 16,
    ensures
        r == number_of(v@.subrange(from as int, to as int), base as int),
{
    let ghost whole = v@.subrange(from as int, to as int);
    if from == to {
        return Err(AddressError::Empty);
    }
    if to - from == 1 && (v[from] == '+' || v[from] == '-') {
        return Err(AddressError::InvalidDigit);
    }
    let start: usize = if v[from] == '+' {
        from + 1
    } else {
        from
    };
    proof {
        if start > from {
            assert(whole.skip(1) =~= v@.subrange(start as int, to as int));
        } else {
            assert(whole =~= v@.subrange(start as int, to as int));
        }
    }
    let mut i: usize = start;
    let mut acc: u64 = 0;
    while i < to
        invariant
            from <= start <= i <= to <= v@.len(),
            acc <= 0xFFFF_FFFF,
            number_of(v@.subrange(from as int, to as int), base as int) == number_from(
                v@.subrange(start as int, to as int),
                base as int,
                0,
            ),
            base == 10 || base == 16,
            number_from(v@.subrange(i as int, to as int), base as int, acc as int) == number_from(
                v@.subrange(start as int, to as int),
                base as int,
                0,
            ),
        decreases to - i,
    {
        proof {
            assert(v@.subrange(i as int, to as int)[0] == v@[i as int]);
            assert(v@.subrange(i as int, to as int).skip(1) =~= v@.subrange(i + 1, to as int));
            assert(acc * base <= 0xFFFF_FFFF * 16) by (nonlinear_arith)
                requires
                    acc <= 0xFFFF_FFFF,
                    base <= 16,
            ;
        }
        match value_of_digit(v[i], base) {
            None => {
                return Err(AddressError::InvalidDigit);
            },
            Some(d) => {
                let next: u64 = acc * base + d;
                if next > 0xFFFF_FFFF {
                    return Err(AddressError::Overflow);
                }
                acc = next;
            },
        }
        i = i + 1;
    }
    Ok(acc as u32)
}

/// Reads an address.
pub fn parse_hex_u32(s: &str) -> (r: Result<u32, AddressError>)
    ensures
        r == address_of(s@),
{
    let v: Vec<char> = chars_of(s);
    let mut from: usize = 0;
    proof {
        assert(v@.skip(0) =~= v@);
    }
    while from < v.len() && space(v[from])
        invariant
            from <= v@.len(),
            trim_start(v@.skip(from as int)) == trim_start(v@),
        decreases v@.len() - from,
    {
        assert(v@.skip(from as int).skip(1) =~= v@.skip(from + 1));
        assert(v@.skip(from as int)[0] == v@[from as int]);
        from = from + 1;
    }
    let ghost rest = v@.skip(from as int);
    proof {
        if from < v@.len() {
            assert(rest[0] == v@[from as int]);
        }
        assert(trim_start(v@) == rest);
        assert(v@.subrange(from as int, v@.len() as int) =~= rest);
    }
    let mut to: usize = v.len();
    while to > from && space(v[to - 1])
        invariant
            from <= to <= v@.len(),
            trim_end(v@.subrange(from as int, to as int)) == trim_end(rest),
        decreases to,
    {
        assert(v@.subrange(from as int, to as int).last() == v@[to - 1]);
        assert(v@.subrange(from as int, to as int).drop_last() =~= v@.subrange(
            from as int,
            to - 1,
        ));
        to = to - 1;
    }
    let ghost t = v@.subrange(from as int, to as int);
    proof {
        if to > from {
            assert(t.last() == v@[to - 1]);
        }
        assert(trim_end(rest) == t);
        if to - from >= 2 {
            assert(t[0] == v@[from as int] && t[1] == v@[from + 1]);
            assert(t.skip(2) =~= v@.subrange(from + 2, to as int));
        }
    }
    if to - from >= 2 && v[from] == '0' && (v[from + 1] == 'x' || v[from + 1] == 'X') {
        read_number(&v, from + 2, to, 16)
    } else {
        read_number(&v, from, to, 10)
    }
}

proof fn lemma_digit(d: int, base: int)
    requires
        0 <= d < base,
        base == 10 || base == 16,
    ensures
        digit_value(digit_char(d), base) == Some(d),
        !is_space(digit_char(d)),
        digit_char(d) != '+',
        digit_char(d) != '-',
        digit_char(d) != 'x',
        digit_char(d) != 'X',
{
}

/// Every character of a number is a digit.
proof fn lemma_digits(n: nat, base: nat, i: int)
    requires
        base == 10 || base == 16,
        0 <= i < digits(n, base).len(),
    ensures
        exists|d: int| 0 <= d < base && digits(n, base)[i] == #[trigger] digit_char(d),
    decreases n,
{
    if n < base {
        assert(digits(n, base)[0] == digit_char(n as int));
    } else {
        vstd::arithmetic::div_mod::lemma_div_decreases(n as int, base as int);
        let head = digits(n / base, base);
        if i < head.len() {
            lemma_digits(n / base, base, i);
        } else {
            assert(digits(n, base)[i] == digit_char((n % base) as int));
        }
    }
}

/// Reading the digits of a number arrives at the number.
proof fn lemma_read_digits(n: nat, base: nat, rest: Seq<char>)
    requires
        base == 10 || base == 16,
        n <= 0xFFFF_FFFF,
    ensures
        digits(n, base).len() > 0,
        number_from(digits(n, base) + rest, base as int, 0) == number_from(
            rest,
            base as int,
            n as int,
        ),
    decreases n,
{
    if n < base {
        let s = digits(n, base) + rest;
        lemma_digit(n as int, base as int);
        assert(s[0] == digit_char(n as int));
        assert(s.skip(1) =~= rest);
    } else {
        vstd::arithmetic::div_mod::lemma_div_decreases(n as int, base as int);
        vstd::arithmetic::div_mod::lemma_fundamental_div_mod(n as int, base as int);
        let head = digits(n / base, base);
        let d = (n % base) as int;
        lemma_digit(d, base as int);
        let tail = seq![digit_char(d)] + rest;
        assert(digits(n, base) + rest =~= head + tail);
        lemma_read_digits(n / base, base, tail);
        assert(tail.skip(1) =~= rest);
        let q = (n / base) as int;
        assert(q * base == base * q) by (nonlinear_arith);
    }
}

/// An address that is written out is read back, in hexadecimal and in decimal.
pub proof fn law_address_round_trip(n: u32)
    ensures
        address_of(hex_text(n as nat)) == Ok::<u32, AddressError>(n),
        address_of(decimal_text(n as nat)) == Ok::<u32, AddressError>(n),
{
    reveal_strlit("0x");
    let hex = digits(n as nat, 16);
    let dec = digits(n as nat, 10);
    lemma_read_digits(n as nat, 16, Seq::empty());
    lemma_read_digits(n as nat, 10, Seq::empty());
    assert(hex + Seq::empty() =~= hex);
    assert(dec + Seq::empty() =~= dec);
    lemma_digits(n as nat, 16, 0);
    lemma_digits(n as nat, 16, hex.len() - 1);
    lemma_digits(n as nat, 10, 0);
    lemma_digits(n as nat, 10, dec.len() - 1);
    let h0 = choose|d: int| 0 <= d < 16 && hex[0] == #[trigger] digit_char(d);
    let h1 = choose|d: int| 0 <= d < 16 && hex[hex.len() - 1] == #[trigger] digit_char(d);
    let d0 = choose|d: int| 0 <= d < 10 && dec[0] == #[trigger] digit_char(d);
    let d1 = choose|d: int| 0 <= d < 10 && dec[dec.len() - 1] == #[trigger] digit_char(d);
    lemma_digit(h0, 16);
    lemma_digit(h1, 16);
    lemma_digit(d0, 10);
    lemma_digit(d1, 10);
    let t = hex_text(n as nat);
    assert(t[0] == '0' && t[1] == 'x');
    assert(t.last() == hex.last());
    assert(trim_start(t) == t && trim_end(t) == t);
    assert(t.skip(2) =~= hex);
    assert(trim_start(dec) == dec && trim_end(dec) == dec);
    if dec.len() >= 2 {
        lemma_digits(n as nat, 10, 1);
        let d = choose|d: int| 0 <= d < 10 && dec[1] == #[trigger] digit_char(d);
        lemma_digit(d, 10);
    }
}

} // verus!

//! Numbers as text.

use vstd::prelude::*;
use vstd::string::StringExecFns;

verus! {

/// The character of a digit.
pub open spec fn digit_char(d: int) -> char {
    if d == 0 {
        '0'
    } else if d == 1 {
        '1'
    } else if d == 2 {
        '2'
    } else if d == 3 {
        '3'
    } else if d == 4 {
        '4'
    } else if d == 5 {
        '5'
    } else if d == 6 {
        '6'
    } else if d == 7 {
        '7'
    } else if d == 8 {
        '8'
    } else if d == 9 {
        '9'
    } else if d == 10 {
        'a'
    } else if d == 11 {
        'b'
    } else if d == 12 {
        'c'
    } else if d == 13 {
        'd'
    } else if d == 14 {
        'e'
    } else {
        'f'
    }
}

/// `n` in base `base`, without leading zeros.
pub open spec fn numeral(n: nat, base: nat) -> Seq<char>
    decreases n,
{
    if base < 2 || n < base {
        seq![digit_char(n as int)]
    } else {
        proof {
            assert(n / base < n) by (nonlinear_arith)
                requires
                    n >= base,
                    base >= 2,
            ;
        }
        numeral(n / base, base).push(digit_char((n % base) as int))
    }
}

/// `n` as decimal digits.
pub open spec fn decimal(n: nat) -> Seq<char> {
    numeral(n, 10)
}

/// `n` as hexadecimal digits.
pub open spec fn hexadecimal(n: nat) -> Seq<char> {
    numeral(n, 16)
}

/// `n` as hexadecimal digits, with leading zeros up to `width`.
pub open spec fn hexadecimal_padded(n: nat, width: nat) -> Seq<char> {
    let h = hexadecimal(n);
    if h.len() >= width {
        h
    } else {
        Seq::new((width - h.len()) as nat, |i: int| '0') + h
    }
}

/// Whether `c` is a decimal digit.
pub open spec fn is_digit(c: char) -> bool {
    '0' <= c && c <= '9'
}

/// The value of a digit.
pub open spec fn digit_value(c: char) -> nat {
    (c as nat - '0' as nat) as nat
}

/// The value of a string of digits.
pub open spec fn digits_value(s: Seq<char>) -> nat
    decreases s.len(),
{
    if s.len() == 0 {
        0
    } else {
        digits_value(s.drop_last()) * 10 + digit_value(s.last())
    }
}

/// Whether `s` is a non-empty string of digits.
pub open spec fn all_digits(s: Seq<char>) -> bool {
    s.len() > 0 && forall|i: int| 0 <= i < s.len() ==> is_digit(#[trigger] s[i])
}

/// The number whose decimal text `s` is, if there is one and it is no larger
/// than `max`.
pub open spec fn parsed_number(s: Seq<char>, max: nat) -> Option<nat> {
    let n = digits_value(s);
    if s == decimal(n) && n <= max {
        Some(n)
    } else {
        None
    }
}

/// The decimal digits of a number are digits, and denote it.
pub proof fn lemma_decimal_value(n: nat)
    ensures
        all_digits(decimal(n)),
        digits_value(decimal(n)) == n,
    decreases n,
{
    if n < 10 {
        assert(decimal(n) =~= seq![digit_char(n as int)]);
        assert(decimal(n).drop_last() =~= Seq::<char>::empty());
        assert(digits_value(Seq::<char>::empty()) == 0);
    } else {
        lemma_decimal_value(n / 10);
        let front = decimal(n / 10);
        let d = digit_char((n % 10) as int);
        assert(decimal(n) =~= front.push(d));
        assert(decimal(n).drop_last() =~= front);
        assert(decimal(n).last() == d);
        assert(is_digit(d));
        assert forall|i: int| 0 <= i < decimal(n).len() implies is_digit(
            #[trigger] decimal(n)[i],
        ) by {
            if i < front.len() {
                assert(decimal(n)[i] == front[i]);
            }
        }
    }
}

/// The decimal text of a number starts with a zero only if it is zero.
proof fn lemma_decimal_start(n: nat)
    ensures
        decimal(n).len() > 0,
        n > 0 ==> decimal(n)[0] != '0',
        decimal(n).len() > 1 ==> n > 0,
    decreases n,
{
    if n < 10 {
        assert(decimal(n) =~= seq![digit_char(n as int)]);
    } else {
        lemma_decimal_start(n / 10);
        assert(decimal(n) =~= decimal(n / 10).push(digit_char((n % 10) as int)));
    }
}

/// Digits without a leading zero are the decimal text of their value.
proof fn lemma_digits_decimal(s: Seq<char>)
    requires
        all_digits(s),
        s.len() == 1 || s[0] != '0',
    ensures
        decimal(digits_value(s)) == s,
        s[0] != '0' ==> digits_value(s) > 0,
    decreases s.len(),
{
    let front = s.drop_last();
    let d = digit_value(s.last());
    assert(is_digit(s[s.len() - 1]));
    assert(digit_char(d as int) == s.last());
    if s.len() == 1 {
        assert(digits_value(front) == 0);
        assert(decimal(digits_value(s)) =~= s);
    } else {
        assert forall|i: int| 0 <= i < front.len() implies is_digit(#[trigger] front[i]) by {
            assert(front[i] == s[i]);
        }
        lemma_digits_decimal(front);
        let n = digits_value(s);
        assert(n / 10 == digits_value(front) && n % 10 == d);
        assert(decimal(n) =~= front.push(s.last()));
        assert(decimal(n) =~= s);
    }
}

/// The value of digits only grows with more digits.
proof fn lemma_digits_value_prefix(s: Seq<char>, k: int)
    requires
        0 <= k <= s.len(),
        forall|i: int| 0 <= i < s.len() ==> is_digit(#[trigger] s[i]),
    ensures
        digits_value(s.subrange(0, k)) <= digits_value(s),
    decreases s.len() - k,
{
    if k == s.len() {
        assert(s.subrange(0, k) =~= s);
    } else {
        lemma_digits_value_prefix(s, k + 1);
        assert(s.subrange(0, k + 1).drop_last() =~= s.subrange(0, k));
        let v = digits_value(s.subrange(0, k));
        assert(v <= v * 10);
    }
}

/// The one-character string of a digit.
fn digit_text(d: u8) -> (r: &'static str)
    requires
        d < 16,
    ensures
        r@ == seq![digit_char(d as int)],
{
    proof {
        reveal_strlit("0");
        reveal_strlit("1");
        reveal_strlit("2");
        reveal_strlit("3");
        reveal_strlit("4");
        reveal_strlit("5");
        reveal_strlit("6");
        reveal_strlit("7");
        reveal_strlit("8");
        reveal_strlit("9");
        reveal_strlit("a");
        reveal_strlit("b");
        reveal_strlit("c");
        reveal_strlit("d");
        reveal_strlit("e");
        reveal_strlit("f");
    }
    let r = match d {
        0 => "0",
        1 => "1",
        2 => "2",
        3 => "3",
        4 => "4",
        5 => "5",
        6 => "6",
        7 => "7",
        8 => "8",
        9 => "9",
        10 => "a",
        11 => "b",
        12 => "c",
        13 => "d",
        14 => "e",
        _ => "f",
    };
    assert(r@ =~= seq![digit_char(d as int)]);
    r
}

/// Append `n` in base `base`.
fn push_numeral(out: &mut String, n: u64, base: u64)
    requires
        2 <= base <= 16,
    ensures
        final(out)@ == old(out)@ + numeral(n as nat, base as nat),
    decreases n,
{
    if n >= base {
        assert(n / base < n) by (nonlinear_arith)
            requires
                n >= base,
                base >= 2,
        ;
        push_numeral(out, n / base, base);
        let digit: u64 = n % base;
        out.append(digit_text(digit as u8));
        assert(out@ =~= old(out)@ + numeral((n / base) as nat, base as nat).push(
            digit_char(digit as int),
        ));
    } else {
        out.append(digit_text(n as u8));
    }
}

/// Append `n` as decimal digits.
pub fn push_decimal(out: &mut String, n: u64)
    ensures
        final(out)@ == old(out)@ + decimal(n as nat),
{
    push_numeral(out, n, 10);
}

/// Append `n` as hexadecimal digits.
pub fn push_hexadecimal(out: &mut String, n: u64)
    ensures
        final(out)@ == old(out)@ + hexadecimal(n as nat),
{
    push_numeral(out, n, 16);
}

/// How many hexadecimal digits `n` has.
fn hexadecimal_len(n: u64) -> (r: usize)
    ensures
        r == hexadecimal(n as nat).len(),
        r <= 16,
{
    let mut rest: u64 = n;
    let mut len: usize = 1;
    assert(n < 0x1_0000_0000_0000_0000);
    while rest >= 16
        invariant
            1 <= len <= 16,
            len - 1 + hexadecimal(rest as nat).len() == hexadecimal(n as nat).len(),
            len == 1 ==> rest < 0x1_0000_0000_0000_0000,
            len == 2 ==> rest < 0x1000_0000_0000_0000,
            len == 3 ==> rest < 0x100_0000_0000_0000,
            len == 4 ==> rest < 0x10_0000_0000_0000,
            len == 5 ==> rest < 0x1_0000_0000_0000,
            len == 6 ==> rest < 0x1000_0000_0000,
            len == 7 ==> rest < 0x100_0000_0000,
            len == 8 ==> rest < 0x10_0000_0000,
            len == 9 ==> rest < 0x1_0000_0000,
            len == 10 ==> rest < 0x1000_0000,
            len == 11 ==> rest < 0x100_0000,
            len == 12 ==> rest < 0x10_0000,
            len == 13 ==> rest < 0x1_0000,
            len == 14 ==> rest < 0x1000,
            len == 15 ==> rest < 0x100,
            len == 16 ==> rest < 0x10,
        decreases rest,
    {
        rest = rest / 16;
        len = len + 1;
    }
    len
}

/// Append `n` as hexadecimal digits, with leading zeros up to `width`.
pub fn push_hexadecimal_padded(out: &mut String, n: u64, width: usize)
    ensures
        final(out)@ == old(out)@ + hexadecimal_padded(n as nat, width as nat),
{
    let len = hexadecimal_len(n);
    let ghost start = out@;
    let mut i: usize = len;
    while i < width
        invariant
            len <= i,
            i <= width || i == len,
            out@ == start + Seq::new((i - len) as nat, |j: int| '0'),
        decreases width - i,
    {
        proof {
            reveal_strlit("0");
        }
        out.append("0");
        i = i + 1;
        assert(out@ =~= start + Seq::new((i - len) as nat, |j: int| '0'));
    }
    push_hexadecimal(out, n);
    assert(out@ =~= old(out)@ + hexadecimal_padded(n as nat, width as nat));
}

/// The number whose decimal text the characters of `chars` from `from` on
/// are.
pub fn parse_number(chars: &Vec<char>, from: usize) -> (r: Option<usize>)
    requires
        from <= chars@.len(),
    ensures
        match parsed_number(chars@.subrange(from as int, chars@.len() as int), usize::MAX as nat) {
            Some(v) => r == Some(v as usize),
            None => r is None,
        },
{
    let ghost digits = chars@.subrange(from as int, chars@.len() as int);
    proof {
        let n = digits_value(digits);
        if digits == decimal(n) {
            lemma_decimal_value(n);
            lemma_decimal_start(n);
        }
    }
    if from == chars.len() {
        return None;
    }
    assert(digits[0] == chars@[from as int]);
    if chars.len() - from > 1 && chars[from] == '0' {
        return None;
    }
    let mut value: usize = 0;
    let mut i: usize = from;
    while i < chars.len()
        invariant
            from <= i <= chars@.len(),
            from < chars@.len(),
            digits == chars@.subrange(from as int, chars@.len() as int),
            digits == decimal(digits_value(digits)) ==> all_digits(digits),
            forall|j: int| 0 <= j < i - from ==> is_digit(#[trigger] digits[j]),
            value == digits_value(digits.subrange(0, i - from)),
        decreases chars@.len() - i,
    {
        let c = chars[i];
        assert(c == digits[i - from]);
        if c < '0' || c > '9' {
            assert(!is_digit(digits[i - from]));
            return None;
        }
        let d: usize = (c as u32 - '0' as u32) as usize;
        proof {
            let next = digits.subrange(0, i - from + 1);
            assert(next.drop_last() =~= digits.subrange(0, i - from));
            assert(next.last() == c);
            assert(digits_value(next) == value * 10 + d);
            if all_digits(digits) {
                lemma_digits_value_prefix(digits, i - from + 1);
            }
        }
        match value.checked_mul(10) {
            None => {
                return None;
            },
            Some(tens) => match tens.checked_add(d) {
                None => {
                    return None;
                },
                Some(v) => {
                    value = v;
                },
            },
        }
        i = i + 1;
    }
    proof {
        assert(digits.subrange(0, digits.len() as int) =~= digits);
        lemma_digits_decimal(digits);
    }
    Some(value)
}

/// The characters of `s`.
pub fn chars_of(s: &str) -> (r: Vec<char>)
    ensures
        r@ == s@,
{
    let n = s.unicode_len();
    let mut out: Vec<char> = Vec::new();
    let mut i: usize = 0;
    while i < n
        invariant
            i <= n,
            n == s@.len(),
            out@ == s@.subrange(0, i as int),
        decreases n - i,
    {
        out.push(s.get_char(i));
        i = i + 1;
        assert(out@ =~= s@.subrange(0, i as int));
    }
    assert(s@.subrange(0, n as int) =~= s@);
    out
}

/// What the strings say.
pub open spec fn texts(v: Seq<String>) -> Seq<Seq<char>> {
    Seq::new(v.len(), |i: int| v[i]@)
}

/// One more string says one more text.
pub proof fn lemma_texts_push(v: Seq<String>, s: String)
    ensures
        texts(v.push(s)) == texts(v).push(s@),
{
    assert(texts(v.push(s)) =~= texts(v).push(s@));
}

/// The parts one after the other, with `separator` between them.
pub open spec fn joined(parts: Seq<Seq<char>>, separator: Seq<char>) -> Seq<char>
    decreases parts.len(),
{
    if parts.len() == 0 {
        Seq::empty()
    } else if parts.len() == 1 {
        parts[0]
    } else {
        joined(parts.drop_last(), separator) + separator + parts.last()
    }
}

/// The parts one after the other, with `separator` between them.
pub fn join(parts: &Vec<String>, separator: &str) -> (r: String)
    ensures
        r@ == joined(texts(parts@), separator@),
{
    let mut out = String::new();
    let mut i: usize = 0;
    assert(texts(parts@).take(0) =~= Seq::empty());
    while i < parts.len()
        invariant
            i <= parts@.len(),
            out@ == joined(texts(parts@).take(i as int), separator@),
        decreases parts@.len() - i,
    {
        let ghost front = texts(parts@).take(i as int);
        let ghost longer = texts(parts@).take(i + 1);
        assert(longer.drop_last() =~= front);
        assert(longer.last() == parts@[i as int]@);
        if i > 0 {
            out.append(separator);
        }
        out.append(parts[i].as_str());
        assert(out@ =~= joined(longer, separator@));
        i = i + 1;
    }
    assert(texts(parts@).take(parts@.len() as int) =~= texts(parts@));
    out
}

} // verus!

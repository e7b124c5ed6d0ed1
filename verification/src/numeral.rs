//! Numbers written in positional notation, in bases up to sixteen.
use vstd::prelude::*;

verus! {

/// The digit for the value `d`, in lower case.
pub open spec fn digit_char(d: nat) -> char {
    if d < 10 {
        ('0' as u32 + d) as char
    } else {
        ('a' as u32 + (d - 10)) as char
    }
}

/// The value of `c` as a digit of the base, in either case.
pub open spec fn digit_value(c: char, base: nat) -> Option<nat> {
    let d: int = if '0' <= c && c <= '9' {
        c as u32 - '0' as u32
    } else if 'a' <= c && c <= 'z' {
        c as u32 - 'a' as u32 + 10
    } else if 'A' <= c && c <= 'Z' {
        c as u32 - 'A' as u32 + 10
    } else {
        base as int
    };
    if d < base {
        Some(d as nat)
    } else {
        None
    }
}

/// Whether `s` consists of digits of the base.
pub open spec fn all_digits(s: Seq<char>, base: nat) -> bool {
    forall|i: int| 0 <= i < s.len() ==> digit_value(#[trigger] s[i], base) is Some
}

/// The number that the digits `s` denote.
pub open spec fn value_of(s: Seq<char>, base: nat) -> nat
    decreases s.len(),
{
    if s.len() == 0 {
        0
    } else {
        value_of(s.drop_last(), base) * base + digit_value(s.last(), base).unwrap()
    }
}

/// The shortest way to write `n`: no leading zero, letters in lower case.
pub open spec fn text_of(n: nat, base: nat) -> Seq<char>
    decreases n,
{
    if base < 2 || n < base {
        seq![digit_char(n)]
    } else {
        proof {
            lemma_quotient_smaller(n, base);
        }
        text_of(n / base, base).push(digit_char(n % base))
    }
}

/// The decimal text of `n`.
pub open spec fn decimal(n: nat) -> Seq<char> {
    text_of(n, 10)
}

/// Dividing a number by a base no greater than it leaves less.
pub proof fn lemma_quotient_smaller(n: nat, base: nat)
    requires
        base >= 2,
        n >= base,
    ensures
        n / base < n,
{
    assert(n / base < n) by (nonlinear_arith)
        requires
            base >= 2,
            n >= base,
    ;
}

/// Writing a value as a digit and reading it back gives the value.
pub proof fn lemma_digit_round_trip(d: nat, base: nat)
    requires
        d < base <= 16,
    ensures
        digit_value(digit_char(d), base) == Some(d),
        digit_char(d) == '0' <==> d == 0,
{
}

/// The text of a number consists of digits and reads back as the number.
pub proof fn lemma_text_round_trip(n: nat, base: nat)
    requires
        2 <= base <= 16,
    ensures
        text_of(n, base).len() >= 1,
        all_digits(text_of(n, base), base),
        value_of(text_of(n, base), base) == n,
    decreases n,
{
    let t = text_of(n, base);
    if n < base {
        lemma_digit_round_trip(n, base);
        assert(t.drop_last() == Seq::<char>::empty());
        assert(value_of(t.drop_last(), base) == 0);
        assert(value_of(t, base) == 0 * base + n);
    } else {
        lemma_quotient_smaller(n, base);
        lemma_text_round_trip(n / base, base);
        assert(0 <= n % base < base && n == (n / base) * base + n % base) by (nonlinear_arith)
            requires
                base >= 2,
        ;
        lemma_digit_round_trip(n % base, base);
        assert(t.drop_last() == text_of(n / base, base));
        assert(t.last() == digit_char(n % base));
        assert(value_of(t, base) == value_of(t.drop_last(), base) * base + n % base);
        assert(value_of(t.drop_last(), base) == n / base);
        assert forall|i: int| 0 <= i < text_of(n, base).len() implies digit_value(
            #[trigger] text_of(n, base)[i],
            base,
        ) is Some by {
            if i < text_of(n, base).len() - 1 {
                assert(text_of(n, base)[i] == text_of(n / base, base)[i]);
            }
        }
    }
}

/// Two numbers with the same text are the same number.
pub proof fn lemma_text_injective(a: nat, b: nat, base: nat)
    requires
        2 <= base <= 16,
        text_of(a, base) == text_of(b, base),
    ensures
        a == b,
{
    lemma_text_round_trip(a, base);
    lemma_text_round_trip(b, base);
}

/// Only the text of zero starts with a zero.
pub proof fn lemma_text_first(n: nat, base: nat)
    requires
        2 <= base <= 16,
    ensures
        text_of(n, base).len() >= 1,
        text_of(n, base)[0] == '0' <==> n == 0,
        n == 0 ==> text_of(n, base).len() == 1,
    decreases n,
{
    if n < base {
        lemma_digit_round_trip(n, base);
    } else {
        lemma_quotient_smaller(n, base);
        assert(n / base >= 1) by (nonlinear_arith)
            requires
                n >= base,
                base >= 2,
        ;
        lemma_text_first(n / base, base);
    }
}

/// Every character of a number's text is a decimal digit or a small letter from `a` to `f`.
pub proof fn lemma_text_chars(n: nat, base: nat, i: int)
    requires
        2 <= base <= 16,
        0 <= i < text_of(n, base).len(),
    ensures
        ({
            let c = text_of(n, base)[i];
            ||| '0' <= c && c <= '9'
            ||| base > 10 && 'a' <= c && c <= 'f'
        }),
    decreases n,
{
    if n >= base {
        lemma_quotient_smaller(n, base);
        if i < text_of(n, base).len() - 1 {
            lemma_text_chars(n / base, base, i);
        }
    }
}

/// A number below ten to the third has at most three decimal digits.
pub proof fn lemma_decimal_length(n: nat)
    requires
        n < 1000,
    ensures
        decimal(n).len() <= 3,
{
    reveal_with_fuel(text_of, 3);
}

/// A number below sixteen to the fourth has at most four hexadecimal digits.
pub proof fn lemma_hexadecimal_length(n: nat)
    requires
        n < 0x10000,
    ensures
        text_of(n, 16).len() <= 4,
{
    reveal_with_fuel(text_of, 4);
}

/// Decimal digits without a needless leading zero are the text of their value.
pub proof fn lemma_canonical_decimal(s: Seq<char>)
    requires
        s.len() >= 1,
        all_digits(s, 10),
        s.len() > 1 ==> s[0] != '0',
    ensures
        decimal(value_of(s, 10)) == s,
        s.len() > 1 ==> value_of(s, 10) >= 10,
        s[0] != '0' ==> value_of(s, 10) >= 1,
    decreases s.len(),
{
    reveal_with_fuel(value_of, 2);
    assert(s.drop_last().push(s.last()) == s);
    assert(digit_value(s[s.len() - 1], 10) is Some);
    if s.len() == 1 {
        assert(s.drop_last() == Seq::<char>::empty());
        assert(decimal(value_of(s, 10)) =~= s);
    } else {
        let init = s.drop_last();
        assert forall|i: int| 0 <= i < init.len() implies digit_value(
            #[trigger] init[i],
            10,
        ) is Some by {
            assert(s[i] == init[i]);
        }
        assert(init[0] == s[0]);
        lemma_canonical_decimal(init);
        let v = value_of(init, 10);
        let d = digit_value(s.last(), 10).unwrap();
        assert((v * 10 + d) / 10 == v && (v * 10 + d) % 10 == d);
        assert(decimal(value_of(s, 10)) =~= s);
    }
}

/// The digit for the value `d`, in lower case.
pub fn digit(d: u8) -> (r: char)
    requires
        d < 16,
    ensures
        r == digit_char(d as nat),
{
    if d < 10 {
        (0x30u8 + d) as char
    } else {
        (0x61u8 + (d - 10)) as char
    }
}

/// The value of `c` as a digit of the base, in either case.
pub fn digit_of(c: char, base: u8) -> (r: Option<u8>)
    requires
        2 <= base <= 16,
    ensures
        r is Some == digit_value(c, base as nat) is Some,
        r matches Some(d) ==> digit_value(c, base as nat) == Some(d as nat),
{
    let d: u32 = if '0' <= c && c <= '9' {
        c as u32 - '0' as u32
    } else if 'a' <= c && c <= 'z' {
        c as u32 - 'a' as u32 + 10
    } else if 'A' <= c && c <= 'Z' {
        c as u32 - 'A' as u32 + 10
    } else {
        base as u32
    };
    if d < base as u32 {
        Some(d as u8)
    } else {
        None
    }
}

/// The number that up to four digits denote; `None` where one of them is no digit of the base.
pub fn short_value(s: &Vec<char>, base: u8) -> (r: Option<u32>)
    requires
        2 <= base <= 16,
        s.len() <= 4,
    ensures
        r is Some == all_digits(s@, base as nat),
        r matches Some(v) ==> v == value_of(s@, base as nat) && v < 0x10000,
{
    let mut v: u32 = 0;
    let mut i: usize = 0;
    let ghost bounds: Seq<int> = seq![1, 0x10, 0x100, 0x1000, 0x10000];
    while i < s.len()
        invariant
            2 <= base <= 16,
            i <= s.len() <= 4,
            bounds == seq![1int, 0x10, 0x100, 0x1000, 0x10000],
            all_digits(s@.take(i as int), base as nat),
            v == value_of(s@.take(i as int), base as nat),
            v < bounds[i as int],
        decreases s.len() - i,
    {
        proof {
            assert(s@.take(i + 1).drop_last() == s@.take(i as int));
        }
        match digit_of(s[i], base) {
            None => {
                return None;
            },
            Some(d) => {
                proof {
                    assert(0 <= v * base <= v * 16) by (nonlinear_arith)
                        requires
                            0 <= v,
                            0 <= base <= 16,
                    ;
                    assert forall|j: int| 0 <= j < s@.take(i + 1).len() implies digit_value(
                        #[trigger] s@.take(i + 1)[j],
                        base as nat,
                    ) is Some by {
                        if j < i {
                            assert(s@.take(i + 1)[j] == s@.take(i as int)[j]);
                        }
                    }
                    assert(bounds[i + 1] == 16 * bounds[i as int]);
                }
                v = v * base as u32 + d as u32;
            },
        }
        i += 1;
    }
    proof {
        assert(s@.take(s@.len() as int) == s@);
    }
    Some(v)
}

/// Appends the text of `n`.
pub fn push_number(out: &mut String, n: u128, base: u8)
    requires
        2 <= base <= 16,
    ensures
        final(out)@ == old(out)@ + text_of(n as nat, base as nat),
    decreases n,
{
    let ghost before = out@;
    if n < base as u128 {
        out.push(digit(n as u8));
        assert(out@ =~= before + text_of(n as nat, base as nat));
    } else {
        proof {
            lemma_quotient_smaller(n as nat, base as nat);
        }
        push_number(out, n / base as u128, base);
        out.push(digit((n % base as u128) as u8));
        assert(out@ =~= before + text_of(n as nat, base as nat));
    }
}

// Laws

/// A character is a decimal digit exactly where it is one of `0` to `9`, and counts from there; a
/// hexadecimal one also from `a` to `f` in either case.
pub proof fn law_digits(c: char)
    ensures
        '0' <= c && c <= '9' ==> digit_value(c, 10) == Some((c as u32 - '0' as u32) as nat),
        '0' <= c && c <= '9' ==> digit_value(c, 16) == Some((c as u32 - '0' as u32) as nat),
        'a' <= c && c <= 'f' ==> digit_value(c, 16) == Some((c as u32 - 'a' as u32 + 10) as nat),
        'A' <= c && c <= 'F' ==> digit_value(c, 16) == Some((c as u32 - 'A' as u32 + 10) as nat),
        digit_value(c, 10) is Some ==> '0' <= c && c <= '9',
        digit_value(c, 16) is Some ==> ('0' <= c && c <= '9') || ('a' <= c && c <= 'f') || ('A'
            <= c && c <= 'F'),
{
}

/// One more digit makes a number the base times as large and adds the digit.
pub proof fn law_one_more_digit(s: Seq<char>, c: char, base: nat)
    requires
        digit_value(c, base) is Some,
    ensures
        value_of(Seq::<char>::empty(), base) == 0,
        value_of(s.push(c), base) == value_of(s, base) * base + digit_value(c, base).unwrap(),
{
    assert(s.push(c).drop_last() =~= s);
}

/// The decimal text of a number below ten is one digit, and that of ten times a number and a digit
/// is the number's text and the digit.
pub proof fn law_decimal_texts(n: nat, d: nat)
    requires
        d < 10,
    ensures
        decimal(d) == seq![('0' as u32 + d) as char],
        n > 0 ==> decimal(n * 10 + d) == decimal(n).push(('0' as u32 + d) as char),
{
    if n > 0 {
        assert((n * 10 + d) / 10 == n);
        assert((n * 10 + d) % 10 == d);
    }
}

/// The hexadecimal text of a number below sixteen is one digit in lower case, and that of sixteen
/// times a number and a digit is the number's text and the digit.
pub proof fn law_hexadecimal_texts(n: nat, d: nat)
    requires
        d < 16,
    ensures
        d < 10 ==> text_of(d, 16) == seq![('0' as u32 + d) as char],
        d >= 10 ==> text_of(d, 16) == seq![('a' as u32 + (d - 10)) as char],
        n > 0 ==> text_of(n * 16 + d, 16) == text_of(n, 16) + text_of(d, 16),
{
    if n > 0 {
        assert((n * 16 + d) / 16 == n);
        assert((n * 16 + d) % 16 == d);
        assert(text_of(n * 16 + d, 16) =~= text_of(n, 16) + text_of(d, 16));
    }
}

} // verus!

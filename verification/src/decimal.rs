//! Fixed-point decimal text.
//!
//! Lengths are held as whole numbers of millionths of an inch, so that sums
//! and differences of thicknesses are exact. This module reads such a length
//! from decimal text and writes it back in its shortest decimal form.

use vstd::prelude::*;
use vstd::string::*;

verus! {

/// Number of units in one inch.
pub const UNITS_PER_INCH: u64 = 1_000_000;

/// Digits accepted after the decimal point.
pub const FRACTION_DIGITS: usize = 6;

/// Digits accepted before the decimal point.
pub const WHOLE_DIGITS: usize = 9;

/// Ten to the power `n`.
pub open spec fn pow10(n: nat) -> nat
    decreases n,
{
    if n == 0 {
        1
    } else {
        10 * pow10((n - 1) as nat)
    }
}

/// Whether `c` is one of the characters `0` to `9`.
pub open spec fn is_digit(c: char) -> bool {
    48 <= c as nat && c as nat <= 57
}

/// The number that the digit character `c` stands for.
pub open spec fn digit_of(c: char) -> nat {
    (c as nat - 48) as nat
}

/// The digit character for a number below ten.
pub open spec fn digit_char(d: nat) -> char {
    if d == 0 {
        '0'
    } else if d == 1 {
        '1'
    } else if d == 2 {
        '2'
    } else if d == 3 {
        '3'
    } else if d == 4 {
        '4'
    } else if d == 5 {
        '5'
    } else if d == 6 {
        '6'
    } else if d == 7 {
        '7'
    } else if d == 8 {
        '8'
    } else {
        '9'
    }
}

/// Whether every character of `s` is a digit.
pub open spec fn all_digits(s: Seq<char>) -> bool {
    forall|i: int| 0 <= i < s.len() ==> is_digit(#[trigger] s[i])
}

/// The number written by the digit string `s`, most significant digit first.
pub open spec fn digits_value(s: Seq<char>) -> nat
    decreases s.len(),
{
    if s.len() == 0 {
        0
    } else {
        digits_value(s.drop_last()) * 10 + digit_of(s.last())
    }
}

/// Position of the first decimal point of `s`, or its length if it has none.
pub open spec fn point_index(s: Seq<char>) -> int {
    match s.index_of_first('.') {
        Some(k) => k,
        None => s.len() as int,
    }
}

/// What stands before the first decimal point.
pub open spec fn whole_part(s: Seq<char>) -> Seq<char> {
    s.subrange(0, point_index(s))
}

/// What stands after the first decimal point.
pub open spec fn fraction_part(s: Seq<char>) -> Seq<char> {
    if point_index(s) < s.len() {
        s.subrange(point_index(s) + 1, s.len() as int)
    } else {
        Seq::empty()
    }
}

/// The accepted grammar: digits, then optionally a point and more digits,
/// with at least one digit in all, at most nine before the point and at most
/// six after it. No sign, no exponent, no surrounding blanks.
pub open spec fn is_decimal(s: Seq<char>) -> bool {
    &&& all_digits(whole_part(s))
    &&& all_digits(fraction_part(s))
    &&& whole_part(s).len() + fraction_part(s).len() >= 1
    &&& whole_part(s).len() <= 9
    &&& fraction_part(s).len() <= 6
}

/// The length in units that the text `s` denotes, if it is well formed.
pub open spec fn decimal_units(s: Seq<char>) -> Option<nat> {
    if is_decimal(s) {
        Some(
            digits_value(whole_part(s)) * 1_000_000 + digits_value(fraction_part(s)) * pow10(
                (6 - fraction_part(s).len()) as nat,
            ),
        )
    } else {
        None
    }
}

/// The decimal digits of `n`, without leading zeros.
pub open spec fn integer_text(n: nat) -> Seq<char>
    decreases n,
{
    if n < 10 {
        seq![digit_char(n)]
    } else {
        integer_text(n / 10).push(digit_char(n % 10))
    }
}

/// The digits of the fraction `f / 10^width`, without trailing zeros.
pub open spec fn fraction_text(f: nat, width: nat) -> Seq<char>
    decreases width,
{
    if f == 0 || width == 0 {
        Seq::empty()
    } else {
        seq![digit_char(f / pow10((width - 1) as nat))] + fraction_text(
            f % pow10((width - 1) as nat),
            (width - 1) as nat,
        )
    }
}

/// The shortest decimal text of a length: the whole inches, and, where the
/// length is not a whole number of inches, a point and the fraction.
pub open spec fn decimal_text(units: nat) -> Seq<char> {
    if units % 1_000_000 == 0 {
        integer_text(units / 1_000_000)
    } else {
        integer_text(units / 1_000_000) + seq!['.'] + fraction_text(units % 1_000_000, 6)
    }
}

/// The first ten powers of ten, and that they grow.
pub proof fn lemma_pow10_values()
    ensures
        pow10(0) == 1,
        pow10(1) == 10,
        pow10(2) == 100,
        pow10(3) == 1_000,
        pow10(4) == 10_000,
        pow10(5) == 100_000,
        pow10(6) == 1_000_000,
        pow10(7) == 10_000_000,
        pow10(8) == 100_000_000,
        pow10(9) == 1_000_000_000,
        forall|n: nat| n <= 9 ==> 1 <= #[trigger] pow10(n) <= 1_000_000_000,
{
    reveal_with_fuel(pow10, 11);
    assert forall|n: nat| n <= 9 implies 1 <= #[trigger] pow10(n) <= 1_000_000_000 by {
        if n == 0 {
        } else if n == 1 {
        } else if n == 2 {
        } else if n == 3 {
        } else if n == 4 {
        } else if n == 5 {
        } else if n == 6 {
        } else if n == 7 {
        } else if n == 8 {
        } else {
            assert(n == 9);
        }
    }
}

/// Powers of ten multiply by adding their exponents.
pub proof fn lemma_pow10_adds(a: nat, b: nat)
    ensures
        pow10(a) * pow10(b) == pow10(a + b),
        pow10(a) >= 1,
    decreases a,
{
    if a == 0 {
        assert(1 * pow10(b) == pow10(b));
    } else {
        lemma_pow10_adds((a - 1) as nat, b);
        let p = pow10((a - 1) as nat);
        let q = pow10(b);
        assert(pow10(a) == 10 * p);
        assert(pow10(a + b) == 10 * pow10((a - 1 + b) as nat));
        assert((10 * p) * q == 10 * (p * q)) by (nonlinear_arith);
    }
}

/// A digit in front of a digit string adds its value times the power of ten
/// of the string's length.
pub proof fn lemma_digits_value_prepend(c: char, s: Seq<char>)
    ensures
        digits_value(seq![c] + s) == digit_of(c) * pow10(s.len()) + digits_value(s),
    decreases s.len(),
{
    let whole = seq![c] + s;
    if s.len() == 0 {
        assert(whole.drop_last() =~= Seq::<char>::empty());
        assert(whole.last() == c);
        assert(digits_value(whole.drop_last()) == 0);
        assert(digit_of(c) * 1 == digit_of(c));
    } else {
        lemma_digits_value_prepend(c, s.drop_last());
        assert(whole.drop_last() =~= seq![c] + s.drop_last());
        assert(whole.last() == s.last());
        let d = digit_of(c);
        let p = pow10(s.drop_last().len());
        let v = digits_value(s.drop_last());
        assert(pow10(s.len()) == 10 * p);
        assert((d * p + v) * 10 == d * (10 * p) + v * 10) by (nonlinear_arith);
    }
}

/// The digits of a number are digits, at least one, and read back as the
/// number.
pub proof fn lemma_integer_text_reads_back(n: nat)
    ensures
        all_digits(integer_text(n)),
        integer_text(n).len() >= 1,
        digits_value(integer_text(n)) == n,
    decreases n,
{
    let t = integer_text(n);
    if n < 10 {
        assert(t.drop_last() =~= Seq::<char>::empty());
        assert(t.last() == digit_char(n));
        assert(digits_value(t.drop_last()) == 0);
    } else {
        lemma_integer_text_reads_back(n / 10);
        let head = integer_text(n / 10);
        assert(t.drop_last() =~= head);
        assert(t.last() == digit_char(n % 10));
        assert forall|i: int| 0 <= i < t.len() implies is_digit(#[trigger] t[i]) by {
            if i < head.len() {
                assert(t[i] == head[i]);
            }
        }
    }
}

/// A number below the `k`-th power of ten has at most `k` digits.
pub proof fn lemma_integer_text_len(n: nat, k: nat)
    requires
        k >= 1,
        n < pow10(k),
    ensures
        integer_text(n).len() <= k,
    decreases n,
{
    if n >= 10 {
        assert(pow10(k) == 10 * pow10((k - 1) as nat));
        if k == 1 {
            assert(pow10(0) == 1);
        }
        lemma_integer_text_len(n / 10, (k - 1) as nat);
    }
}

/// The digits of a fraction are digits, at least one and at most `width`,
/// and read back as the fraction once the trimmed zeros are counted in.
pub proof fn lemma_fraction_text_reads_back(f: nat, width: nat)
    requires
        0 < f < pow10(width),
    ensures
        all_digits(fraction_text(f, width)),
        1 <= fraction_text(f, width).len() <= width,
        digits_value(fraction_text(f, width)) * pow10(
            (width - fraction_text(f, width).len()) as nat,
        ) == f,
    decreases width,
{
    if width == 0 {
        assert(pow10(0) == 1);
    } else {
        let p = pow10((width - 1) as nat);
        lemma_pow10_adds((width - 1) as nat, 0);
        assert(pow10(width) == 10 * p);
        let d = f / p;
        let r = f % p;
        vstd::arithmetic::div_mod::lemma_fundamental_div_mod(f as int, p as int);
        assert(0 <= r < p) by (nonlinear_arith)
            requires
                r == f % p,
                p > 0,
        ;
        assert(0 <= d < 10) by (nonlinear_arith)
            requires
                d == f / p,
                0 < f < 10 * p,
                p > 0,
        ;
        let c = digit_char(d);
        assert(is_digit(c) && digit_of(c) == d);
        let tail = fraction_text(r, (width - 1) as nat);
        let t = fraction_text(f, width);
        assert(t == seq![c] + tail);
        lemma_digits_value_prepend(c, tail);
        if r == 0 {
            assert(tail =~= Seq::<char>::empty());
            assert(t.len() == 1);
            assert(pow10(0) == 1);
            assert(digits_value(tail) == 0);
            assert(d * 1 == d);
            assert(d * p == p * d) by (nonlinear_arith);
        } else {
            lemma_fraction_text_reads_back(r, (width - 1) as nat);
            let gap = (width - 1 - tail.len()) as nat;
            lemma_pow10_adds(tail.len(), gap);
            let q = pow10(tail.len());
            let g = pow10(gap);
            let v = digits_value(tail);
            assert((d * q + v) * g == d * (q * g) + v * g) by (nonlinear_arith);
            assert(d * p == p * d) by (nonlinear_arith);
            assert((width - t.len()) as nat == gap);
        }
        assert forall|i: int| 0 <= i < t.len() implies is_digit(#[trigger] t[i]) by {
            if i > 0 {
                assert(t[i] == tail[i - 1]);
            }
        }
    }
}

/// The text of a length reads back as that length, for every length that
/// the grammar can hold.
pub proof fn lemma_decimal_text_reads_back(units: nat)
    requires
        units < 1_000_000_000_000_000,
    ensures
        decimal_units(decimal_text(units)) == Some(units),
{
    lemma_pow10_values();
    let whole = units / 1_000_000;
    let f = units % 1_000_000;
    let head = integer_text(whole);
    let text = decimal_text(units);
    lemma_integer_text_reads_back(whole);
    lemma_integer_text_len(whole, 9);
    text.index_of_first_ensures('.');
    if f == 0 {
        assert(text == head);
        assert forall|i: int| 0 <= i < text.len() implies text[i] != '.' by {
            assert(is_digit(text[i]));
        }
        assert(point_index(text) == text.len());
        assert(whole_part(text) =~= head);
        assert(fraction_part(text) =~= Seq::<char>::empty());
        assert(digits_value(fraction_part(text)) == 0);
        assert(0 * pow10(6) == 0);
    } else {
        lemma_fraction_text_reads_back(f, 6);
        let tail = fraction_text(f, 6);
        assert(text == head + seq!['.'] + tail);
        assert(text[head.len() as int] == '.');
        assert forall|i: int| 0 <= i < head.len() implies text[i] != '.' by {
            assert(text[i] == head[i]);
            assert(is_digit(head[i]));
        }
        assert(point_index(text) == head.len());
        assert(whole_part(text) =~= head);
        assert(fraction_part(text) =~= tail);
    }
}

/// The value of a digit character, or `None` for any other character.
pub fn digit_value(c: char) -> (r: Option<u64>)
    ensures
        match r {
            Some(d) => is_digit(c) && d == digit_of(c),
            None => !is_digit(c),
        },
{
    if c == '0' {
        Some(0)
    } else if c == '1' {
        Some(1)
    } else if c == '2' {
        Some(2)
    } else if c == '3' {
        Some(3)
    } else if c == '4' {
        Some(4)
    } else if c == '5' {
        Some(5)
    } else if c == '6' {
        Some(6)
    } else if c == '7' {
        Some(7)
    } else if c == '8' {
        Some(8)
    } else if c == '9' {
        Some(9)
    } else {
        None
    }
}

/// Reads the characters of `text` from `from` up to `to` as one number.
fn scan_digits(text: &str, from: usize, to: usize) -> (r: Option<u64>)
    requires
        from <= to <= text@.len(),
        to - from <= 9,
    ensures
        match r {
            Some(v) => {
                &&& all_digits(text@.subrange(from as int, to as int))
                &&& v == digits_value(text@.subrange(from as int, to as int))
                &&& v < pow10((to - from) as nat)
            },
            None => !all_digits(text@.subrange(from as int, to as int)),
        },
{
    let mut acc: u64 = 0;
    let mut i: usize = from;
    proof {
        lemma_pow10_values();
    }
    while i < to
        invariant
            from <= i <= to <= text@.len(),
            to - from <= 9,
            all_digits(text@.subrange(from as int, i as int)),
            acc == digits_value(text@.subrange(from as int, i as int)),
            acc < pow10((i - from) as nat),
            forall|n: nat| n <= 9 ==> 1 <= #[trigger] pow10(n) <= 1_000_000_000,
        decreases to - i,
    {
        let c: char = text.get_char(i);
        let ghost done = text@.subrange(from as int, i as int);
        let ghost next = text@.subrange(from as int, i + 1);
        match digit_value(c) {
            Some(d) => {
                proof {
                    assert(next.drop_last() =~= done);
                    assert(next.last() == c);
                    assert(pow10((i + 1 - from) as nat) == 10 * pow10((i - from) as nat));
                    assert forall|j: int| 0 <= j < next.len() implies is_digit(#[trigger] next[j]) by {
                        if j < done.len() {
                            assert(next[j] == done[j]);
                        }
                    }
                }
                acc = acc * 10 + d;
                i += 1;
            },
            None => {
                proof {
                    let whole = text@.subrange(from as int, to as int);
                    assert(whole[i - from] == c);
                }
                return None;
            },
        }
    }
    Some(acc)
}

/// Reads a length from decimal text.
///
/// Returns the length in units where the text is well formed, and `None`
/// for every other text: the empty text, a sign, an exponent, a second
/// point, more digits than the grammar holds.
pub fn parse_decimal(text: &str) -> (r: Option<u64>)
    ensures
        match r {
            Some(v) => decimal_units(text@) == Some(v as nat),
            None => decimal_units(text@) is None,
        },
{
    let n: usize = text.unicode_len();
    let mut k: usize = 0;
    while k < n && text.get_char(k) != '.'
        invariant
            k <= n,
            n == text@.len(),
            forall|j: int| 0 <= j < k ==> text@[j] != '.',
        decreases n - k,
    {
        k += 1;
    }
    proof {
        text@.index_of_first_ensures('.');
        if k < n {
            assert(text@[k as int] == '.');
            assert(text@.contains('.'));
        }
        assert(point_index(text@) == k);
    }
    let fraction_from: usize = if k < n {
        k + 1
    } else {
        n
    };
    let fraction_len: usize = n - fraction_from;
    if k > WHOLE_DIGITS || fraction_len > FRACTION_DIGITS || k + fraction_len == 0 {
        return None;
    }
    proof {
        assert(whole_part(text@) == text@.subrange(0, k as int));
        assert(fraction_part(text@) =~= text@.subrange(fraction_from as int, n as int));
        lemma_pow10_values();
    }
    let whole: u64 = match scan_digits(text, 0, k) {
        Some(v) => v,
        None => {
            return None;
        },
    };
    let fraction: u64 = match scan_digits(text, fraction_from, n) {
        Some(v) => v,
        None => {
            return None;
        },
    };
    let mut scaled: u64 = fraction;
    let mut j: usize = fraction_len;
    assert(scaled == fraction * pow10(0)) by (nonlinear_arith)
        requires
            scaled == fraction,
            pow10(0) == 1,
    ;
    while j < FRACTION_DIGITS
        invariant
            fraction_len <= j <= 6,
            scaled == fraction * pow10((j - fraction_len) as nat),
            scaled < pow10(j as nat),
            forall|n: nat| n <= 9 ==> 1 <= #[trigger] pow10(n) <= 1_000_000_000,
        decreases 6 - j,
    {
        proof {
            let p = pow10((j - fraction_len) as nat);
            assert(pow10((j + 1 - fraction_len) as nat) == 10 * p);
            assert(pow10((j + 1) as nat) == 10 * pow10(j as nat));
            assert(fraction * (10 * p) == (fraction * p) * 10) by (nonlinear_arith);
        }
        scaled = scaled * 10;
        j += 1;
    }
    Some(whole * UNITS_PER_INCH + scaled)
}

/// The one-character text of a digit.
fn digit_str(d: u64) -> (r: &'static str)
    requires
        d < 10,
    ensures
        r@ == seq![digit_char(d as nat)],
{
    proof {
        reveal_strlit("0");
        reveal_strlit("1");
        reveal_strlit("2");
        reveal_strlit("3");
        reveal_strlit("4");
        reveal_strlit("5");
        reveal_strlit("6");
        reveal_strlit("7");
        reveal_strlit("8");
        reveal_strlit("9");
    }
    let r: &'static str = if d == 0 {
        "0"
    } else if d == 1 {
        "1"
    } else if d == 2 {
        "2"
    } else if d == 3 {
        "3"
    } else if d == 4 {
        "4"
    } else if d == 5 {
        "5"
    } else if d == 6 {
        "6"
    } else if d == 7 {
        "7"
    } else if d == 8 {
        "8"
    } else {
        "9"
    };
    assert(r@ =~= seq![digit_char(d as nat)]);
    r
}

/// Appends the decimal digits of `n` to `out`.
pub fn push_integer(out: &mut String, n: u64)
    ensures
        final(out)@ == old(out)@ + integer_text(n as nat),
    decreases n,
{
    if n >= 10 {
        push_integer(out, n / 10);
    }
    let ghost before = out@;
    out.append(digit_str(n % 10));
    proof {
        if n >= 10 {
            assert(out@ =~= old(out)@ + integer_text((n / 10) as nat).push(
                digit_char((n % 10) as nat),
            ));
        } else {
            assert(out@ =~= old(out)@ + seq![digit_char(n as nat)]);
        }
    }
}

/// Appends the shortest decimal text of a length to `out`.
pub fn push_decimal(out: &mut String, units: u64)
    ensures
        final(out)@ == old(out)@ + decimal_text(units as nat),
{
    push_integer(out, units / UNITS_PER_INCH);
    let mut f: u64 = units % UNITS_PER_INCH;
    if f != 0 {
        out.append(".");
        proof {
            reveal_strlit(".");
            assert("."@ =~= seq!['.']);
            lemma_pow10_values();
        }
        let ghost head = out@;
        let ghost f0 = f as nat;
        let mut width: usize = 6;
        let mut unit: u64 = 100_000;
        while f != 0 && width > 0
            invariant
                width <= 6,
                f < pow10(width as nat),
                width > 0 ==> unit == pow10((width - 1) as nat),
                out@ + fraction_text(f as nat, width as nat) == head + fraction_text(f0, 6),
                forall|n: nat| n <= 9 ==> 1 <= #[trigger] pow10(n) <= 1_000_000_000,
            decreases width,
        {
            let digit: u64 = f / unit;
            let rest: u64 = f % unit;
            proof {
                assert(pow10(width as nat) == 10 * pow10((width - 1) as nat));
                assert(digit < 10) by (nonlinear_arith)
                    requires
                        digit == f / unit,
                        f < 10 * unit,
                        unit > 0,
                ;
                if width > 1 {
                    assert(pow10((width - 1) as nat) == 10 * pow10((width - 2) as nat));
                }
            }
            let ghost shown = out@;
            out.append(digit_str(digit));
            proof {
                assert(out@ + fraction_text(rest as nat, (width - 1) as nat) =~= shown
                    + fraction_text(f as nat, width as nat));
            }
            f = rest;
            width -= 1;
            if width > 0 {
                unit = unit / 10;
            }
        }
        proof {
            assert(fraction_text(f as nat, width as nat) =~= Seq::<char>::empty());
            assert(out@ =~= old(out)@ + decimal_text(units as nat));
        }
    }
}

/// The shortest decimal text of a length.
pub fn format_decimal(units: u64) -> (r: String)
    ensures
        r@ == decimal_text(units as nat),
{
    let mut out: String = String::new();
    push_decimal(&mut out, units);
    assert(out@ =~= decimal_text(units as nat));
    out
}

} // verus!

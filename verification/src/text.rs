//! Decimal text: rendering unsigned integers as ASCII digit runs (variable
//! width and zero-padded fixed width), the value of a digit run, and a parser
//! over character sequences, with the lemmas that make rendering and parsing
//! inverse to each other.

use vstd::prelude::*;

verus! {

/// The character of one decimal digit.
pub open spec fn spec_digit_char(d: int) -> char {
    if d == 0 {
        '0'
    } else if d == 1 {
        '1'
    } else if d == 2 {
        '2'
    } else if d == 3 {
        '3'
    } else if d == 4 {
        '4'
    } else if d == 5 {
        '5'
    } else if d == 6 {
        '6'
    } else if d == 7 {
        '7'
    } else if d == 8 {
        '8'
    } else {
        '9'
    }
}

/// The value of one digit character, or -1 for any other character.
pub open spec fn spec_char_digit(c: char) -> int {
    if c == '0' {
        0
    } else if c == '1' {
        1
    } else if c == '2' {
        2
    } else if c == '3' {
        3
    } else if c == '4' {
        4
    } else if c == '5' {
        5
    } else if c == '6' {
        6
    } else if c == '7' {
        7
    } else if c == '8' {
        8
    } else if c == '9' {
        9
    } else {
        -1
    }
}

/// Whether a character is a decimal digit.
pub open spec fn is_digit_char(c: char) -> bool {
    spec_char_digit(c) >= 0
}

/// Ten to the given power.
pub open spec fn pow10(e: nat) -> int
    decreases e,
{
    if e == 0 {
        1
    } else {
        10 * pow10((e - 1) as nat)
    }
}

/// The decimal digits of a nonnegative number, most significant first,
/// without leading zeros.
pub open spec fn spec_dec(n: int) -> Seq<char>
    decreases n,
{
    if n < 10 {
        seq![spec_digit_char(n)]
    } else {
        spec_dec(n / 10).push(spec_digit_char(n % 10))
    }
}

/// A nonnegative number rendered to exactly `w` digits, zero padded.
pub open spec fn spec_dec_fixed(n: int, w: nat) -> Seq<char>
    decreases w,
{
    if w == 0 {
        Seq::empty()
    } else {
        spec_dec_fixed(n / 10, (w - 1) as nat).push(spec_digit_char(n % 10))
    }
}

/// Every character of the sequence is a decimal digit.
pub open spec fn all_digits(s: Seq<char>) -> bool {
    forall|i: int| 0 <= i < s.len() ==> is_digit_char(#[trigger] s[i])
}

/// The numeric value of a run of digit characters, most significant first.
pub open spec fn digits_value(s: Seq<char>) -> int
    decreases s.len(),
{
    if s.len() == 0 {
        0
    } else {
        spec_char_digit(s.first()) * pow10((s.len() - 1) as nat) + digits_value(s.drop_first())
    }
}

/// Reads a run of digit characters starting at `i`, returning the accumulated
/// value and the index just past the run.
pub open spec fn spec_parse_digits(s: Seq<char>, i: int, acc: int) -> (int, int)
    decreases s.len() - i,
{
    if 0 <= i < s.len() && is_digit_char(s[i]) {
        spec_parse_digits(s, i + 1, acc * 10 + spec_char_digit(s[i]))
    } else {
        (acc, i)
    }
}

/// Powers of ten are positive.
pub proof fn lemma_pow10_pos(e: nat)
    ensures
        pow10(e) >= 1,
    decreases e,
{
    if e > 0 {
        lemma_pow10_pos((e - 1) as nat);
    }
}

/// Appending one digit multiplies the run's value by ten and adds the digit.
pub proof fn lemma_digits_value_push(s: Seq<char>, c: char)
    ensures
        digits_value(s.push(c)) == digits_value(s) * 10 + spec_char_digit(c),
    decreases s.len(),
{
    if s.len() == 0 {
        assert(s.push(c).len() == 1);
        assert(s.push(c).first() == c);
        assert(s.push(c).drop_first() =~= Seq::<char>::empty());
        assert(pow10(0) == 1);
        assert(digits_value(Seq::<char>::empty()) == 0);
        assert(digits_value(s.push(c)) == spec_char_digit(c) * 1 + 0);
        assert(spec_char_digit(c) * 1 == spec_char_digit(c)) by (nonlinear_arith);
    } else {
        assert(s.push(c).drop_first() =~= s.drop_first().push(c));
        lemma_digits_value_push(s.drop_first(), c);
        let d0 = spec_char_digit(s.first());
        let l = (s.len() - 1) as nat;
        assert(d0 * pow10((l + 1) as nat) == (d0 * pow10(l)) * 10) by (nonlinear_arith)
            requires
                pow10((l + 1) as nat) == 10 * pow10(l),
        ;
        assert((d0 * pow10(l) + digits_value(s.drop_first())) * 10 == (d0 * pow10(l)) * 10
            + digits_value(s.drop_first()) * 10) by (nonlinear_arith);
    }
}

/// A variable-width rendering is all digits, nonempty, and reads back as the
/// number it renders.
pub proof fn lemma_dec_value(n: int)
    requires
        n >= 0,
    ensures
        spec_dec(n).len() >= 1,
        all_digits(spec_dec(n)),
        digits_value(spec_dec(n)) == n,
    decreases n,
{
    if n < 10 {
        assert(spec_dec(n) =~= Seq::<char>::empty().push(spec_digit_char(n)));
        lemma_digits_value_push(Seq::<char>::empty(), spec_digit_char(n));
    } else {
        lemma_dec_value(n / 10);
        lemma_digits_value_push(spec_dec(n / 10), spec_digit_char(n % 10));
    }
}

/// A fixed-width rendering has that width, is all digits, and reads back as
/// the number it renders, provided the number fits the width.
pub proof fn lemma_dec_fixed_value(n: int, w: nat)
    requires
        0 <= n < pow10(w),
    ensures
        spec_dec_fixed(n, w).len() == w,
        all_digits(spec_dec_fixed(n, w)),
        digits_value(spec_dec_fixed(n, w)) == n,
    decreases w,
{
    if w == 0 {
    } else {
        assert(n / 10 < pow10((w - 1) as nat)) by (nonlinear_arith)
            requires
                0 <= n < pow10(w),
                pow10(w) == 10 * pow10((w - 1) as nat),
        ;
        lemma_dec_fixed_value(n / 10, (w - 1) as nat);
        lemma_digits_value_push(spec_dec_fixed(n / 10, (w - 1) as nat), spec_digit_char(n % 10));
    }
}

/// Parsing from the start of an embedded digit run consumes exactly the run
/// and accumulates its value, provided no digit follows it.
pub proof fn lemma_parse_digit_run(s: Seq<char>, i: int, digits: Seq<char>, acc: int)
    requires
        all_digits(digits),
        0 <= i,
        i + digits.len() <= s.len(),
        s.subrange(i, i + digits.len()) == digits,
        i + digits.len() == s.len() || !is_digit_char(s[i + digits.len()]),
    ensures
        spec_parse_digits(s, i, acc) == (acc * pow10(digits.len()) + digits_value(digits), i
            + digits.len()),
    decreases digits.len(),
{
    if digits.len() == 0 {
        if i < s.len() {
            assert(!is_digit_char(s[i]));
        }
    } else {
        let d0 = digits.first();
        assert(s[i] == digits[0]);
        assert(is_digit_char(s[i]));
        assert(s.subrange(i + 1, i + 1 + digits.drop_first().len()) =~= digits.drop_first());
        lemma_parse_digit_run(s, i + 1, digits.drop_first(), acc * 10 + spec_char_digit(d0));
        let l = (digits.len() - 1) as nat;
        lemma_pow10_pos(l);
        assert((acc * 10 + spec_char_digit(d0)) * pow10(l) == acc * (10 * pow10(l))
            + spec_char_digit(d0) * pow10(l)) by (nonlinear_arith);
    }
}

/// Bounds on a parsed digit run: the position advances at most to the end,
/// and the value lies in the decade the accumulator opens.
pub proof fn lemma_parse_digits_range(s: Seq<char>, i: int, acc: int)
    requires
        acc >= 0,
        0 <= i <= s.len(),
    ensures
        ({
            let (v, j) = spec_parse_digits(s, i, acc);
            &&& i <= j <= s.len()
            &&& acc * pow10((j - i) as nat) <= v < (acc + 1) * pow10((j - i) as nat)
        }),
    decreases s.len() - i,
{
    if 0 <= i < s.len() && is_digit_char(s[i]) {
        let d = spec_char_digit(s[i]);
        lemma_parse_digits_range(s, i + 1, acc * 10 + d);
        let (v, j) = spec_parse_digits(s, i, acc);
        let l = (j - i - 1) as nat;
        lemma_pow10_pos(l);
        assert(pow10((j - i) as nat) == 10 * pow10(l));
        assert(acc * (10 * pow10(l)) <= (acc * 10 + d) * pow10(l)) by (nonlinear_arith)
            requires
                acc >= 0,
                d >= 0,
                pow10(l) >= 1,
        ;
        assert((acc * 10 + d + 1) * pow10(l) <= (acc + 1) * (10 * pow10(l))) by (nonlinear_arith)
            requires
                d <= 9,
                pow10(l) >= 1,
        ;
    } else {
        let (v, j) = spec_parse_digits(s, i, acc);
        lemma_pow10_pos(0);
        assert(acc * 1 == acc) by (nonlinear_arith);
        assert((acc + 1) * 1 == acc + 1) by (nonlinear_arith);
    }
}

/// Appends the character of one digit.
pub fn push_digit(s: &mut String, d: u8)
    requires
        d < 10,
    ensures
        final(s)@ == old(s)@.push(spec_digit_char(d as int)),
{
    let t: &str = match d {
        0 => "0",
        1 => "1",
        2 => "2",
        3 => "3",
        4 => "4",
        5 => "5",
        6 => "6",
        7 => "7",
        8 => "8",
        _ => "9",
    };
    proof {
        reveal_strlit("0");
        reveal_strlit("1");
        reveal_strlit("2");
        reveal_strlit("3");
        reveal_strlit("4");
        reveal_strlit("5");
        reveal_strlit("6");
        reveal_strlit("7");
        reveal_strlit("8");
        reveal_strlit("9");
        assert(t@ =~= seq![spec_digit_char(d as int)]);
    }
    s.append(t);
    proof {
        assert(old(s)@ + seq![spec_digit_char(d as int)] =~= old(s)@.push(
            spec_digit_char(d as int),
        ));
    }
}

/// Appends the decimal digits of a number, most significant first.
pub fn append_dec_u64(s: &mut String, n: u64)
    ensures
        final(s)@ == old(s)@ + spec_dec(n as int),
    decreases n,
{
    if n >= 10 {
        append_dec_u64(s, n / 10);
    }
    push_digit(s, (n % 10) as u8);
    proof {
        if n >= 10 {
            assert((old(s)@ + spec_dec(n as int / 10)).push(spec_digit_char(n as int % 10))
                =~= old(s)@ + spec_dec(n as int));
        } else {
            assert(old(s)@.push(spec_digit_char(n as int)) =~= old(s)@ + spec_dec(n as int));
        }
    }
}

/// Appends exactly `w` digits of a number, zero padded on the left.
pub fn append_dec_fixed_u64(s: &mut String, n: u64, w: u64)
    ensures
        final(s)@ == old(s)@ + spec_dec_fixed(n as int, w as nat),
    decreases w,
{
    if w == 0 {
        proof {
            assert(old(s)@ + spec_dec_fixed(n as int, 0) =~= old(s)@);
        }
        return ;
    }
    append_dec_fixed_u64(s, n / 10, w - 1);
    push_digit(s, (n % 10) as u8);
    proof {
        assert((old(s)@ + spec_dec_fixed(n as int / 10, (w - 1) as nat)).push(
            spec_digit_char(n as int % 10),
        ) =~= old(s)@ + spec_dec_fixed(n as int, w as nat));
    }
}

} // verus!

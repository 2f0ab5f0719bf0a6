use vstd::prelude::*;
use vstd::string::StringExecFns;

verus! {

/// The character that stands for a digit below sixteen.
pub open spec fn digit_char(d: int) -> char {
    if d == 0 {
        '0'
    } else if d == 1 {
        '1'
    } else if d == 2 {
        '2'
    } else if d == 3 {
        '3'
    } else if d == 4 {
        '4'
    } else if d == 5 {
        '5'
    } else if d == 6 {
        '6'
    } else if d == 7 {
        '7'
    } else if d == 8 {
        '8'
    } else if d == 9 {
        '9'
    } else if d == 10 {
        'a'
    } else if d == 11 {
        'b'
    } else if d == 12 {
        'c'
    } else if d == 13 {
        'd'
    } else if d == 14 {
        'e'
    } else {
        'f'
    }
}

/// The digits of `n` to the given base, the most significant first, with no
/// leading zero; zero is the one digit `0`.
pub open spec fn digits(n: nat, base: nat) -> Seq<char>
    recommends
        2 <= base <= 16,
    decreases n,
{
    if base < 2 || n < base {
        seq![digit_char(n as int)]
    } else {
        proof {
            assert(n / base < n) by (nonlinear_arith)
                requires
                    2 <= base <= n,
            ;
        }
        digits(n / base, base).push(digit_char((n % base) as int))
    }
}

/// A number as it is written in decimal.
pub open spec fn decimal(n: nat) -> Seq<char> {
    digits(n, 10)
}

/// A number as it is written in hexadecimal, in lower case.
pub open spec fn hexadecimal(n: nat) -> Seq<char> {
    digits(n, 16)
}

/// The text of one digit.
fn digit_str(d: usize) -> (s: &'static str)
    requires
        d < 16,
    ensures
        s@ == seq![digit_char(d as int)],
{
    proof {
        reveal_strlit("0");
        reveal_strlit("1");
        reveal_strlit("2");
        reveal_strlit("3");
        reveal_strlit("4");
        reveal_strlit("5");
        reveal_strlit("6");
        reveal_strlit("7");
        reveal_strlit("8");
        reveal_strlit("9");
        reveal_strlit("a");
        reveal_strlit("b");
        reveal_strlit("c");
        reveal_strlit("d");
        reveal_strlit("e");
        reveal_strlit("f");
    }
    let s = match d {
        0 => "0",
        1 => "1",
        2 => "2",
        3 => "3",
        4 => "4",
        5 => "5",
        6 => "6",
        7 => "7",
        8 => "8",
        9 => "9",
        10 => "a",
        11 => "b",
        12 => "c",
        13 => "d",
        14 => "e",
        _ => "f",
    };
    assert(s@ =~= seq![digit_char(d as int)]);
    s
}

/// Writes `n` to the given base at the end of `text`.
pub fn push_digits(text: &mut String, n: usize, base: usize)
    requires
        2 <= base <= 16,
    ensures
        final(text)@ == old(text)@ + digits(n as nat, base as nat),
    decreases n,
{
    if n < base {
        text.append(digit_str(n));
    } else {
        assert(n / base < n) by (nonlinear_arith)
            requires
                2 <= base <= n,
        ;
        push_digits(text, n / base, base);
        text.append(digit_str(n % base));
    }
    assert(text@ =~= old(text)@ + digits(n as nat, base as nat));
}

/// The digit that a character stands for; zero for any other character.
pub open spec fn digit_value(c: char) -> int {
    if c == '1' {
        1
    } else if c == '2' {
        2
    } else if c == '3' {
        3
    } else if c == '4' {
        4
    } else if c == '5' {
        5
    } else if c == '6' {
        6
    } else if c == '7' {
        7
    } else if c == '8' {
        8
    } else if c == '9' {
        9
    } else if c == 'a' {
        10
    } else if c == 'b' {
        11
    } else if c == 'c' {
        12
    } else if c == 'd' {
        13
    } else if c == 'e' {
        14
    } else if c == 'f' {
        15
    } else {
        0
    }
}

/// The number that digits to the given base stand for, the most significant
/// first.
pub open spec fn number(digits: Seq<char>, base: nat) -> int
    decreases digits.len(),
{
    if digits.len() == 0 {
        0
    } else {
        number(digits.drop_last(), base) * base + digit_value(digits.last())
    }
}

/// The digits of a number stand for that number.
pub proof fn lemma_number_of_digits(n: nat, base: nat)
    requires
        2 <= base <= 16,
    ensures
        number(digits(n, base), base) == n,
    decreases n,
{
    if n < base {
        let ds = seq![digit_char(n as int)];
        assert(ds.drop_last() =~= Seq::<char>::empty());
        assert(number(ds.drop_last(), base) == 0);
        assert(ds.last() == digit_char(n as int));
    } else {
        assert(n / base < n) by (nonlinear_arith)
            requires
                2 <= base <= n,
        ;
        lemma_number_of_digits(n / base, base);
        let ds = digits(n, base);
        assert(ds.drop_last() =~= digits(n / base, base));
        assert(ds.last() == digit_char((n % base) as int));
        assert(0 <= n % base < base) by (nonlinear_arith)
            requires
                2 <= base,
        ;
        assert((n / base) * base + n % base == n) by (nonlinear_arith)
            requires
                2 <= base,
        ;
    }
}

/// Two numbers with the same digits are the same number.
pub proof fn lemma_digits_tell_apart(n: nat, m: nat, base: nat)
    requires
        2 <= base <= 16,
        digits(n, base) == digits(m, base),
    ensures
        n == m,
{
    lemma_number_of_digits(n, base);
    lemma_number_of_digits(m, base);
}

} // verus!

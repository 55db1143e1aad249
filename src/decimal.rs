//! Decimal text of small integers: the spelling shared by dotted-quad
//! addresses and reverse-lookup names.
use vstd::prelude::*;

verus! {

/// Whether `c` is an ASCII decimal digit.
pub open spec fn is_digit(c: char) -> bool {
    c == '0' || c == '1' || c == '2' || c == '3' || c == '4' || c == '5' || c == '6' || c == '7'
        || c == '8' || c == '9'
}

/// The value of the digit `c`.
pub open spec fn digit_value(c: char) -> nat {
    if c == '1' {
        1
    } else if c == '2' {
        2
    } else if c == '3' {
        3
    } else if c == '4' {
        4
    } else if c == '5' {
        5
    } else if c == '6' {
        6
    } else if c == '7' {
        7
    } else if c == '8' {
        8
    } else if c == '9' {
        9
    } else {
        0
    }
}

/// The digit that spells `d` (for `d < 10`).
pub open spec fn digit_char(d: nat) -> char {
    if d == 1 {
        '1'
    } else if d == 2 {
        '2'
    } else if d == 3 {
        '3'
    } else if d == 4 {
        '4'
    } else if d == 5 {
        '5'
    } else if d == 6 {
        '6'
    } else if d == 7 {
        '7'
    } else if d == 8 {
        '8'
    } else if d == 9 {
        '9'
    } else {
        '0'
    }
}

/// The shortest decimal spelling of `n`: no leading zero, `"0"` for zero.
pub open spec fn dec(n: nat) -> Seq<char>
    decreases n,
{
    if n < 10 {
        seq![digit_char(n)]
    } else {
        dec(n / 10).push(digit_char(n % 10))
    }
}

/// The value of a sequence of digits, most significant first.
pub open spec fn digits_value(t: Seq<char>) -> nat
    decreases t.len(),
{
    if t.len() == 0 {
        0
    } else {
        digits_value(t.drop_last()) * 10 + digit_value(t.last())
    }
}

pub open spec fn all_digits(t: Seq<char>) -> bool {
    forall|i: int| 0 <= i < t.len() ==> #[trigger] is_digit(t[i])
}

/// Basic shape of `dec(n)`: non-empty digits, one digit exactly below ten,
/// no leading zero, at most three digits below a thousand.
pub proof fn lemma_dec_shape(n: nat)
    ensures
        dec(n).len() >= 1,
        all_digits(dec(n)),
        (dec(n).len() == 1) == (n < 10),
        n >= 10 ==> dec(n)[0] != '0',
        n < 100 ==> dec(n).len() <= 2,
        n < 1000 ==> dec(n).len() <= 3,
        !dec(n).contains('.'),
    decreases n,
{
    if n >= 10 {
        lemma_dec_shape(n / 10);
        let p = dec(n / 10);
        assert(dec(n) == p.push(digit_char(n % 10)));
        assert(n < 1000 ==> n / 10 < 100);
        assert(n < 100 ==> n / 10 < 10);
        assert forall|i: int| 0 <= i < dec(n).len() implies #[trigger] is_digit(dec(n)[i]) by {
            if i < p.len() {
                assert(dec(n)[i] == p[i]);
            }
        }
        if n / 10 >= 10 {
            assert(dec(n)[0] == p[0]);
        } else {
            assert(dec(n)[0] == digit_char(n / 10));
        }
        if dec(n).contains('.') {
            let k = choose|k: int| 0 <= k < dec(n).len() && dec(n)[k] == '.';
            assert(is_digit(dec(n)[k]));
        }
    } else {
        if dec(n).contains('.') {
            let k = choose|k: int| 0 <= k < dec(n).len() && dec(n)[k] == '.';
            assert(is_digit(dec(n)[k]));
        }
    }
}

/// Reading the spelling of `n` gives `n` back.
pub proof fn lemma_value_of_dec(n: nat)
    ensures
        digits_value(dec(n)) == n,
    decreases n,
{
    if n >= 10 {
        lemma_value_of_dec(n / 10);
        let t = dec(n);
        assert(n % 10 < 10);
        assert(t.drop_last() == dec(n / 10));
        assert(t.last() == digit_char(n % 10));
        assert(digit_value(digit_char(n % 10)) == n % 10);
        assert(n == (n / 10) * 10 + n % 10);
    } else {
        let t = dec(n);
        assert(t.drop_last() =~= Seq::<char>::empty());
        assert(digits_value(t.drop_last()) == 0);
        assert(t.last() == digit_char(n));
    }
}

/// A non-empty digit sequence without a leading zero is the spelling of its
/// value.
pub proof fn lemma_dec_of_value(t: Seq<char>)
    requires
        t.len() >= 1,
        all_digits(t),
        t.len() > 1 ==> t[0] != '0',
    ensures
        dec(digits_value(t)) == t,
    decreases t.len(),
{
    let p = t.drop_last();
    let d = digit_value(t.last());
    assert(is_digit(t[t.len() - 1]));
    if t.len() == 1 {
        assert(p =~= Seq::<char>::empty());
        assert(digits_value(p) == 0);
        assert(digits_value(t) == d);
        assert(digit_char(d) == t[0]);
        assert(dec(d) =~= t);
    } else {
        assert(all_digits(p)) by {
            assert forall|i: int| 0 <= i < p.len() implies #[trigger] is_digit(p[i]) by {
                assert(is_digit(t[i]));
            }
        }
        assert(p[0] == t[0]);
        lemma_dec_of_value(p);
        lemma_value_positive(p);
        let v = digits_value(t);
        assert(v == digits_value(p) * 10 + d);
        assert(v / 10 == digits_value(p) && v % 10 == d) by (nonlinear_arith)
            requires
                v == digits_value(p) * 10 + d,
                d < 10,
        ;
        assert(dec(v) == dec(v / 10).push(digit_char(v % 10)));
        assert(dec(v) =~= t);
    }
}

proof fn lemma_value_positive(t: Seq<char>)
    requires
        t.len() >= 1,
        all_digits(t),
        t[0] != '0',
    ensures
        digits_value(t) >= 1,
    decreases t.len(),
{
    assert(is_digit(t[0]));
    if t.len() > 1 {
        let p = t.drop_last();
        assert(all_digits(p)) by {
            assert forall|i: int| 0 <= i < p.len() implies #[trigger] is_digit(p[i]) by {
                assert(is_digit(t[i]));
            }
        }
        assert(p[0] == t[0]);
        lemma_value_positive(p);
    }
}

/// The spelling determines the number.
pub proof fn lemma_dec_injective(n: nat, m: nat)
    requires
        dec(n) == dec(m),
    ensures
        n == m,
{
    lemma_value_of_dec(n);
    lemma_value_of_dec(m);
}

/// The digit `c` as a number, if it is one.
pub fn digit_of(c: char) -> (r: Option<u8>)
    ensures
        r == (if is_digit(c) {
            Some(digit_value(c) as u8)
        } else {
            None::<u8>
        }),
        r matches Some(d) ==> d < 10,
{
    match c {
        '0' => Some(0),
        '1' => Some(1),
        '2' => Some(2),
        '3' => Some(3),
        '4' => Some(4),
        '5' => Some(5),
        '6' => Some(6),
        '7' => Some(7),
        '8' => Some(8),
        '9' => Some(9),
        _ => None,
    }
}

fn digit_char_exec(d: u8) -> (c: char)
    requires
        d < 10,
    ensures
        c == digit_char(d as nat),
{
    match d {
        0 => '0',
        1 => '1',
        2 => '2',
        3 => '3',
        4 => '4',
        5 => '5',
        6 => '6',
        7 => '7',
        8 => '8',
        _ => '9',
    }
}

/// Relies on String::push: the character is appended at the end.
pub assume_specification[ String::push ](s: &mut String, c: char)
    ensures
        final(s)@ == old(s)@.push(c),
;

/// Appends the decimal spelling of `n`.
pub fn push_decimal(s: &mut String, n: u8)
    ensures
        final(s)@ == old(s)@ + dec(n as nat),
{
    let ghost start = s@;
    if n >= 100 {
        s.push(digit_char_exec(n / 100));
        s.push(digit_char_exec((n / 10) % 10));
        s.push(digit_char_exec(n % 10));
        let ghost m = n as nat;
        assert(m / 10 / 10 == m / 100);
        assert(m / 10 >= 10);
        assert(dec(m / 100) == seq![digit_char(m / 100)]);
        assert(dec(m / 10) == dec(m / 100).push(digit_char((m / 10) % 10)));
        assert(dec(m) == dec(m / 10).push(digit_char(m % 10)));
    } else if n >= 10 {
        s.push(digit_char_exec(n / 10));
        s.push(digit_char_exec(n % 10));
        let ghost m = n as nat;
        assert(dec(m / 10) == seq![digit_char(m / 10)]);
        assert(dec(m) == dec(m / 10).push(digit_char(m % 10)));
    } else {
        s.push(digit_char_exec(n));
    }
    assert(s@ =~= start + dec(n as nat));
}

} // verus!

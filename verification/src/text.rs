//! Characters, decimal digits, and conversions between `String` and
//! `Vec<char>` used throughout the crate.

use vstd::prelude::*;

verus! {

/// True of the ten ASCII decimal digit characters.
pub open spec fn is_digit(c: char) -> bool {
    48 <= c as u32 && c as u32 <= 57
}

/// Numeric value of one decimal digit character.
pub open spec fn digit_val(c: char) -> nat
    recommends
        is_digit(c),
{
    (c as u32 - 48) as nat
}

/// The digit character for a value below ten.
pub open spec fn digit_char(d: nat) -> char
    recommends
        d < 10,
{
    if d == 0 {
        '0'
    } else if d == 1 {
        '1'
    } else if d == 2 {
        '2'
    } else if d == 3 {
        '3'
    } else if d == 4 {
        '4'
    } else if d == 5 {
        '5'
    } else if d == 6 {
        '6'
    } else if d == 7 {
        '7'
    } else if d == 8 {
        '8'
    } else {
        '9'
    }
}

/// Numeric value of a digit sequence read most significant first.
pub open spec fn digits_val(s: Seq<char>) -> nat
    decreases s.len(),
{
    if s.len() == 0 {
        0
    } else {
        digits_val(s.drop_last()) * 10 + digit_val(s.last())
    }
}

/// The decimal digit characters of `n`, most significant first, no sign,
/// no leading zero except for `n == 0` itself.
pub open spec fn dec_digits(n: nat) -> Seq<char>
    decreases n,
{
    if n < 10 {
        seq![digit_char(n)]
    } else {
        dec_digits(n / 10).push(digit_char(n % 10))
    }
}

pub proof fn lemma_digit_char_val(d: nat)
    requires
        d < 10,
    ensures
        is_digit(digit_char(d)),
        digit_val(digit_char(d)) == d,
{
}

pub proof fn lemma_dec_digits_shape(n: nat)
    ensures
        dec_digits(n).len() >= 1,
        forall|i: int| 0 <= i < dec_digits(n).len() ==> is_digit(#[trigger] dec_digits(n)[i]),
    decreases n,
{
    if n < 10 {
        lemma_digit_char_val(n);
    } else {
        lemma_dec_digits_shape(n / 10);
        lemma_digit_char_val(n % 10);
    }
}

pub proof fn lemma_digits_val_push(s: Seq<char>, c: char)
    ensures
        digits_val(s.push(c)) == digits_val(s) * 10 + digit_val(c),
{
    assert(s.push(c).drop_last() =~= s);
}

/// Reading back the decimal digits of `n` yields `n`.
pub proof fn lemma_digits_val_of_dec_digits(n: nat)
    ensures
        digits_val(dec_digits(n)) == n,
    decreases n,
{
    if n < 10 {
        lemma_digit_char_val(n);
        assert(dec_digits(n) =~= seq![digit_char(n)]);
        assert(dec_digits(n).drop_last() =~= Seq::<char>::empty());
        assert(dec_digits(n).last() == digit_char(n));
        assert(digits_val(Seq::<char>::empty()) == 0);
        assert(digits_val(dec_digits(n)) == digits_val(Seq::<char>::empty()) * 10 + digit_val(
            digit_char(n),
        ));
    } else {
        lemma_digits_val_of_dec_digits(n / 10);
        lemma_digits_val_push(dec_digits(n / 10), digit_char(n % 10));
        lemma_digit_char_val(n % 10);
        assert(digits_val(dec_digits(n)) == (n / 10) * 10 + n % 10);
        assert((n / 10) * 10 + n % 10 == n) by (nonlinear_arith);
    }
}

/// Appending further digits never lowers the value read so far.
pub proof fn lemma_digits_val_extend(s: Seq<char>, t: Seq<char>)
    ensures
        digits_val(s + t) >= digits_val(s),
    decreases t.len(),
{
    if t.len() == 0 {
        assert(s + t =~= s);
    } else {
        lemma_digits_val_extend(s, t.drop_last());
        assert((s + t).drop_last() =~= s + t.drop_last());
    }
}

/// Exec check for a decimal digit character.
pub fn is_digit_char(c: char) -> (r: bool)
    ensures
        r == is_digit(c),
{
    let u = c as u32;
    48 <= u && u <= 57
}

/// Exec digit character of a value below ten.
pub fn to_digit_char(d: u32) -> (r: char)
    requires
        d < 10,
    ensures
        r == digit_char(d as nat),
{
    if d == 0 {
        '0'
    } else if d == 1 {
        '1'
    } else if d == 2 {
        '2'
    } else if d == 3 {
        '3'
    } else if d == 4 {
        '4'
    } else if d == 5 {
        '5'
    } else if d == 6 {
        '6'
    } else if d == 7 {
        '7'
    } else if d == 8 {
        '8'
    } else {
        '9'
    }
}

/// Appends the decimal digits of `n` to `out`.
pub fn push_dec_digits(n: u32, out: &mut Vec<char>)
    ensures
        final(out)@ == old(out)@ + dec_digits(n as nat),
    decreases n,
{
    if n < 10 {
        out.push(to_digit_char(n));
        assert(out@ =~= old(out)@ + dec_digits(n as nat));
    } else {
        push_dec_digits(n / 10, out);
        out.push(to_digit_char(n % 10));
        assert(out@ =~= old(out)@ + dec_digits(n as nat));
    }
}

/// Value of the digit run of `s` between `from` and `to`, unless it
/// exceeds `i32::MAX`.
pub fn digit_run_value(s: &Vec<char>, from: usize, to: usize) -> (r: Option<u32>)
    requires
        from <= to <= s@.len(),
        forall|k: int| from <= k < to ==> is_digit(s@[k]),
    ensures
        r matches Some(v) ==> v == digits_val(s@.subrange(from as int, to as int)) && v
            <= i32::MAX,
        r is None <==> digits_val(s@.subrange(from as int, to as int)) > i32::MAX,
{
    let mut acc: u64 = 0;
    let mut j: usize = from;
    proof {
        assert(s@.subrange(from as int, from as int) =~= Seq::<char>::empty());
    }
    while j < to
        invariant
            from <= j <= to <= s@.len(),
            forall|k: int| from <= k < to ==> is_digit(s@[k]),
            acc == digits_val(s@.subrange(from as int, j as int)),
            acc <= i32::MAX,
        decreases to - j,
    {
        let c = s[j];
        assert(is_digit(c));
        let d: u64 = (c as u32 - 48) as u64;
        proof {
            assert(digit_val(c) == d as nat);
            lemma_digits_val_push(s@.subrange(from as int, j as int), c);
            assert(s@.subrange(from as int, j as int + 1) =~= s@.subrange(
                from as int,
                j as int,
            ).push(c));
        }
        acc = acc * 10 + d;
        j = j + 1;
        if acc > (i32::MAX as u64) {
            proof {
                lemma_digits_val_extend(
                    s@.subrange(from as int, j as int),
                    s@.subrange(j as int, to as int),
                );
                assert(s@.subrange(from as int, j as int) + s@.subrange(j as int, to as int)
                    =~= s@.subrange(from as int, to as int));
            }
            return None;
        }
    }
    assert(s@.subrange(from as int, j as int) =~= s@.subrange(from as int, to as int));
    Some(acc as u32)
}

/// Appends the characters of `src` between `from` and `to` to `out`.
pub fn push_chars(out: &mut Vec<char>, src: &Vec<char>, from: usize, to: usize)
    requires
        from <= to <= src@.len(),
    ensures
        final(out)@ == old(out)@ + src@.subrange(from as int, to as int),
{
    let mut k: usize = from;
    proof {
        assert(out@ =~= old(out)@ + src@.subrange(from as int, from as int));
    }
    while k < to
        invariant
            from <= k <= to <= src@.len(),
            out@ == old(out)@ + src@.subrange(from as int, k as int),
        decreases to - k,
    {
        out.push(src[k]);
        proof {
            assert(src@.subrange(from as int, k as int + 1) =~= src@.subrange(
                from as int,
                k as int,
            ).push(src@[k as int]));
            assert(out@ =~= old(out)@ + src@.subrange(from as int, k as int + 1));
        }
        k = k + 1;
    }
}

/// The contents of an optional string, as an optional character sequence.
pub open spec fn opt_str_view(o: Option<String>) -> Option<Seq<char>> {
    match o {
        Some(s) => Some(s@),
        None => None,
    }
}

/// A copy of an optional string, with the same contents.
pub fn copy_opt_string(o: &Option<String>) -> (r: Option<String>)
    ensures
        opt_str_view(r) == opt_str_view(*o),
{
    match o {
        Some(s) => Some(s.clone()),
        None => None,
    }
}

/// Relies on `str::chars` and `Iterator::collect`: the characters of a
/// string slice, in order, as a vector.
#[verifier::external_body]
pub fn str_chars(s: &str) -> (r: Vec<char>)
    ensures
        r@ == s@,
{
    s.chars().collect()
}

/// Relies on `FromIterator for String` (via `Iterator::collect`): the string
/// holding exactly the characters of `v`, in order.
#[verifier::external_body]
pub fn chars_to_string(v: &Vec<char>) -> (r: String)
    ensures
        r@ == v@,
{
    v.iter().collect()
}

} // verus!

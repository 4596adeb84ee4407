//! Small helpers shared across the crate: decimal formatting, pluralisation
//! and `Result` combinators for absorbable errors.

use vstd::prelude::*;

verus! {

/// The decimal digit character for a value below ten.
pub open spec fn digit_char(d: nat) -> char {
    if d == 0 {
        '0'
    } else if d == 1 {
        '1'
    } else if d == 2 {
        '2'
    } else if d == 3 {
        '3'
    } else if d == 4 {
        '4'
    } else if d == 5 {
        '5'
    } else if d == 6 {
        '6'
    } else if d == 7 {
        '7'
    } else if d == 8 {
        '8'
    } else {
        '9'
    }
}

/// The decimal rendering of `n`, most significant digit first.
pub open spec fn spec_decimal(n: nat) -> Seq<char>
    decreases n,
{
    if n < 10 {
        seq![digit_char(n)]
    } else {
        spec_decimal(n / 10).push(digit_char(n % 10))
    }
}

/// Relies on `String::push`: appends exactly one character.
#[verifier::external_body]
pub fn push_char(s: &mut String, c: char)
    ensures
        final(s)@ == old(s)@.push(c),
{
    s.push(c);
}

/// The digit character for `d`, executable counterpart of [`digit_char`].
pub fn digit_char_exec(d: usize) -> (c: char)
    requires
        d < 10,
    ensures
        c == digit_char(d as nat),
{
    if d == 0 {
        '0'
    } else if d == 1 {
        '1'
    } else if d == 2 {
        '2'
    } else if d == 3 {
        '3'
    } else if d == 4 {
        '4'
    } else if d == 5 {
        '5'
    } else if d == 6 {
        '6'
    } else if d == 7 {
        '7'
    } else if d == 8 {
        '8'
    } else {
        '9'
    }
}

/// Renders `n` in decimal.
pub fn usize_to_string(n: usize) -> (r: String)
    ensures
        r@ == spec_decimal(n as nat),
    decreases n,
{
    if n < 10 {
        let mut s = String::new();
        push_char(&mut s, digit_char_exec(n));
        assert(s@ =~= spec_decimal(n as nat));
        s
    } else {
        let mut s = usize_to_string(n / 10);
        push_char(&mut s, digit_char_exec(n % 10));
        s
    }
}

/// Renders `n` in decimal.
pub fn u64_to_string(n: u64) -> (r: String)
    ensures
        r@ == spec_decimal(n as nat),
    decreases n,
{
    if n < 10 {
        let mut s = String::new();
        push_char(&mut s, digit_char_exec(n as usize));
        assert(s@ =~= spec_decimal(n as nat));
        s
    } else {
        let mut s = u64_to_string(n / 10);
        push_char(&mut s, digit_char_exec((n % 10) as usize));
        s
    }
}

/// What [`plural`] returns: the term itself for a count of one, the term with
/// a trailing `s` otherwise.
pub open spec fn spec_plural(count: nat, term: Seq<char>) -> Seq<char> {
    if count == 1 {
        term
    } else {
        term.push('s')
    }
}

/// Appends a plural `s` to `term` unless `count` is exactly one.
pub fn plural(count: usize, term: &str) -> (r: String)
    ensures
        r@ == spec_plural(count as nat, term@),
{
    let mut s = term.to_owned();
    if count != 1 {
        push_char(&mut s, 's');
    }
    s
}

/// Compares two string slices by their characters.
pub fn str_eq(a: &str, b: &str) -> (r: bool)
    ensures
        r == (a@ == b@),
{
    let n = a.unicode_len();
    let m = b.unicode_len();
    if n != m {
        return false;
    }
    let mut i: usize = 0;
    while i < n
        invariant
            n == a@.len() == b@.len(),
            0 <= i <= n,
            forall|j: int| 0 <= j < i ==> a@[j] == b@[j],
        decreases n - i,
    {
        if a.get_char(i) != b.get_char(i) {
            return false;
        }
        i += 1;
    }
    proof {
        assert(a@ =~= b@);
    }
    true
}

/// The characters of a string slice, as a vector.
pub fn str_chars(s: &str) -> (r: Vec<char>)
    ensures
        r@ == s@,
{
    let n = s.unicode_len();
    let mut out: Vec<char> = Vec::new();
    let mut i: usize = 0;
    while i < n
        invariant
            n == s@.len(),
            0 <= i <= n,
            out@ =~= s@.take(i as int),
        decreases n - i,
    {
        out.push(s.get_char(i));
        proof {
            assert(out@ =~= s@.take(i + 1));
        }
        i += 1;
    }
    proof {
        assert(out@ =~= s@);
    }
    out
}

/// Splits a number of seconds into days, hours, minutes and seconds.
pub fn format_dhms(sec: u64) -> (r: (u64, u8, u8, u8))
    ensures
        r.0 * 86400 + r.1 * 3600 + r.2 * 60 + r.3 == sec,
        r.1 < 24,
        r.2 < 60,
        r.3 < 60,
{
    let (mins, sec) = (sec / 60, (sec % 60) as u8);
    let (hours, mins) = (mins / 60, (mins % 60) as u8);
    let (days, hours) = (hours / 24, (hours % 24) as u8);
    (days, hours, mins, sec)
}

/// Replaces an error accepted by `ignore_it` with a default value.
///
/// The caller decides with `ignore_it` whether the error at hand belongs to
/// the absorbable band (not found on removal, already exists on creation).
pub fn ignore<T: Default, E>(result: Result<T, E>, ignore_it: bool) -> (r: Result<T, E>)
    ensures
        match result {
            Err(_) => ignore_it ==> r is Ok,
            Ok(_) => r == result,
        },
        !ignore_it ==> r == result,
{
    match result {
        Err(_) if ignore_it => Ok(T::default()),
        x => x,
    }
}

/// Replaces an error accepted by `ignore_it` with the given value.
pub fn ignore_with<T, E>(result: Result<T, E>, ignore_it: bool, value: T) -> (r: Result<T, E>)
    ensures
        match result {
            Err(_) => if ignore_it {
                r == Ok::<T, E>(value)
            } else {
                r == result
            },
            Ok(_) => r == result,
        },
{
    match result {
        Err(_) if ignore_it => Ok(value),
        x => x,
    }
}

} // verus!

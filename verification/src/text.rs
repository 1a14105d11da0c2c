use vstd::prelude::*;
use vstd::std_specs::iter::IteratorSpec;

verus! {

broadcast use vstd::string::group_string_axioms;

/// Relies on `String::push`: appends the given character at the end of the
/// string.
#[verifier::external_body]
fn push_char(s: &mut String, c: char)
    ensures
        final(s)@ == old(s)@.push(c),
{
    s.push(c);
}

/// Build an owned string whose characters are exactly those of `v`.
pub fn chars_to_string(v: &Vec<char>) -> (r: String)
    ensures
        r@ == v@,
{
    let mut s = String::new();
    let mut i: usize = 0;
    while i < v.len()
        invariant
            i <= v.len(),
            s@ == v@.subrange(0, i as int),
        decreases v.len() - i,
    {
        push_char(&mut s, v[i]);
        proof {
            assert(v@.subrange(0, i as int).push(v@[i as int]) =~= v@.subrange(0, i + 1));
        }
        i += 1;
    }
    proof {
        assert(v@.subrange(0, v.len() as int) =~= v@);
    }
    s
}

/// Collect the characters of a string slice, in order.
pub fn str_to_chars(s: &str) -> (r: Vec<char>)
    ensures
        r@ == s@,
{
    let mut it = s.chars();
    let mut v: Vec<char> = Vec::new();
    loop
        invariant
            it.obeys_prophetic_iter_laws(),
            it.decrease() is Some,
            v@ + it.remaining() == s@,
        ensures
            v@ == s@,
        decreases it.decrease()->0,
    {
        match it.next() {
            Some(c) => {
                v.push(c);
                proof {
                    assert(v@ + it.remaining() =~= s@);
                }
            },
            None => {
                proof {
                    assert(v@ + it.remaining() =~= v@);
                }
                break ;
            },
        }
    }
    v
}

/// The character for one decimal digit.
pub open spec fn digit_char(d: int) -> char {
    if d == 0 {
        '0'
    } else if d == 1 {
        '1'
    } else if d == 2 {
        '2'
    } else if d == 3 {
        '3'
    } else if d == 4 {
        '4'
    } else if d == 5 {
        '5'
    } else if d == 6 {
        '6'
    } else if d == 7 {
        '7'
    } else if d == 8 {
        '8'
    } else {
        '9'
    }
}

/// The usual decimal rendering of a nonnegative integer: most significant
/// digit first, no leading zero except for zero itself.
pub open spec fn dec_digits(n: int) -> Seq<char>
    decreases n,
{
    if n < 10 {
        seq![digit_char(n)]
    } else {
        dec_digits(n / 10).push(digit_char(n % 10))
    }
}

/// The character for one decimal digit.
pub fn digit_to_char(d: u64) -> (c: char)
    requires
        d < 10,
    ensures
        c == digit_char(d as int),
{
    if d == 0 {
        '0'
    } else if d == 1 {
        '1'
    } else if d == 2 {
        '2'
    } else if d == 3 {
        '3'
    } else if d == 4 {
        '4'
    } else if d == 5 {
        '5'
    } else if d == 6 {
        '6'
    } else if d == 7 {
        '7'
    } else if d == 8 {
        '8'
    } else {
        '9'
    }
}

/// The decimal digits of `n`, most significant first.
pub fn dec_chars(n: u64) -> (v: Vec<char>)
    ensures
        v@ == dec_digits(n as int),
{
    let mut v: Vec<char> = Vec::new();
    if n < 10 {
        v.push(digit_to_char(n));
        proof {
            assert(v@ =~= seq![digit_char(n as int)]);
        }
        return v;
    }
    let mut cur: u64 = n;
    while cur >= 10
        invariant
            dec_digits(n as int) == dec_digits(cur as int) + v@,
        decreases cur,
    {
        let ghost prev = v@;
        let ghost pcur = cur as int;
        let d = cur % 10;
        v.insert(0, digit_to_char(d));
        cur = cur / 10;
        proof {
            assert(v@ =~= seq![digit_char(d as int)] + prev);
            assert(dec_digits(pcur) == dec_digits(pcur / 10).push(digit_char(pcur % 10)));
            assert(dec_digits(cur as int).push(digit_char(d as int)) + prev =~= dec_digits(
                cur as int,
            ) + v@);
        }
    }
    let ghost last = v@;
    v.insert(0, digit_to_char(cur));
    proof {
        assert(v@ =~= seq![digit_char(cur as int)] + last);
        assert(dec_digits(cur as int) + last =~= v@);
    }
    v
}

/// The decimal rendering of `n` as an owned string.
pub fn dec_string(n: u64) -> (r: String)
    ensures
        r@ == dec_digits(n as int),
{
    let v = dec_chars(n);
    chars_to_string(&v)
}

} // verus!

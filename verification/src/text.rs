//! Text building blocks: decimal rendering of identifiers and the
//! filename sanitizer.

use vstd::prelude::*;

verus! {

/// The character standing for the decimal digit `d`.
pub open spec fn digit_char(d: nat) -> char {
    if d == 0 {
        '0'
    } else if d == 1 {
        '1'
    } else if d == 2 {
        '2'
    } else if d == 3 {
        '3'
    } else if d == 4 {
        '4'
    } else if d == 5 {
        '5'
    } else if d == 6 {
        '6'
    } else if d == 7 {
        '7'
    } else if d == 8 {
        '8'
    } else {
        '9'
    }
}

/// Decimal representation of `n`: most significant digit first, no
/// leading zeroes, and zero itself written as the single digit `0`.
pub open spec fn decimal_digits(n: nat) -> Seq<char>
    decreases n,
{
    if n < 10 {
        seq![digit_char(n)]
    } else {
        decimal_digits(n / 10).push(digit_char(n % 10))
    }
}

/// Relies on `String::push`: appends the given character to the end of
/// the string.
#[verifier::external_body]
fn push_char(s: &mut String, c: char)
    ensures
        final(s)@ == old(s)@.push(c),
{
    s.push(c);
}

fn digit_to_char(d: usize) -> (c: char)
    requires
        d < 10,
    ensures
        c == digit_char(d as nat),
{
    match d {
        0 => '0',
        1 => '1',
        2 => '2',
        3 => '3',
        4 => '4',
        5 => '5',
        6 => '6',
        7 => '7',
        8 => '8',
        _ => '9',
    }
}

/// Renders `n` in decimal, exactly as `decimal_digits` describes.
pub fn usize_to_decimal(n: usize) -> (s: String)
    ensures
        s@ == decimal_digits(n as nat),
{
    let mut rev: Vec<char> = Vec::new();
    let mut m: usize = n;
    loop
        invariant_except_break
            decimal_digits(n as nat) == decimal_digits(m as nat).add(rev@.reverse()),
        ensures
            decimal_digits(n as nat) == rev@.reverse(),
        decreases m,
    {
        let d: usize = m % 10;
        let c = digit_to_char(d);
        proof {
            if m < 10 {
                assert(rev@.push(c).reverse() =~= seq![c].add(rev@.reverse()));
                assert(decimal_digits(m as nat) == seq![digit_char(m as nat)]);
            } else {
                assert(decimal_digits(m as nat) == decimal_digits((m / 10) as nat).push(
                    digit_char((m % 10) as nat),
                ));
                assert(decimal_digits((m / 10) as nat).add(rev@.push(c).reverse())
                    =~= decimal_digits((m / 10) as nat).push(c).add(rev@.reverse()));
            }
        }
        rev.push(c);
        if m < 10 {
            break;
        }
        m = m / 10;
    }
    assert(decimal_digits(n as nat) == rev@.reverse());
    let mut s = String::new();
    let mut i: usize = rev.len();
    while i > 0
        invariant
            i <= rev@.len(),
            decimal_digits(n as nat) == rev@.reverse(),
            s@ == rev@.reverse().take(rev@.len() - i),
        decreases i,
    {
        let c = rev[i - 1];
        proof {
            assert(rev@.reverse().take(rev@.len() - (i - 1)) =~= rev@.reverse().take(
                rev@.len() - i,
            ).push(rev@[i - 1]));
        }
        push_char(&mut s, c);
        i = i - 1;
    }
    proof {
        assert(rev@.reverse().take(rev@.len() - 0) =~= rev@.reverse());
    }
    s
}

/// Characters that common filesystems refuse inside a file name.
pub open spec fn is_illegal_char(c: char) -> bool {
    c == '\\' || c == '?' || c == '<' || c == '>' || c == '/' || c == ':' || c == '*' || c == '|'
        || c == '"'
}

/// What one character of a display name becomes in a file name.
pub open spec fn sanitize_char(c: char) -> char {
    if is_illegal_char(c) {
        '_'
    } else {
        c
    }
}

/// A display name with every illegal character replaced by `_`.
pub open spec fn sanitized(s: Seq<char>) -> Seq<char> {
    s.map_values(|c: char| sanitize_char(c))
}

fn char_is_illegal(c: char) -> (b: bool)
    ensures
        b == is_illegal_char(c),
{
    c == '\\' || c == '?' || c == '<' || c == '>' || c == '/' || c == ':' || c == '*' || c == '|'
        || c == '"'
}

/// Replaces every occurrence of every illegal character with `_`;
/// total on all inputs.
pub fn sanitize(name: &str) -> (r: String)
    ensures
        r@ == sanitized(name@),
{
    let n = name.unicode_len();
    let mut r = String::new();
    let mut i: usize = 0;
    while i < n
        invariant
            n == name@.len(),
            i <= n,
            r@ == sanitized(name@.take(i as int)),
        decreases n - i,
    {
        let c = name.get_char(i);
        let c2 = if char_is_illegal(c) {
            '_'
        } else {
            c
        };
        proof {
            assert(sanitized(name@.take(i + 1)) =~= sanitized(name@.take(i as int)).push(
                sanitize_char(name@[i as int]),
            ));
        }
        push_char(&mut r, c2);
        i = i + 1;
    }
    proof {
        assert(name@.take(n as int) =~= name@);
    }
    r
}

/// Law: sanitizing is idempotent; a sanitized name is a fixed point of
/// `sanitized`.
pub proof fn lemma_sanitize_idempotent(s: Seq<char>)
    ensures
        sanitized(sanitized(s)) == sanitized(s),
{
    assert forall|i: int| 0 <= i < s.len() implies sanitize_char(sanitize_char(s[i]))
        == sanitize_char(s[i]) by {
        assert(!is_illegal_char('_'));
    }
    assert(sanitized(sanitized(s)) =~= sanitized(s));
}

} // verus!

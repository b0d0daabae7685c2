//! Character classes and the small text conversions the pipeline needs:
//! string equality, decimal rendering of integers, and decimal parsing
//! of integer literals.

use vstd::prelude::*;

verus! {

// ---------------------------------------------------------------------------
// Character classes
// ---------------------------------------------------------------------------

/// The ten ASCII decimal digits, the only digits the lexer admits.
pub open spec fn is_digit_char(c: char) -> bool {
    48 <= c as u32 && c as u32 <= 57
}

/// Whether a character counts as whitespace, as `char::is_whitespace` decides.
pub uninterp spec fn is_whitespace_char(c: char) -> bool;

/// Whether a character is alphabetic, as `char::is_alphabetic` decides.
pub uninterp spec fn is_alphabetic_char(c: char) -> bool;

/// Whether a character is alphanumeric, as `char::is_alphanumeric` decides.
pub uninterp spec fn is_alphanumeric_char(c: char) -> bool;

/// Relies on char::is_whitespace: whether a character has the Unicode
/// White_Space property depends on the character alone.
pub assume_specification[ char::is_whitespace ](c: char) -> (r: bool)
    ensures
        r == is_whitespace_char(c),
;

/// Relies on char::is_alphabetic: whether a character is in the Unicode
/// Alphabetic derived property depends on the character alone.
pub assume_specification[ char::is_alphabetic ](c: char) -> (r: bool)
    ensures
        r == is_alphabetic_char(c),
;

/// Relies on char::is_alphanumeric, documented to hold exactly when the
/// character satisfies is_alphabetic or is_numeric; in particular every
/// alphabetic character is alphanumeric.
pub assume_specification[ char::is_alphanumeric ](c: char) -> (r: bool)
    ensures
        r == is_alphanumeric_char(c),
        is_alphabetic_char(c) ==> r,
;

/// Executable check for the ten ASCII decimal digits.
pub fn is_ascii_digit_char(c: char) -> (r: bool)
    ensures
        r == is_digit_char(c),
{
    let u = c as u32;
    48 <= u && u <= 57
}

// ---------------------------------------------------------------------------
// String equality
// ---------------------------------------------------------------------------

/// Character-for-character equality of two string slices.
pub fn str_eq(a: &str, b: &str) -> (r: bool)
    ensures
        r == (a@ == b@),
{
    let an = a.unicode_len();
    let bn = b.unicode_len();
    if an != bn {
        proof {
            if a@ == b@ {
                assert(a@.len() == b@.len());
            }
        }
        return false;
    }
    let mut i: usize = 0;
    while i < an
        invariant
            an == a@.len(),
            bn == b@.len(),
            an == bn,
            0 <= i <= an,
            forall|j: int| 0 <= j < i ==> a@[j] == b@[j],
        decreases an - i,
    {
        if a.get_char(i) != b.get_char(i) {
            proof {
                if a@ == b@ {
                    assert(a@[i as int] == b@[i as int]);
                }
            }
            return false;
        }
        i += 1;
    }
    proof {
        assert(a@ =~= b@);
    }
    true
}

// ---------------------------------------------------------------------------
// Decimal rendering
// ---------------------------------------------------------------------------

/// The digit character for a value below ten.
pub open spec fn digit_char(d: int) -> char {
    if d == 0 {
        '0'
    } else if d == 1 {
        '1'
    } else if d == 2 {
        '2'
    } else if d == 3 {
        '3'
    } else if d == 4 {
        '4'
    } else if d == 5 {
        '5'
    } else if d == 6 {
        '6'
    } else if d == 7 {
        '7'
    } else if d == 8 {
        '8'
    } else {
        '9'
    }
}

/// The numeric value of a digit character.
pub open spec fn digit_val(c: char) -> int {
    c as u32 - 48
}

/// The decimal rendering of a natural number, most significant digit first.
pub open spec fn sp_nat_dec(n: nat) -> Seq<char>
    decreases n,
{
    if n < 10 {
        seq![digit_char(n as int)]
    } else {
        sp_nat_dec(n / 10).push(digit_char((n % 10) as int))
    }
}

/// The decimal rendering of a signed integer: a minus sign, if negative,
/// followed by the rendering of the magnitude.
pub open spec fn sp_int_dec(n: int) -> Seq<char> {
    if n < 0 {
        seq!['-'] + sp_nat_dec((-n) as nat)
    } else {
        sp_nat_dec(n as nat)
    }
}

fn digit_to_char(d: u64) -> (c: char)
    requires
        d < 10,
    ensures
        c == digit_char(d as int),
{
    match d {
        0 => '0',
        1 => '1',
        2 => '2',
        3 => '3',
        4 => '4',
        5 => '5',
        6 => '6',
        7 => '7',
        8 => '8',
        _ => '9',
    }
}

fn push_dec_digits(n: u64, v: &mut Vec<char>)
    ensures
        final(v)@ == old(v)@ + sp_nat_dec(n as nat),
    decreases n,
{
    if n < 10 {
        v.push(digit_to_char(n));
        proof {
            assert(v@ =~= old(v)@ + sp_nat_dec(n as nat));
        }
    } else {
        push_dec_digits(n / 10, v);
        v.push(digit_to_char(n % 10));
        proof {
            assert(v@ =~= old(v)@ + sp_nat_dec(n as nat));
        }
    }
}

/// Relies on String: collecting characters yields the string holding
/// exactly those characters, in order.
#[verifier::external_body]
pub(crate) fn string_from_chars(v: &Vec<char>) -> (s: String)
    ensures
        s@ == v@,
{
    v.iter().collect()
}

/// The decimal rendering of an unsigned machine integer.
pub fn usize_to_string(n: usize) -> (s: String)
    ensures
        s@ == sp_nat_dec(n as nat),
{
    let mut v: Vec<char> = Vec::new();
    push_dec_digits(n as u64, &mut v);
    string_from_chars(&v)
}

/// The decimal rendering of a signed 32-bit integer.
pub fn i32_to_string(n: i32) -> (s: String)
    ensures
        s@ == sp_int_dec(n as int),
{
    let mut v: Vec<char> = Vec::new();
    if n < 0 {
        v.push('-');
        let m: u64 = (-(n as i64)) as u64;
        push_dec_digits(m, &mut v);
    } else {
        push_dec_digits(n as u64, &mut v);
    }
    string_from_chars(&v)
}

// ---------------------------------------------------------------------------
// Decimal parsing
// ---------------------------------------------------------------------------

/// Whether every character of a sequence is an ASCII decimal digit.
pub open spec fn sp_all_digits(s: Seq<char>) -> bool {
    forall|i: int| 0 <= i < s.len() ==> is_digit_char(s[i])
}

/// The value of a sequence of digit characters read in base ten.
pub open spec fn sp_digits_val(s: Seq<char>) -> int
    decreases s.len(),
{
    if s.len() == 0 {
        0
    } else {
        sp_digits_val(s.drop_last()) * 10 + digit_val(s.last())
    }
}

/// What `str::parse::<i32>` yields on a character sequence: an optional
/// sign followed by at least one digit, with the value within the range
/// of `i32`; anything else fails.
pub open spec fn sp_parse_i32(s: Seq<char>) -> Option<int> {
    if s.len() == 0 {
        None
    } else {
        let neg = s[0] == '-';
        let digits = if s[0] == '-' || s[0] == '+' {
            s.drop_first()
        } else {
            s
        };
        if digits.len() == 0 || !sp_all_digits(digits) {
            None
        } else {
            let v = if neg {
                -sp_digits_val(digits)
            } else {
                sp_digits_val(digits)
            };
            if i32::MIN <= v <= i32::MAX {
                Some(v)
            } else {
                None
            }
        }
    }
}

proof fn lemma_digits_val_nonneg(s: Seq<char>)
    requires
        sp_all_digits(s),
    ensures
        sp_digits_val(s) >= 0,
    decreases s.len(),
{
    if s.len() > 0 {
        assert(sp_all_digits(s.drop_last()));
        lemma_digits_val_nonneg(s.drop_last());
        assert(is_digit_char(s.last()));
    }
}

proof fn lemma_digits_val_prefix(s: Seq<char>, j: int)
    requires
        sp_all_digits(s),
        0 <= j <= s.len(),
    ensures
        sp_digits_val(s.subrange(0, j)) <= sp_digits_val(s),
    decreases s.len() - j,
{
    if j == s.len() {
        assert(s.subrange(0, j) =~= s);
    } else {
        lemma_digits_val_prefix(s, j + 1);
        let p = s.subrange(0, j);
        let q = s.subrange(0, j + 1);
        assert(q.drop_last() =~= p);
        assert(q.last() == s[j]);
        lemma_digits_val_nonneg(p);
        assert(is_digit_char(s[j]));
        assert(sp_digits_val(q) == sp_digits_val(p) * 10 + digit_val(s[j]));
        assert(sp_digits_val(p) <= sp_digits_val(p) * 10 + digit_val(s[j]));
    }
}

/// Rendering a natural number in decimal and reading the digits back in
/// base ten yields the same number.
pub proof fn lemma_nat_dec_round_trip(n: nat)
    ensures
        sp_all_digits(sp_nat_dec(n)),
        sp_digits_val(sp_nat_dec(n)) == n,
    decreases n,
{
    if n < 10 {
        let s1 = seq![digit_char(n as int)];
        assert(s1.drop_last() =~= Seq::<char>::empty());
        assert(sp_digits_val(Seq::<char>::empty()) == 0);
        assert(digit_val(digit_char(n as int)) == n);
        assert(is_digit_char(digit_char(n as int)));
        assert(sp_digits_val(s1) == sp_digits_val(s1.drop_last()) * 10 + digit_val(s1.last()));
    } else {
        lemma_nat_dec_round_trip(n / 10);
        let s = sp_nat_dec(n / 10).push(digit_char((n % 10) as int));
        assert(s.drop_last() =~= sp_nat_dec(n / 10));
        assert(s.last() == digit_char((n % 10) as int));
        assert(digit_val(digit_char((n % 10) as int)) == n % 10);
        assert(sp_digits_val(s) == sp_digits_val(sp_nat_dec(n / 10)) * 10 + (n % 10));
        assert(n / 10 * 10 + n % 10 == n);
        assert forall|j: int| 0 <= j < s.len() implies is_digit_char(s[j]) by {
            if j < s.len() - 1 {
                assert(s[j] == sp_nat_dec(n / 10)[j]);
            }
        }
    }
}

/// Decimal parsing of a 32-bit integer literal, as `str::parse::<i32>`
/// accepts it: an optional `+` or `-` sign followed by one or more
/// decimal digits, with the value in range.
#[verifier::loop_isolation(false)]
pub fn parse_i32(s: &str) -> (r: Option<i32>)
    ensures
        match r {
            Some(v) => sp_parse_i32(s@) == Some(v as int),
            None => sp_parse_i32(s@) is None,
        },
{
    let n = s.unicode_len();
    if n == 0 {
        return None;
    }
    let c0 = s.get_char(0);
    let neg = c0 == '-';
    let start: usize = if c0 == '-' || c0 == '+' {
        1
    } else {
        0
    };
    let ghost digits: Seq<char> = if c0 == '-' || c0 == '+' {
        s@.drop_first()
    } else {
        s@
    };
    proof {
        assert(digits =~= s@.subrange(start as int, n as int));
    }
    if n == start {
        return None;
    }
    let mut i: usize = start;
    while i < n
        invariant
            n == s@.len(),
            start <= i <= n,
            digits =~= s@.subrange(start as int, n as int),
            forall|j: int| start <= j < i ==> is_digit_char(s@[j]),
        decreases n - i,
    {
        if !is_ascii_digit_char(s.get_char(i)) {
            proof {
                assert(!is_digit_char(digits[i - start]));
                assert(!sp_all_digits(digits));
                assert(sp_parse_i32(s@) is None);
            }
            return None;
        }
        i += 1;
    }
    proof {
        assert(sp_all_digits(digits));
    }
    let mut acc: u64 = 0;
    let mut k: usize = start;
    while k < n
        invariant
            n == s@.len(),
            start <= k <= n,
            start < n,
            digits =~= s@.subrange(start as int, n as int),
            sp_all_digits(digits),
            acc == sp_digits_val(digits.subrange(0, k - start)),
            acc <= 2147483648,
        decreases n - k,
    {
        let ck = s.get_char(k);
        proof {
            assert(digits[k - start] == s@[k as int]);
            assert(is_digit_char(s@[k as int]));
        }
        let d: u64 = (ck as u32 as u64) - 48;
        let next: u64 = acc * 10 + d;
        proof {
            let p = digits.subrange(0, k - start + 1);
            assert(p.drop_last() =~= digits.subrange(0, k - start));
            assert(p.last() == digits[k - start]);
            assert(next == sp_digits_val(p));
        }
        if next > 2147483648 {
            proof {
                lemma_digits_val_prefix(digits, k - start + 1);
                assert(sp_digits_val(digits) > 2147483648);
                assert(sp_parse_i32(s@) is None);
            }
            return None;
        }
        acc = next;
        k += 1;
    }
    proof {
        assert(digits.subrange(0, n - start) =~= digits);
        assert(acc == sp_digits_val(digits));
    }
    if neg {
        if acc == 2147483648 {
            Some(i32::MIN)
        } else {
            Some(-(acc as i32))
        }
    } else {
        if acc > 2147483647 {
            None
        } else {
            Some(acc as i32)
        }
    }
}

} // verus!

//! Characters, digits and decimal numerals.
//!
//! Every textual format of this crate (timestamps, bucket keys, JSON
//! payloads) is specified over sequences of characters; this module holds
//! the digit alphabet, the canonical decimal numeral of an integer, and
//! verified rendering and parsing of such numerals.

use vstd::prelude::*;

verus! {

/// Relies on `String: FromIterator<char>`: collecting characters yields a
/// string whose characters are exactly the collected sequence.
#[verifier::external_body]
pub fn string_from_chars(v: &Vec<char>) -> (r: String)
    ensures
        r@ == v@,
{
    v.iter().collect()
}

/// Relies on `str::chars`: iteration yields the string's characters in order.
#[verifier::external_body]
pub fn chars_of(s: &str) -> (r: Vec<char>)
    ensures
        r@ == s@,
{
    s.chars().collect()
}

pub open spec fn spec_digit_char(d: int) -> char {
    if d == 0 {
        '0'
    } else if d == 1 {
        '1'
    } else if d == 2 {
        '2'
    } else if d == 3 {
        '3'
    } else if d == 4 {
        '4'
    } else if d == 5 {
        '5'
    } else if d == 6 {
        '6'
    } else if d == 7 {
        '7'
    } else if d == 8 {
        '8'
    } else {
        '9'
    }
}

pub open spec fn is_digit(c: char) -> bool {
    c == '0' || c == '1' || c == '2' || c == '3' || c == '4' || c == '5' || c == '6' || c == '7'
        || c == '8' || c == '9'
}

/// Numeric value of a digit character; nine for characters outside the alphabet.
pub open spec fn digit_val(c: char) -> int {
    if c == '0' {
        0
    } else if c == '1' {
        1
    } else if c == '2' {
        2
    } else if c == '3' {
        3
    } else if c == '4' {
        4
    } else if c == '5' {
        5
    } else if c == '6' {
        6
    } else if c == '7' {
        7
    } else if c == '8' {
        8
    } else {
        9
    }
}

pub open spec fn all_digits(s: Seq<char>) -> bool {
    forall|i: int| 0 <= i < s.len() ==> is_digit(#[trigger] s[i])
}

/// Value of a digit string, most significant digit first.
pub open spec fn digits_val(s: Seq<char>) -> nat
    decreases s.len(),
{
    if s.len() == 0 {
        0
    } else {
        (digits_val(s.drop_last()) * 10 + digit_val(s.last())) as nat
    }
}

/// A canonical numeral: at least one digit, no redundant leading zero.
pub open spec fn is_canonical_digits(s: Seq<char>) -> bool {
    s.len() >= 1 && all_digits(s) && (s.len() == 1 || s[0] != '0')
}

/// The canonical decimal numeral of a natural number.
pub open spec fn dec_str(n: nat) -> Seq<char>
    decreases n,
{
    if n < 10 {
        seq![spec_digit_char(n as int)]
    } else {
        dec_str(n / 10).push(spec_digit_char((n % 10) as int))
    }
}

/// The canonical decimal numeral of an integer, with a sign for negatives.
pub open spec fn dec_str_int(n: int) -> Seq<char> {
    if n < 0 {
        seq!['-'] + dec_str((-n) as nat)
    } else {
        dec_str(n as nat)
    }
}

pub open spec fn is_canonical_int(s: Seq<char>) -> bool {
    if s.len() >= 1 && s[0] == '-' {
        is_canonical_digits(s.skip(1)) && digits_val(s.skip(1)) >= 1
    } else {
        is_canonical_digits(s)
    }
}

pub open spec fn int_val(s: Seq<char>) -> int {
    if s.len() >= 1 && s[0] == '-' {
        -(digits_val(s.skip(1)) as int)
    } else {
        digits_val(s) as int
    }
}

/// A canonical numeral denotes its own value, and rendering is canonical.
pub proof fn lemma_dec_str_canonical(n: nat)
    ensures
        is_canonical_digits(dec_str(n)),
        digits_val(dec_str(n)) == n,
        n >= 1 ==> dec_str(n)[0] != '0',
    decreases n,
{
    if n < 10 {
        let s = dec_str(n);
        assert(s.drop_last() =~= Seq::<char>::empty());
        assert(digits_val(Seq::<char>::empty()) == 0);
        assert(digits_val(s) == digit_val(spec_digit_char(n as int)));
        assert(is_digit(s[0]));
        assert(all_digits(s));
    } else {
        lemma_dec_str_canonical(n / 10);
        let p = dec_str(n / 10);
        let s = dec_str(n);
        assert(s == p.push(spec_digit_char((n % 10) as int)));
        assert(s.drop_last() =~= p);
        assert(digits_val(s) == n / 10 * 10 + n % 10);
        assert(n / 10 * 10 + n % 10 == n) by {
            vstd::arithmetic::div_mod::lemma_fundamental_div_mod(n as int, 10);
        }
        assert(s[0] == p[0]);
        assert(forall|i: int| 0 <= i < p.len() ==> #[trigger] s[i] == p[i]);
        assert(is_digit(s[s.len() - 1]));
        assert(all_digits(s));
    }
}

/// Every value read back from a canonical numeral renders to that numeral.
pub proof fn lemma_canonical_dec_str(s: Seq<char>)
    requires
        is_canonical_digits(s),
    ensures
        dec_str(digits_val(s)) == s,
    decreases s.len(),
{
    if s.len() == 1 {
        let c = s[0];
        assert(s.drop_last() =~= Seq::<char>::empty());
        assert(digits_val(Seq::<char>::empty()) == 0);
        assert(digits_val(s) == digit_val(c));
        assert(dec_str(digits_val(s)) =~= s);
    } else {
        let p = s.drop_last();
        assert(p[0] == s[0]);
        assert(forall|i: int| 0 <= i < p.len() ==> p[i] == #[trigger] s[i]);
        lemma_canonical_dec_str(p);
        lemma_canonical_pos(p);
        let n = digits_val(s);
        let d = digit_val(s.last());
        assert(n == digits_val(p) * 10 + d);
        assert(n >= 10);
        assert(n / 10 == digits_val(p) && n % 10 == d) by {
            vstd::arithmetic::div_mod::lemma_fundamental_div_mod_converse(
                n as int,
                10,
                digits_val(p) as int,
                d,
            );
        }
        assert(spec_digit_char(digit_val(s.last())) == s.last());
        assert(dec_str(n) =~= s);
    }
}

/// A canonical numeral not starting in zero denotes a positive value.
pub proof fn lemma_canonical_pos(s: Seq<char>)
    requires
        is_canonical_digits(s),
        s[0] != '0',
    ensures
        digits_val(s) >= 1,
    decreases s.len(),
{
    if s.len() == 1 {
        assert(digit_val(s[0]) >= 1);
    } else {
        let p = s.drop_last();
        assert(p[0] == s[0]);
        assert(forall|i: int| 0 <= i < p.len() ==> p[i] == #[trigger] s[i]);
        lemma_canonical_pos(p);
    }
}

/// Every signed value read back from a canonical numeral renders to it.
pub proof fn lemma_canonical_int_dec_str(s: Seq<char>)
    requires
        is_canonical_int(s),
    ensures
        dec_str_int(int_val(s)) == s,
{
    if s.len() >= 1 && s[0] == '-' {
        lemma_canonical_dec_str(s.skip(1));
        assert(dec_str_int(int_val(s)) =~= s);
    } else {
        lemma_canonical_dec_str(s);
    }
}

/// A signed value's canonical numeral reads back as that value.
pub proof fn lemma_dec_str_int_canonical(m: int)
    ensures
        is_canonical_int(dec_str_int(m)),
        int_val(dec_str_int(m)) == m,
        dec_str_int(m).len() >= 1,
        m < 0 ==> dec_str_int(m)[0] == '-',
        forall|k: int|
            (if m < 0 {
                1int
            } else {
                0int
            }) <= k < dec_str_int(m).len() ==> is_digit(#[trigger] dec_str_int(m)[k]),
{
    let s = dec_str_int(m);
    if m < 0 {
        lemma_dec_str_canonical((-m) as nat);
        assert(s[0] == '-');
        assert(s.skip(1) =~= dec_str((-m) as nat));
        assert(forall|k: int| 1 <= k < s.len() ==> #[trigger] s[k] == dec_str((-m) as nat)[k - 1]);
    } else {
        lemma_dec_str_canonical(m as nat);
        assert(is_digit(s[0]));
    }
}

/// A longer digit string never denotes less than one of its prefixes.
pub proof fn lemma_digits_val_prefix(s: Seq<char>, k: int)
    requires
        0 <= k <= s.len(),
    ensures
        digits_val(s) >= digits_val(s.subrange(0, k)),
    decreases s.len() - k,
{
    if k == s.len() {
        assert(s.subrange(0, k) =~= s);
    } else {
        lemma_digits_val_prefix(s, k + 1);
        let p = s.subrange(0, k + 1);
        assert(p.drop_last() =~= s.subrange(0, k));
        assert(digits_val(p) == digits_val(s.subrange(0, k)) * 10 + digit_val(s[k]));
    }
}

/// A digit character is recovered from its value.
pub proof fn lemma_digit_char_roundtrip(c: char)
    requires
        is_digit(c),
    ensures
        spec_digit_char(digit_val(c)) == c,
{
}

/// A region splits at any interior point into the two adjacent regions.
pub proof fn lemma_subrange_concat(s: Seq<char>, a: int, b: int, c: int)
    requires
        0 <= a <= b <= c <= s.len(),
    ensures
        s.subrange(a, c) == s.subrange(a, b) + s.subrange(b, c),
{
    assert(s.subrange(a, c) =~= s.subrange(a, b) + s.subrange(b, c));
}

pub fn digit_char_of(d: u8) -> (c: char)
    requires
        d < 10,
    ensures
        c == spec_digit_char(d as int),
{
    match d {
        0 => '0',
        1 => '1',
        2 => '2',
        3 => '3',
        4 => '4',
        5 => '5',
        6 => '6',
        7 => '7',
        8 => '8',
        _ => '9',
    }
}

pub fn digit_of(c: char) -> (r: Option<u8>)
    ensures
        match r {
            Some(d) => is_digit(c) && d < 10 && d == digit_val(c),
            None => !is_digit(c),
        },
{
    match c {
        '0' => Some(0),
        '1' => Some(1),
        '2' => Some(2),
        '3' => Some(3),
        '4' => Some(4),
        '5' => Some(5),
        '6' => Some(6),
        '7' => Some(7),
        '8' => Some(8),
        '9' => Some(9),
        _ => None,
    }
}

/// Two fixed-width digits, leading zero kept.
pub open spec fn two_digits(n: int) -> Seq<char> {
    seq![spec_digit_char(n / 10), spec_digit_char(n % 10)]
}

/// Three fixed-width digits, leading zeros kept.
pub open spec fn three_digits(n: int) -> Seq<char> {
    seq![spec_digit_char(n / 100), spec_digit_char(n / 10 % 10), spec_digit_char(n % 10)]
}

/// Four fixed-width digits, leading zeros kept.
pub open spec fn four_digits(n: int) -> Seq<char> {
    seq![
        spec_digit_char(n / 1000),
        spec_digit_char(n / 100 % 10),
        spec_digit_char(n / 10 % 10),
        spec_digit_char(n % 10),
    ]
}

/// A bounded value is recovered from its fixed-width digits.
pub proof fn lemma_two_digits_inj(a: int, b: int)
    requires
        0 <= a < 100,
        0 <= b < 100,
        two_digits(a) == two_digits(b),
    ensures
        a == b,
{
    assert(two_digits(a)[0] == two_digits(b)[0]);
    assert(two_digits(a)[1] == two_digits(b)[1]);
    assert(a / 10 == b / 10 && a % 10 == b % 10);
    vstd::arithmetic::div_mod::lemma_fundamental_div_mod(a, 10);
    vstd::arithmetic::div_mod::lemma_fundamental_div_mod(b, 10);
}

/// A bounded value is recovered from its fixed-width digits.
pub proof fn lemma_three_digits_inj(a: int, b: int)
    requires
        0 <= a < 1000,
        0 <= b < 1000,
        three_digits(a) == three_digits(b),
    ensures
        a == b,
{
    assert(three_digits(a)[0] == three_digits(b)[0]);
    assert(three_digits(a)[1] == three_digits(b)[1]);
    assert(three_digits(a)[2] == three_digits(b)[2]);
    assert(a / 100 == b / 100 && a / 10 % 10 == b / 10 % 10 && a % 10 == b % 10);
    lemma_fixed_decompose(a);
    lemma_fixed_decompose(b);
}

/// A bounded value is recovered from its fixed-width digits.
pub proof fn lemma_four_digits_inj(a: int, b: int)
    requires
        0 <= a < 10000,
        0 <= b < 10000,
        four_digits(a) == four_digits(b),
    ensures
        a == b,
{
    assert(four_digits(a)[0] == four_digits(b)[0]);
    assert(four_digits(a)[1] == four_digits(b)[1]);
    assert(four_digits(a)[2] == four_digits(b)[2]);
    assert(four_digits(a)[3] == four_digits(b)[3]);
    assert(a / 1000 == b / 1000 && a / 100 % 10 == b / 100 % 10 && a / 10 % 10 == b / 10 % 10 && a
        % 10 == b % 10);
    lemma_fixed_decompose(a);
    lemma_fixed_decompose(b);
}

/// A value below ten thousand is the weighted sum of its decimal digits.
pub proof fn lemma_fixed_decompose(a: int)
    requires
        0 <= a < 10000,
    ensures
        a == a / 1000 * 1000 + a / 100 % 10 * 100 + a / 10 % 10 * 10 + a % 10,
        a == a / 100 * 100 + a / 10 % 10 * 10 + a % 10,
{
    vstd::arithmetic::div_mod::lemma_fundamental_div_mod(a, 10);
    vstd::arithmetic::div_mod::lemma_fundamental_div_mod(a / 10, 10);
    vstd::arithmetic::div_mod::lemma_fundamental_div_mod(a / 100, 10);
    assert(a / 10 / 10 == a / 100) by {
        vstd::arithmetic::div_mod::lemma_div_denominator(a, 10, 10);
    }
    assert(a / 100 / 10 == a / 1000) by {
        vstd::arithmetic::div_mod::lemma_div_denominator(a, 100, 10);
    }
}

pub fn push_two_digits(v: &mut Vec<char>, n: u8)
    requires
        n < 100,
    ensures
        final(v)@ == old(v)@ + two_digits(n as int),
{
    v.push(digit_char_of(n / 10));
    v.push(digit_char_of(n % 10));
    assert(final(v)@ =~= old(v)@ + two_digits(n as int));
}

pub fn push_three_digits(v: &mut Vec<char>, n: u16)
    requires
        n < 1000,
    ensures
        final(v)@ == old(v)@ + three_digits(n as int),
{
    v.push(digit_char_of((n / 100) as u8));
    v.push(digit_char_of((n / 10 % 10) as u8));
    v.push(digit_char_of((n % 10) as u8));
    assert(final(v)@ =~= old(v)@ + three_digits(n as int));
}

pub fn push_four_digits(v: &mut Vec<char>, n: u16)
    requires
        n < 10000,
    ensures
        final(v)@ == old(v)@ + four_digits(n as int),
{
    v.push(digit_char_of((n / 1000) as u8));
    v.push(digit_char_of((n / 100 % 10) as u8));
    v.push(digit_char_of((n / 10 % 10) as u8));
    v.push(digit_char_of((n % 10) as u8));
    assert(final(v)@ =~= old(v)@ + four_digits(n as int));
}

pub fn push_u64(v: &mut Vec<char>, n: u64)
    ensures
        final(v)@ == old(v)@ + dec_str(n as nat),
    decreases n,
{
    if n < 10 {
        v.push(digit_char_of(n as u8));
        assert(final(v)@ =~= old(v)@ + dec_str(n as nat));
    } else {
        push_u64(v, n / 10);
        v.push(digit_char_of((n % 10) as u8));
        assert(final(v)@ =~= old(v)@ + dec_str(n as nat));
    }
}

pub fn push_i64(v: &mut Vec<char>, n: i64)
    ensures
        final(v)@ == old(v)@ + dec_str_int(n as int),
{
    if n < 0 {
        v.push('-');
        let mag: u64 = (-(n + 1)) as u64 + 1;
        assert(mag == -(n as int));
        push_u64(v, mag);
        assert(final(v)@ =~= old(v)@ + dec_str_int(n as int));
    } else {
        push_u64(v, n as u64);
    }
}

/// Character-wise string equality.
pub fn str_eq(a: &str, b: &str) -> (r: bool)
    ensures
        r == (a@ == b@),
{
    let va = chars_of(a);
    let vb = chars_of(b);
    let n = va.len();
    if n != vb.len() {
        return false;
    }
    let mut k: usize = 0;
    while k < n
        invariant
            0 <= k <= n,
            n == va@.len() == vb@.len(),
            va@ == a@,
            vb@ == b@,
            forall|m: int| 0 <= m < k ==> va@[m] == vb@[m],
        decreases n - k,
    {
        if va[k] != vb[k] {
            return false;
        }
        k += 1;
    }
    proof {
        assert(a@ =~= b@);
    }
    true
}

/// The canonical numeral of a value, as a string.
pub fn render_u64(n: u64) -> (r: String)
    ensures
        r@ == dec_str(n as nat),
{
    let mut v: Vec<char> = Vec::new();
    push_u64(&mut v, n);
    proof {
        assert(Seq::<char>::empty() + dec_str(n as nat) =~= dec_str(n as nat));
    }
    string_from_chars(&v)
}

/// The canonical numeral of a signed value, as a string.
pub fn render_i64(n: i64) -> (r: String)
    ensures
        r@ == dec_str_int(n as int),
{
    let mut v: Vec<char> = Vec::new();
    push_i64(&mut v, n);
    proof {
        assert(Seq::<char>::empty() + dec_str_int(n as int) =~= dec_str_int(n as int));
    }
    string_from_chars(&v)
}

/// Reads a canonical numeral from `v[start..end]`; fails exactly when the
/// region is not canonical or its value does not fit.
pub fn parse_u64_region(v: &Vec<char>, start: usize, end: usize) -> (r: Option<u64>)
    requires
        start <= end <= v@.len(),
    ensures
        match r {
            Some(n) => is_canonical_digits(v@.subrange(start as int, end as int)) && digits_val(
                v@.subrange(start as int, end as int),
            ) == n,
            None => !(is_canonical_digits(v@.subrange(start as int, end as int)) && digits_val(
                v@.subrange(start as int, end as int),
            ) <= u64::MAX),
        },
{
    let ghost s = v@.subrange(start as int, end as int);
    if start == end {
        return None;
    }
    if v[start] == '0' && end - start > 1 {
        return None;
    }
    let mut n: u64 = 0;
    let mut i = start;
    while i < end
        invariant
            start <= i <= end <= v@.len(),
            s == v@.subrange(start as int, end as int),
            n == digits_val(v@.subrange(start as int, i as int)),
            all_digits(v@.subrange(start as int, i as int)),
        decreases end - i,
    {
        let ghost p = v@.subrange(start as int, i as int);
        let c = v[i];
        let d = match digit_of(c) {
            Some(d) => d,
            None => {
                assert(s[i - start] == c);
                return None;
            },
        };
        let ghost q = v@.subrange(start as int, i + 1);
        assert(q.drop_last() =~= p);
        assert(q.last() == c);
        if n > (u64::MAX - (d as u64)) / 10 {
            assert(digits_val(q) > u64::MAX) by {
                assert(n * 10 + d > u64::MAX) by (nonlinear_arith)
                    requires
                        n > (u64::MAX - (d as u64)) / 10,
                        d < 10,
                ;
            }
            proof {
                lemma_digits_val_prefix(s, i + 1 - start);
                assert(s.subrange(0, i + 1 - start) =~= q);
            }
            return None;
        }
        n = n * 10 + (d as u64);
        i += 1;
    }
    assert(s =~= v@.subrange(start as int, i as int));
    Some(n)
}

/// Reads a canonical signed numeral from `v[start..end]`; fails exactly when
/// the region is not canonical or its value does not fit.
pub fn parse_i64_region(v: &Vec<char>, start: usize, end: usize) -> (r: Option<i64>)
    requires
        start <= end <= v@.len(),
    ensures
        match r {
            Some(n) => is_canonical_int(v@.subrange(start as int, end as int)) && int_val(
                v@.subrange(start as int, end as int),
            ) == n,
            None => !(is_canonical_int(v@.subrange(start as int, end as int)) && i64::MIN <= int_val(
                v@.subrange(start as int, end as int),
            ) <= i64::MAX),
        },
{
    let ghost s = v@.subrange(start as int, end as int);
    if start < end && v[start] == '-' {
        assert(s[0] == '-');
        let mag = match parse_u64_region(v, start + 1, end) {
            Some(m) => m,
            None => {
                assert(s.skip(1) =~= v@.subrange(start + 1, end as int));
                return None;
            },
        };
        assert(s.skip(1) =~= v@.subrange(start + 1, end as int));
        if mag == 0 {
            return None;
        }
        if mag > 9223372036854775808 {
            return None;
        }
        if mag == 9223372036854775808 {
            Some(i64::MIN)
        } else {
            Some(-(mag as i64))
        }
    } else {
        let n = match parse_u64_region(v, start, end) {
            Some(m) => m,
            None => {
                return None;
            },
        };
        proof {
            if s.len() >= 1 && s[0] == '-' {
                assert(is_digit(s[0]));
                assert(false);
            }
        }
        if n > i64::MAX as u64 {
            return None;
        }
        Some(n as i64)
    }
}

} // verus!

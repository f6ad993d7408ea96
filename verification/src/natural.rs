//! Natural ordering of file names: runs of digits compare by their numeric value, so
//! `2.jpg` sorts before `10.jpg`, and ties fall back to plain byte order.

use std::cmp::Ordering;
use vstd::prelude::*;
use crate::text::{spec_to_lowercase, to_lowercase};

verus! {

/// Sign of `a - b`: -1, 0 or 1.
pub open spec fn compare_ints(a: int, b: int) -> int {
    if a < b {
        -1
    } else if a == b {
        0
    } else {
        1
    }
}

/// `first`, unless it is 0, in which case `second` decides.
pub open spec fn then_sign(first: int, second: int) -> int {
    if first == 0 {
        second
    } else {
        first
    }
}

/// The ordering that a comparison sign stands for.
pub open spec fn order_of(sign: int) -> Ordering {
    if sign < 0 {
        Ordering::Less
    } else if sign == 0 {
        Ordering::Equal
    } else {
        Ordering::Greater
    }
}

/// An ASCII decimal digit.
pub open spec fn is_digit(b: u8) -> bool {
    48 <= b <= 57
}

/// Length of the run of digits at the start of `s`.
pub open spec fn digit_run(s: Seq<u8>) -> nat
    decreases s.len(),
{
    if s.len() > 0 && is_digit(s[0]) {
        1 + digit_run(s.drop_first())
    } else {
        0
    }
}

/// A digit run without its leading zeroes, keeping at least one digit.
pub open spec fn trimmed(digits: Seq<u8>) -> Seq<u8>
    decreases digits.len(),
{
    if digits.len() > 1 && digits[0] == 48 {
        trimmed(digits.drop_first())
    } else {
        digits
    }
}

/// Lexicographic byte order (a proper prefix comes first).
pub open spec fn lex_order(a: Seq<u8>, b: Seq<u8>) -> int
    decreases a.len(),
{
    if a.len() == 0 || b.len() == 0 {
        compare_ints(a.len() as int, b.len() as int)
    } else if a[0] < b[0] {
        -1
    } else if a[0] > b[0] {
        1
    } else {
        lex_order(a.drop_first(), b.drop_first())
    }
}

/// How two digit runs compare: by numeric value (the trimmed runs by length, then by
/// digits), then the run with fewer leading zeroes first.
pub open spec fn digit_run_order(a: Seq<u8>, b: Seq<u8>) -> int {
    then_sign(
        then_sign(
            compare_ints(trimmed(a).len() as int, trimmed(b).len() as int),
            lex_order(trimmed(a), trimmed(b)),
        ),
        compare_ints(a.len() as int, b.len() as int),
    )
}

/// Natural order of two byte strings: where both continue with digits the digit runs
/// compare as numbers, other bytes compare by value, and when one string is used up the
/// shorter string comes first.
pub open spec fn natural_order(a: Seq<u8>, b: Seq<u8>) -> int
    decreases a.len(),
{
    if a.len() == 0 || b.len() == 0 {
        compare_ints(a.len() as int, b.len() as int)
    } else if is_digit(a[0]) && is_digit(b[0]) {
        let la = digit_run(a);
        let lb = digit_run(b);
        proof {
            lemma_digit_run_bound(a);
            lemma_digit_run_bound(b);
        }
        let order = digit_run_order(a.take(la as int), b.take(lb as int));
        if order != 0 {
            order
        } else {
            natural_order(a.skip(la as int), b.skip(lb as int))
        }
    } else if a[0] < b[0] {
        -1
    } else if a[0] > b[0] {
        1
    } else {
        natural_order(a.drop_first(), b.drop_first())
    }
}

/// The order of two file names: natural order of their lowercase UTF-8 bytes, ties
/// broken by plain byte order of the lowercase names.
pub open spec fn file_name_order(left: Seq<char>, right: Seq<char>) -> int {
    let l = vstd::utf8::encode_utf8(spec_to_lowercase(left));
    let r = vstd::utf8::encode_utf8(spec_to_lowercase(right));
    then_sign(natural_order(l, r), lex_order(l, r))
}

/// The digit run of `s` fits in `s` and consists of digits.
pub proof fn lemma_digit_run_bound(s: Seq<u8>)
    ensures
        digit_run(s) <= s.len(),
        forall|i: int| 0 <= i < digit_run(s) ==> is_digit(#[trigger] s[i]),
    decreases s.len(),
{
    if s.len() > 0 && is_digit(s[0]) {
        lemma_digit_run_bound(s.drop_first());
        assert forall|i: int| 0 <= i < digit_run(s) implies is_digit(#[trigger] s[i]) by {
            if i > 0 {
                assert(s[i] == s.drop_first()[i - 1]);
            }
        }
    }
}

/// Byte order is antisymmetric, and it finds two byte strings equal exactly when they are.
pub proof fn lemma_lex_order(a: Seq<u8>, b: Seq<u8>)
    ensures
        lex_order(b, a) == -lex_order(a, b),
        lex_order(a, b) == 0 <==> a == b,
        -1 <= lex_order(a, b) <= 1,
    decreases a.len(),
{
    if a.len() > 0 && b.len() > 0 && a[0] == b[0] {
        lemma_lex_order(a.drop_first(), b.drop_first());
        if a.drop_first() == b.drop_first() {
            assert(a =~= seq![a[0]] + a.drop_first());
            assert(b =~= seq![b[0]] + b.drop_first());
        }
        if a == b {
            assert(a.drop_first() == b.drop_first());
        }
    } else if a.len() == 0 && b.len() == 0 {
        assert(a =~= b);
    } else if a.len() > 0 && b.len() > 0 {
        assert(a[0] != b[0]);
        if a == b {
            assert(a[0] == b[0]);
        }
    }
}

/// Digit runs compare antisymmetrically.
pub proof fn lemma_digit_run_order(a: Seq<u8>, b: Seq<u8>)
    ensures
        digit_run_order(b, a) == -digit_run_order(a, b),
        -1 <= digit_run_order(a, b) <= 1,
{
    lemma_lex_order(trimmed(a), trimmed(b));
}

/// Natural order is antisymmetric: swapping the strings reverses the result, and a string
/// is equal to itself.
pub proof fn lemma_natural_order_antisymmetric(a: Seq<u8>, b: Seq<u8>)
    ensures
        natural_order(b, a) == -natural_order(a, b),
        -1 <= natural_order(a, b) <= 1,
    decreases a.len(),
{
    if a.len() == 0 || b.len() == 0 {
    } else if is_digit(a[0]) && is_digit(b[0]) {
        let la = digit_run(a);
        let lb = digit_run(b);
        lemma_digit_run_bound(a);
        lemma_digit_run_bound(b);
        lemma_digit_run_order(a.take(la as int), b.take(lb as int));
        if digit_run_order(a.take(la as int), b.take(lb as int)) == 0 {
            lemma_natural_order_antisymmetric(a.skip(la as int), b.skip(lb as int));
        }
    } else if a[0] == b[0] {
        lemma_natural_order_antisymmetric(a.drop_first(), b.drop_first());
    }
}

/// Every byte string is equal to itself in natural order.
pub proof fn lemma_natural_order_reflexive(a: Seq<u8>)
    ensures
        natural_order(a, a) == 0,
{
    lemma_natural_order_antisymmetric(a, a);
}

/// Byte order is transitive.
pub proof fn lemma_lex_order_transitive(a: Seq<u8>, b: Seq<u8>, c: Seq<u8>)
    requires
        lex_order(a, b) < 0,
        lex_order(b, c) < 0,
    ensures
        lex_order(a, c) < 0,
    decreases a.len(),
{
    if a.len() > 0 && b.len() > 0 && c.len() > 0 && a[0] == b[0] && b[0] == c[0] {
        lemma_lex_order_transitive(a.drop_first(), b.drop_first(), c.drop_first());
    }
}

/// A digit run is its trimmed form after some leading zeroes.
proof fn lemma_trimmed_suffix(digits: Seq<u8>)
    ensures
        trimmed(digits).len() <= digits.len(),
        trimmed(digits) == digits.skip(digits.len() - trimmed(digits).len()),
        forall|i: int| 0 <= i < digits.len() - trimmed(digits).len() ==> #[trigger] digits[i] == 48,
    decreases digits.len(),
{
    if digits.len() > 1 && digits[0] == 48 {
        let rest = digits.drop_first();
        lemma_trimmed_suffix(rest);
        assert(rest.skip(rest.len() - trimmed(rest).len()) =~= digits.skip(
            digits.len() - trimmed(digits).len(),
        ));
        assert forall|i: int| 0 <= i < digits.len() - trimmed(digits).len() implies #[trigger] digits[i]
            == 48 by {
            if i > 0 {
                assert(digits[i] == rest[i - 1]);
            }
        }
    } else {
        assert(digits.skip(0) =~= digits);
    }
}

/// Two digit runs tie exactly when they are the same run.
proof fn lemma_digit_run_order_ties(a: Seq<u8>, b: Seq<u8>)
    ensures
        digit_run_order(a, b) == 0 <==> a == b,
{
    lemma_lex_order(trimmed(a), trimmed(b));
    if digit_run_order(a, b) == 0 {
        lemma_trimmed_suffix(a);
        lemma_trimmed_suffix(b);
        let k = a.len() - trimmed(a).len();
        assert forall|i: int| 0 <= i < a.len() implies a[i] == b[i] by {
            if i >= k {
                assert(a[i] == a.skip(k)[i - k]);
                assert(b[i] == b.skip(k)[i - k]);
            }
        }
        assert(a =~= b);
    }
}

/// Digit runs are ordered transitively.
proof fn lemma_digit_run_order_transitive(a: Seq<u8>, b: Seq<u8>, c: Seq<u8>)
    requires
        digit_run_order(a, b) < 0,
        digit_run_order(b, c) < 0,
    ensures
        digit_run_order(a, c) < 0,
{
    lemma_lex_order(trimmed(a), trimmed(b));
    lemma_lex_order(trimmed(b), trimmed(c));
    lemma_lex_order(trimmed(a), trimmed(c));
    if lex_order(trimmed(a), trimmed(b)) < 0 && lex_order(trimmed(b), trimmed(c)) < 0 {
        lemma_lex_order_transitive(trimmed(a), trimmed(b), trimmed(c));
    }
}

/// Natural order ties two byte strings exactly when they are equal.
pub proof fn lemma_natural_order_ties(a: Seq<u8>, b: Seq<u8>)
    ensures
        natural_order(a, b) == 0 <==> a == b,
    decreases a.len(),
{
    if a == b {
        lemma_natural_order_reflexive(a);
    } else if a.len() == 0 || b.len() == 0 {
        if a.len() == 0 && b.len() == 0 {
            assert(a =~= b);
        }
    } else if is_digit(a[0]) && is_digit(b[0]) {
        let la = digit_run(a);
        let lb = digit_run(b);
        lemma_digit_run_bound(a);
        lemma_digit_run_bound(b);
        lemma_digit_run_order_ties(a.take(la as int), b.take(lb as int));
        if digit_run_order(a.take(la as int), b.take(lb as int)) == 0 {
            lemma_natural_order_ties(a.skip(la as int), b.skip(lb as int));
            if natural_order(a, b) == 0 {
                assert(a =~= a.take(la as int) + a.skip(la as int));
                assert(b =~= b.take(lb as int) + b.skip(lb as int));
            }
        }
    } else if a[0] == b[0] {
        lemma_natural_order_ties(a.drop_first(), b.drop_first());
        if natural_order(a, b) == 0 {
            assert(a =~= seq![a[0]] + a.drop_first());
            assert(b =~= seq![b[0]] + b.drop_first());
        }
    }
}

/// Natural order is transitive.
pub proof fn lemma_natural_order_transitive(a: Seq<u8>, b: Seq<u8>, c: Seq<u8>)
    requires
        natural_order(a, b) < 0,
        natural_order(b, c) < 0,
    ensures
        natural_order(a, c) < 0,
    decreases a.len(),
{
    if a.len() > 0 && b.len() > 0 && c.len() > 0 {
        if is_digit(a[0]) && is_digit(b[0]) && is_digit(c[0]) {
            let la = digit_run(a);
            let lb = digit_run(b);
            let lc = digit_run(c);
            lemma_digit_run_bound(a);
            lemma_digit_run_bound(b);
            lemma_digit_run_bound(c);
            let ra = a.take(la as int);
            let rb = b.take(lb as int);
            let rc = c.take(lc as int);
            lemma_digit_run_order_ties(ra, rb);
            lemma_digit_run_order_ties(rb, rc);
            lemma_digit_run_order_ties(ra, rc);
            lemma_digit_run_order(ra, rb);
            lemma_digit_run_order(rb, rc);
            if digit_run_order(ra, rb) < 0 && digit_run_order(rb, rc) < 0 {
                lemma_digit_run_order_transitive(ra, rb, rc);
            } else if digit_run_order(ra, rb) == 0 && digit_run_order(rb, rc) == 0 {
                lemma_natural_order_transitive(a.skip(la as int), b.skip(lb as int), c.skip(lc as int));
            }
        } else if !is_digit(a[0]) && !is_digit(b[0]) && !is_digit(c[0]) && a[0] == b[0] && b[0]
            == c[0] {
            lemma_natural_order_transitive(a.drop_first(), b.drop_first(), c.drop_first());
        }
    }
}

/// The file-name order is antisymmetric: comparing `right` with `left` gives the opposite
/// of comparing `left` with `right`.
pub proof fn file_name_order_is_antisymmetric(left: Seq<char>, right: Seq<char>)
    ensures
        file_name_order(right, left) == -file_name_order(left, right),
{
    let l = vstd::utf8::encode_utf8(spec_to_lowercase(left));
    let r = vstd::utf8::encode_utf8(spec_to_lowercase(right));
    lemma_natural_order_antisymmetric(l, r);
    lemma_lex_order(l, r);
}

/// Two file names are tied in the file-name order exactly when their lowercase forms are
/// the same text.
pub proof fn file_name_order_ties_only_equal_names(left: Seq<char>, right: Seq<char>)
    ensures
        file_name_order(left, right) == 0 <==> spec_to_lowercase(left) == spec_to_lowercase(right),
{
    let l = vstd::utf8::encode_utf8(spec_to_lowercase(left));
    let r = vstd::utf8::encode_utf8(spec_to_lowercase(right));
    lemma_natural_order_antisymmetric(l, r);
    lemma_lex_order(l, r);
    if l == r {
        vstd::utf8::encode_utf8_decode_utf8(spec_to_lowercase(left));
        vstd::utf8::encode_utf8_decode_utf8(spec_to_lowercase(right));
    }
}

/// The file-name order is transitive: a name ordered before a second one that is ordered
/// before a third is ordered before the third.
pub proof fn file_name_order_is_transitive(first: Seq<char>, second: Seq<char>, third: Seq<char>)
    requires
        file_name_order(first, second) < 0,
        file_name_order(second, third) < 0,
    ensures
        file_name_order(first, third) < 0,
{
    let a = vstd::utf8::encode_utf8(spec_to_lowercase(first));
    let b = vstd::utf8::encode_utf8(spec_to_lowercase(second));
    let c = vstd::utf8::encode_utf8(spec_to_lowercase(third));
    lemma_natural_order_ties(a, b);
    lemma_natural_order_ties(b, c);
    lemma_natural_order_ties(a, c);
    lemma_lex_order(a, b);
    lemma_lex_order(b, c);
    lemma_lex_order(a, c);
    lemma_natural_order_transitive(a, b, c);
}

/// Names that are not ordered after one another chain: if `first` is not after `second`
/// and `second` is not after `third`, then `first` is not after `third`.
pub proof fn file_name_order_chains_ties(first: Seq<char>, second: Seq<char>, third: Seq<char>)
    requires
        file_name_order(first, second) <= 0,
        file_name_order(second, third) <= 0,
    ensures
        file_name_order(first, third) <= 0,
{
    file_name_order_ties_only_equal_names(first, second);
    file_name_order_ties_only_equal_names(second, third);
    if file_name_order(first, second) < 0 && file_name_order(second, third) < 0 {
        file_name_order_is_transitive(first, second, third);
    }
}

/// The end of the digit run of `value` that starts at `start`.
fn digit_run_end(value: &[u8], start: usize) -> (r: usize)
    requires
        start <= value@.len(),
    ensures
        r == start + digit_run(value@.skip(start as int)),
        r <= value@.len(),
{
    let mut end = start;
    while end < value.len() && 48 <= value[end] && value[end] <= 57
        invariant
            start <= end <= value@.len(),
            digit_run(value@.skip(start as int)) == (end - start) + digit_run(value@.skip(end as int)),
        decreases value@.len() - end,
    {
        assert(value@.skip(end as int).drop_first() =~= value@.skip(end + 1));
        end = end + 1;
    }
    end
}

/// The start of the trimmed form of the digits `value[start..end]`.
fn trim_zeroes(value: &[u8], start: usize, end: usize) -> (r: usize)
    requires
        start <= end <= value@.len(),
    ensures
        start <= r <= end,
        value@.subrange(r as int, end as int) == trimmed(value@.subrange(start as int, end as int)),
{
    let mut first = start;
    while end - first > 1 && value[first] == 48
        invariant
            start <= first <= end,
            end <= value@.len(),
            trimmed(value@.subrange(start as int, end as int)) == trimmed(
                value@.subrange(first as int, end as int),
            ),
        decreases end - first,
    {
        assert(value@.subrange(first as int, end as int).drop_first() =~= value@.subrange(
            first + 1,
            end as int,
        ));
        first = first + 1;
    }
    first
}

/// Byte order of `a[a_start..a_end]` and `b[b_start..b_end]`, as a sign.
fn compare_bytes(a: &[u8], a_start: usize, a_end: usize, b: &[u8], b_start: usize, b_end: usize) -> (r: i8)
    requires
        a_start <= a_end <= a@.len(),
        b_start <= b_end <= b@.len(),
    ensures
        r as int == lex_order(
            a@.subrange(a_start as int, a_end as int),
            b@.subrange(b_start as int, b_end as int),
        ),
{
    let mut i = a_start;
    let mut j = b_start;
    while i < a_end && j < b_end
        invariant
            a_start <= i <= a_end <= a@.len(),
            b_start <= j <= b_end <= b@.len(),
            lex_order(
                a@.subrange(a_start as int, a_end as int),
                b@.subrange(b_start as int, b_end as int),
            ) == lex_order(
                a@.subrange(i as int, a_end as int),
                b@.subrange(j as int, b_end as int),
            ),
        decreases a_end - i,
    {
        if a[i] < b[j] {
            return -1;
        }
        if a[i] > b[j] {
            return 1;
        }
        assert(a@.subrange(i as int, a_end as int).drop_first() =~= a@.subrange(i + 1, a_end as int));
        assert(b@.subrange(j as int, b_end as int).drop_first() =~= b@.subrange(j + 1, b_end as int));
        i = i + 1;
        j = j + 1;
    }
    let left_rest = a_end - i;
    let right_rest = b_end - j;
    if left_rest < right_rest {
        -1
    } else if left_rest == right_rest {
        0
    } else {
        1
    }
}

/// Natural order of two byte strings, as a sign.
fn natural_sign(left: &[u8], right: &[u8]) -> (r: i8)
    ensures
        r as int == natural_order(left@, right@),
{
    let mut left_index: usize = 0;
    let mut right_index: usize = 0;
    assert(left@.skip(0) =~= left@);
    assert(right@.skip(0) =~= right@);
    while left_index < left.len() && right_index < right.len()
        invariant
            left_index == right_index,
            left_index <= left@.len(),
            right_index <= right@.len(),
            natural_order(left@, right@) == natural_order(
                left@.skip(left_index as int),
                right@.skip(right_index as int),
            ),
        decreases left@.len() - left_index,
    {
        let ghost a = left@.skip(left_index as int);
        let ghost b = right@.skip(right_index as int);
        if 48 <= left[left_index] && left[left_index] <= 57 && 48 <= right[right_index]
            && right[right_index] <= 57 {
            let left_end = digit_run_end(left, left_index);
            let right_end = digit_run_end(right, right_index);
            let left_digits = trim_zeroes(left, left_index, left_end);
            let right_digits = trim_zeroes(right, right_index, right_end);
            proof {
                assert(a.take(digit_run(a) as int) =~= left@.subrange(left_index as int, left_end as int));
                assert(b.take(digit_run(b) as int) =~= right@.subrange(right_index as int, right_end as int));
                assert(a.skip(digit_run(a) as int) =~= left@.skip(left_end as int));
                assert(b.skip(digit_run(b) as int) =~= right@.skip(right_end as int));
            }
            let left_len = left_end - left_digits;
            let right_len = right_end - right_digits;
            if left_len < right_len {
                return -1;
            }
            if left_len > right_len {
                return 1;
            }
            let digits = compare_bytes(left, left_digits, left_end, right, right_digits, right_end);
            if digits != 0 {
                return digits;
            }
            let left_run = left_end - left_index;
            let right_run = right_end - right_index;
            if left_run < right_run {
                return -1;
            }
            if left_run > right_run {
                return 1;
            }
            left_index = left_end;
            right_index = right_end;
            continue;
        }
        if left[left_index] < right[right_index] {
            return -1;
        }
        if left[left_index] > right[right_index] {
            return 1;
        }
        assert(a.drop_first() =~= left@.skip(left_index + 1));
        assert(b.drop_first() =~= right@.skip(right_index + 1));
        left_index = left_index + 1;
        right_index = right_index + 1;
    }
    let left_len = left.len();
    let right_len = right.len();
    if left_len < right_len {
        -1
    } else if left_len == right_len {
        0
    } else {
        1
    }
}

/// The ordering for comparison sign `sign`.
fn ordering_from_sign(sign: i8) -> (r: Ordering)
    ensures
        sign < 0 ==> r == Ordering::Less,
        sign == 0 ==> r == Ordering::Equal,
        sign > 0 ==> r == Ordering::Greater,
{
    if sign < 0 {
        Ordering::Less
    } else if sign == 0 {
        Ordering::Equal
    } else {
        Ordering::Greater
    }
}

/// Natural order of two texts, by their UTF-8 bytes.
pub fn natural_compare(left: &str, right: &str) -> (r: Ordering)
    ensures
        r == order_of(natural_order(
            vstd::utf8::encode_utf8(left@),
            vstd::utf8::encode_utf8(right@),
        )),
{
    let sign = natural_sign(left.as_bytes(), right.as_bytes());
    ordering_from_sign(sign)
}

/// Sign of the file-name order of `left` and `right`.
pub fn file_name_sign(left: &str, right: &str) -> (r: i8)
    ensures
        r as int == file_name_order(left@, right@),
{
    let left_lower = to_lowercase(left);
    let right_lower = to_lowercase(right);
    let l = left_lower.as_str().as_bytes();
    let r = right_lower.as_str().as_bytes();
    assert(l@ == vstd::utf8::encode_utf8(spec_to_lowercase(left@)));
    assert(r@ == vstd::utf8::encode_utf8(spec_to_lowercase(right@)));
    assert(l@.subrange(0, l@.len() as int) =~= l@);
    assert(r@.subrange(0, r@.len() as int) =~= r@);
    let natural = natural_sign(l, r);
    if natural != 0 {
        natural
    } else {
        compare_bytes(l, 0, l.len(), r, 0, r.len())
    }
}

/// Compares two file names in natural order, ignoring case; names that compare equal
/// that way are ordered by their lowercase bytes.
pub fn compare_file_names(left: &str, right: &str) -> (r: Ordering)
    ensures
        r == order_of(file_name_order(left@, right@)),
{
    let sign = file_name_sign(left, right);
    ordering_from_sign(sign)
}

} // verus!

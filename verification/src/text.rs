//! Character-level utilities: searching, decimal numerals, and
//! lexicographic comparison of character sequences.

use vstd::prelude::*;

verus! {

use core::cmp::Ordering;

/// The characters that separate components of the main version body.
pub open spec fn is_delim(c: char) -> bool {
    c == '.' || c == '-'
}

/// Index of the first occurrence of `c` in `s` at or after position `i`.
pub open spec fn find_at(s: Seq<char>, c: char, i: int) -> Option<int>
    decreases s.len() - i,
{
    if i < 0 || i >= s.len() {
        None
    } else if s[i] == c {
        Some(i)
    } else {
        find_at(s, c, i + 1)
    }
}

/// Index of the first occurrence of `c` in `s`.
pub open spec fn find_char(s: Seq<char>, c: char) -> Option<int> {
    find_at(s, c, 0)
}

/// Index of the first component delimiter in `s` at or after position `i`.
pub open spec fn find_delim_at(s: Seq<char>, i: int) -> Option<int>
    decreases s.len() - i,
{
    if i < 0 || i >= s.len() {
        None
    } else if is_delim(s[i]) {
        Some(i)
    } else {
        find_delim_at(s, i + 1)
    }
}

/// What `find_at` returns: the least index holding `c`, if any.
pub proof fn lemma_find_at_props(s: Seq<char>, c: char, i: int)
    requires
        0 <= i <= s.len(),
    ensures
        match find_at(s, c, i) {
            Some(j) => i <= j < s.len() && s[j] == c && (forall|k: int| i <= k < j ==> s[k] != c),
            None => forall|k: int| i <= k < s.len() ==> s[k] != c,
        },
    decreases s.len() - i,
{
    if i < s.len() && s[i] != c {
        lemma_find_at_props(s, c, i + 1);
    }
}

/// What `find_delim_at` returns: the least index holding a delimiter, if any.
pub proof fn lemma_find_delim_at_props(s: Seq<char>, i: int)
    requires
        0 <= i <= s.len(),
    ensures
        match find_delim_at(s, i) {
            Some(j) => i <= j < s.len() && is_delim(s[j]) && (forall|k: int|
                i <= k < j ==> !is_delim(s[k])),
            None => forall|k: int| i <= k < s.len() ==> !is_delim(s[k]),
        },
    decreases s.len() - i,
{
    if i < s.len() && !is_delim(s[i]) {
        lemma_find_delim_at_props(s, i + 1);
    }
}

/// A decimal digit.
pub open spec fn is_digit(c: char) -> bool {
    '0' <= c && c <= '9'
}

/// The value of a decimal digit.
pub open spec fn digit_val(c: char) -> int {
    c as int - '0' as int
}

/// `s` is one or more decimal digits and nothing else.
pub open spec fn all_digits(s: Seq<char>) -> bool {
    s.len() >= 1 && forall|i: int| 0 <= i < s.len() ==> is_digit(s[i])
}

/// The number a digit string denotes, most significant digit first.
pub open spec fn digits_val(s: Seq<char>) -> int
    decreases s.len(),
{
    if s.len() == 0 {
        0
    } else {
        digits_val(s.drop_last()) * 10 + digit_val(s.last())
    }
}

/// The digits of a numeral: the whole of `s`, less an optional leading `+`.
pub open spec fn numeral_body(s: Seq<char>) -> Seq<char> {
    if s.len() >= 1 && s[0] == '+' {
        s.drop_first()
    } else {
        s
    }
}

/// What `str::parse::<u64>` accepts: an optional leading `+`, then one or
/// more decimal digits whose value fits in a `u64`.
pub open spec fn spec_parse_u64(s: Seq<char>) -> Option<u64> {
    if all_digits(numeral_body(s)) && digits_val(numeral_body(s)) <= u64::MAX {
        Some(digits_val(numeral_body(s)) as u64)
    } else {
        None
    }
}

/// The value of a digit string is never negative.
pub proof fn lemma_digits_val_nonneg(s: Seq<char>)
    requires
        forall|i: int| 0 <= i < s.len() ==> is_digit(s[i]),
    ensures
        digits_val(s) >= 0,
    decreases s.len(),
{
    if s.len() > 0 {
        lemma_digits_val_nonneg(s.drop_last());
    }
}

/// The value of a digit string is at least the value of any of its prefixes.
pub proof fn lemma_digits_val_prefix_le(s: Seq<char>, k: int)
    requires
        0 <= k <= s.len(),
        forall|i: int| 0 <= i < s.len() ==> is_digit(s[i]),
    ensures
        digits_val(s.subrange(0, k)) <= digits_val(s),
    decreases s.len() - k,
{
    if k == s.len() {
        assert(s.subrange(0, k) =~= s);
    } else {
        lemma_digits_val_prefix_le(s, k + 1);
        let p = s.subrange(0, k);
        let q = s.subrange(0, k + 1);
        assert(q.drop_last() =~= p);
        lemma_digits_val_nonneg(p);
        assert(digits_val(q) == digits_val(p) * 10 + digit_val(s[k]));
        assert(digits_val(p) * 10 >= digits_val(p)) by (nonlinear_arith)
            requires digits_val(p) >= 0;
    }
}

/// Reads `s` as Rust's `u64` parser does: an optional leading `+`, then
/// decimal digits; anything else, or a value past `u64::MAX`, is `None`.
pub fn parse_u64(s: &str) -> (r: Option<u64>)
    ensures
        r == spec_parse_u64(s@),
{
    let n = s.unicode_len();
    let start: usize = if n >= 1 && s.get_char(0) == '+' {
        1
    } else {
        0
    };
    let ghost body = numeral_body(s@);
    proof {
        assert(body =~= s@.subrange(start as int, n as int));
    }
    if start == n {
        return None;
    }
    let mut acc: u64 = 0;
    let mut i: usize = start;
    while i < n
        invariant
            start <= i <= n,
            n == s@.len(),
            start == 0 || start == 1,
            body == numeral_body(s@),
            body =~= s@.subrange(start as int, n as int),
            forall|k: int| 0 <= k < i - start ==> is_digit(body[k]),
            acc == digits_val(body.subrange(0, i - start)),
        decreases n - i,
    {
        let c = s.get_char(i);
        if !('0' <= c && c <= '9') {
            assert(!all_digits(body)) by {
                assert(body[i - start] == c);
                assert(!is_digit(body[i - start]));
            }
            return None;
        }
        let d: u64 = (c as u32 - '0' as u32) as u64;
        let ghost pre = body.subrange(0, i - start);
        let ghost pre1 = body.subrange(0, i + 1 - start);
        proof {
            assert(pre1.drop_last() =~= pre);
            assert(pre1.last() == body[i - start]);
            assert(digits_val(pre1) == digits_val(pre) * 10 + d);
        }
        if acc > (u64::MAX - d) / 10 {
            // The digits seen so far already exceed `u64::MAX`, and more
            // digits can only increase the value.
            proof {
                assert(digits_val(pre1) > u64::MAX) by (nonlinear_arith)
                    requires
                        digits_val(pre1) == digits_val(pre) * 10 + d,
                        digits_val(pre) == acc,
                        acc > (u64::MAX - d) / 10,
                        0 <= d <= 9;
                if all_digits(body) {
                    lemma_digits_val_prefix_le(body, i + 1 - start);
                }
            }
            return None;
        }
        proof {
            assert(acc * 10 + d <= u64::MAX) by (nonlinear_arith)
                requires
                    acc <= (u64::MAX - d) / 10,
                    0 <= d <= 9,
                    0 <= acc;
        }
        acc = acc * 10 + d;
        i = i + 1;
    }
    proof {
        assert(body.subrange(0, n - start) =~= body);
    }
    Some(acc)
}

/// Position of the first occurrence of `c` in `s`, scanning left to right.
pub fn str_find_char(s: &str, c: char) -> (r: Option<usize>)
    ensures
        match r {
            Some(j) => find_char(s@, c) == Some(j as int),
            None => find_char(s@, c) is None,
        },
{
    let n = s.unicode_len();
    let mut i: usize = 0;
    while i < n
        invariant
            0 <= i <= n,
            n == s@.len(),
            find_at(s@, c, 0) == find_at(s@, c, i as int),
        decreases n - i,
    {
        if s.get_char(i) == c {
            return Some(i);
        }
        i = i + 1;
    }
    None
}

/// Position of the first component delimiter in `s`.
pub fn str_find_delim(s: &str) -> (r: Option<usize>)
    ensures
        match r {
            Some(j) => find_delim_at(s@, 0) == Some(j as int),
            None => find_delim_at(s@, 0) is None,
        },
{
    let n = s.unicode_len();
    let mut i: usize = 0;
    while i < n
        invariant
            0 <= i <= n,
            n == s@.len(),
            find_delim_at(s@, 0) == find_delim_at(s@, i as int),
        decreases n - i,
    {
        let ch = s.get_char(i);
        if ch == '.' || ch == '-' {
            return Some(i);
        }
        i = i + 1;
    }
    None
}

/// `c` occurs nowhere in `s`.
pub open spec fn no_char(s: Seq<char>, c: char) -> bool {
    forall|k: int| 0 <= k < s.len() ==> s[k] != c
}

/// A first occurrence that is in plain sight pins the search down.
pub proof fn lemma_find_at_exact(s: Seq<char>, c: char, j: int)
    requires
        0 <= j < s.len(),
        s[j] == c,
        forall|k: int| 0 <= k < j ==> s[k] != c,
    ensures
        find_at(s, c, 0) == Some(j),
{
    lemma_find_at_props(s, c, 0);
}

/// A character that occurs nowhere is not found.
pub proof fn lemma_find_at_absent(s: Seq<char>, c: char)
    requires
        no_char(s, c),
    ensures
        find_at(s, c, 0) is None,
{
    lemma_find_at_props(s, c, 0);
}

/// A first delimiter in plain sight pins the search down.
pub proof fn lemma_find_delim_exact(s: Seq<char>, j: int)
    requires
        0 <= j < s.len(),
        is_delim(s[j]),
        forall|k: int| 0 <= k < j ==> !is_delim(s[k]),
    ensures
        find_delim_at(s, 0) == Some(j),
{
    lemma_find_delim_at_props(s, 0);
}

/// Text free of both delimiters yields no delimiter position.
pub proof fn lemma_find_delim_absent(s: Seq<char>)
    requires
        no_char(s, '.'),
        no_char(s, '-'),
    ensures
        find_delim_at(s, 0) is None,
{
    lemma_find_delim_at_props(s, 0);
}

/// A rendered numeral consists of decimal digits alone.
pub proof fn lemma_u64_digits_are_digits(x: int)
    requires
        x >= 0,
    ensures
        all_digits(spec_u64_digits(x)),
    decreases x,
{
    if x >= 10 {
        lemma_u64_digits_are_digits(x / 10);
        let d = spec_u64_digits(x / 10);
        let whole = d.push(digit_char(x % 10));
        assert forall|k: int| 0 <= k < whole.len() implies is_digit(#[trigger] whole[k]) by {
            if k < d.len() {
                assert(is_digit(d[k]));
            }
        }
    }
}

/// Reading a rendered numeral back gives the value it came from.
pub proof fn lemma_u64_digits_val(x: int)
    requires
        x >= 0,
    ensures
        digits_val(spec_u64_digits(x)) == x,
    decreases x,
{
    if x >= 10 {
        lemma_u64_digits_val(x / 10);
        let d = spec_u64_digits(x / 10);
        let whole = d.push(digit_char(x % 10));
        assert(whole.drop_last() =~= d);
        assert(whole.last() == digit_char(x % 10));
        assert(digit_val(digit_char(x % 10)) == x % 10);
        assert(digits_val(whole) == digits_val(d) * 10 + (x % 10));
        assert(x == (x / 10) * 10 + x % 10);
        assert(spec_u64_digits(x) == whole);
    } else {
        let whole = seq![digit_char(x)];
        assert(whole.drop_last() =~= Seq::<char>::empty());
        assert(digits_val(Seq::<char>::empty()) == 0);
        assert(whole.last() == digit_char(x));
        assert(digit_val(digit_char(x)) == x);
    }
}

/// A rendered `u64` parses back to the same value.
pub proof fn lemma_parse_u64_of_digits(e: u64)
    ensures
        spec_parse_u64(spec_u64_digits(e as int)) == Some(e),
{
    let d = spec_u64_digits(e as int);
    lemma_u64_digits_are_digits(e as int);
    lemma_u64_digits_val(e as int);
    assert(is_digit(d[0]));
    assert(d[0] != '+');
    assert(numeral_body(d) == d);
}

/// Lexicographic order on character sequences, by code point; a proper
/// prefix ranks below the longer sequence.
pub open spec fn spec_cmp_seq(a: Seq<char>, b: Seq<char>) -> Ordering
    decreases a.len(),
{
    if a.len() == 0 && b.len() == 0 {
        Ordering::Equal
    } else if a.len() == 0 {
        Ordering::Less
    } else if b.len() == 0 {
        Ordering::Greater
    } else if a[0] < b[0] {
        Ordering::Less
    } else if b[0] < a[0] {
        Ordering::Greater
    } else {
        spec_cmp_seq(a.drop_first(), b.drop_first())
    }
}

/// Compares two strings lexicographically by code point, as `str::cmp` does.
pub fn compare_str(a: &str, b: &str) -> (r: Ordering)
    ensures
        r == spec_cmp_seq(a@, b@),
{
    let an = a.unicode_len();
    let bn = b.unicode_len();
    let mut i: usize = 0;
    proof {
        assert(a@.skip(0) =~= a@);
        assert(b@.skip(0) =~= b@);
    }
    while i < an && i < bn
        invariant
            0 <= i <= an,
            0 <= i <= bn,
            an == a@.len(),
            bn == b@.len(),
            spec_cmp_seq(a@, b@) == spec_cmp_seq(a@.skip(i as int), b@.skip(i as int)),
        decreases an - i,
    {
        let ca = a.get_char(i);
        let cb = b.get_char(i);
        proof {
            assert(a@.skip(i as int)[0] == ca);
            assert(b@.skip(i as int)[0] == cb);
        }
        if ca < cb {
            return Ordering::Less;
        }
        if cb < ca {
            return Ordering::Greater;
        }
        proof {
            assert(a@.skip(i as int).drop_first() =~= a@.skip(i + 1));
            assert(b@.skip(i as int).drop_first() =~= b@.skip(i + 1));
        }
        i = i + 1;
    }
    proof {
        assert(a@.skip(i as int).len() == an - i);
        assert(b@.skip(i as int).len() == bn - i);
    }
    if an == bn {
        Ordering::Equal
    } else if i == an {
        Ordering::Less
    } else {
        Ordering::Greater
    }
}

/// The character of a single decimal digit.
pub open spec fn digit_char(d: int) -> char {
    if d == 0 {
        '0'
    } else if d == 1 {
        '1'
    } else if d == 2 {
        '2'
    } else if d == 3 {
        '3'
    } else if d == 4 {
        '4'
    } else if d == 5 {
        '5'
    } else if d == 6 {
        '6'
    } else if d == 7 {
        '7'
    } else if d == 8 {
        '8'
    } else {
        '9'
    }
}

/// The decimal numeral of `x`, most significant digit first, no sign and
/// no leading zero except for `x == 0` itself.
pub open spec fn spec_u64_digits(x: int) -> Seq<char>
    decreases x,
{
    if x < 0 {
        Seq::empty()
    } else if x < 10 {
        seq![digit_char(x)]
    } else {
        spec_u64_digits(x / 10).push(digit_char(x % 10))
    }
}

/// The one-character string of a decimal digit.
fn digit_str(d: u64) -> (r: &'static str)
    requires
        d < 10,
    ensures
        r@ == seq![digit_char(d as int)],
{
    if d == 0 {
        proof { reveal_strlit("0"); }
        let r = "0";
        assert(r@ =~= seq![digit_char(0int)]);
        r
    } else if d == 1 {
        proof { reveal_strlit("1"); }
        let r = "1";
        assert(r@ =~= seq![digit_char(1int)]);
        r
    } else if d == 2 {
        proof { reveal_strlit("2"); }
        let r = "2";
        assert(r@ =~= seq![digit_char(2int)]);
        r
    } else if d == 3 {
        proof { reveal_strlit("3"); }
        let r = "3";
        assert(r@ =~= seq![digit_char(3int)]);
        r
    } else if d == 4 {
        proof { reveal_strlit("4"); }
        let r = "4";
        assert(r@ =~= seq![digit_char(4int)]);
        r
    } else if d == 5 {
        proof { reveal_strlit("5"); }
        let r = "5";
        assert(r@ =~= seq![digit_char(5int)]);
        r
    } else if d == 6 {
        proof { reveal_strlit("6"); }
        let r = "6";
        assert(r@ =~= seq![digit_char(6int)]);
        r
    } else if d == 7 {
        proof { reveal_strlit("7"); }
        let r = "7";
        assert(r@ =~= seq![digit_char(7int)]);
        r
    } else if d == 8 {
        proof { reveal_strlit("8"); }
        let r = "8";
        assert(r@ =~= seq![digit_char(8int)]);
        r
    } else {
        proof { reveal_strlit("9"); }
        let r = "9";
        assert(r@ =~= seq![digit_char(9int)]);
        r
    }
}

/// Renders `x` in decimal, as `u64`'s display does.
pub fn u64_digits(x: u64) -> (r: String)
    ensures
        r@ == spec_u64_digits(x as int),
    decreases x,
{
    if x < 10 {
        String::from_str(digit_str(x))
    } else {
        let mut r = u64_digits(x / 10);
        r.append(digit_str(x % 10));
        proof {
            assert(r@ =~= spec_u64_digits((x / 10) as int).push(digit_char((x % 10) as int)));
        }
        r
    }
}

} // verus!

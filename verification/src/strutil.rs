//! Small text utilities shared by the request parser and the router:
//! turning raw bytes into strings, scanning decoded text for delimiters,
//! and reading a decimal number out of a header value.

use vstd::prelude::*;

verus! {

use vstd::string::StrSliceExecFns;
use vstd::utf8::decode_utf8;
use vstd::utf8::valid_utf8;

/// What `String::from_utf8_lossy` returns on arbitrary bytes; the result
/// depends on the bytes alone.
pub uninterp spec fn lossy_decoded(bytes: Seq<u8>) -> Seq<char>;

/// Relies on `core::str::from_utf8`: it succeeds exactly on UTF-8-valid
/// bytes and returns them decoded.
#[verifier::external_body]
pub(crate) fn bytes_as_str(bytes: &[u8]) -> (r: Option<&str>)
    ensures
        r is Some <==> valid_utf8(bytes@),
        r matches Some(s) ==> s@ == decode_utf8(bytes@),
{
    core::str::from_utf8(bytes).ok()
}

/// Relies on `String::from_utf8_lossy`: the result is a function of the
/// bytes alone, and bytes that already are valid UTF-8 come back decoded
/// unchanged.
#[verifier::external_body]
pub(crate) fn bytes_to_string_lossy(bytes: &[u8]) -> (r: String)
    ensures
        r@ == lossy_decoded(bytes@),
        valid_utf8(bytes@) ==> r@ == decode_utf8(bytes@),
{
    String::from_utf8_lossy(bytes).into_owned()
}

/// Index of the first occurrence of `c` in `s` at or after `from`, or -1.
pub open spec fn spec_find_char(s: Seq<char>, c: char, from: int) -> int
    decreases s.len() - from,
{
    if from < 0 || from >= s.len() {
        -1
    } else if s[from] == c {
        from
    } else {
        spec_find_char(s, c, from + 1)
    }
}

/// First occurrence of `c` in `s` at or after `from`, if any.
pub fn find_char_from(s: &str, c: char, from: usize) -> (r: Option<usize>)
    ensures
        match r {
            Some(i) => from <= i < s@.len() && i == spec_find_char(s@, c, from as int),
            None => spec_find_char(s@, c, from as int) == -1,
        },
{
    let n = s.unicode_len();
    if from >= n {
        return None;
    }
    let mut i = from;
    while i < n
        invariant
            from <= i <= n,
            n == s@.len(),
            spec_find_char(s@, c, from as int) == spec_find_char(s@, c, i as int),
        decreases n - i,
    {
        if s.get_char(i) == c {
            return Some(i);
        }
        i += 1;
    }
    None
}

/// Does `pat` occur in `s` starting at position `at`?
pub open spec fn spec_occurs_at(s: Seq<char>, pat: Seq<char>, at: int) -> bool {
    0 <= at && at + pat.len() <= s.len() && s.subrange(at, at + pat.len()) == pat
}

pub fn occurs_at(s: &str, pat: &str, at: usize) -> (r: bool)
    ensures
        r == spec_occurs_at(s@, pat@, at as int),
{
    let n = s.unicode_len();
    let m = pat.unicode_len();
    if m > n || at > n - m {
        assert(!spec_occurs_at(s@, pat@, at as int));
        return false;
    }
    let mut j: usize = 0;
    while j < m
        invariant
            0 <= j <= m,
            n == s@.len(),
            m == pat@.len(),
            at + m <= n,
            forall|k: int| 0 <= k < j ==> s@[at + k] == pat@[k],
        decreases m - j,
    {
        if s.get_char(at + j) != pat.get_char(j) {
            assert(s@.subrange(at as int, at + pat@.len())[j as int] != pat@[j as int]);
            return false;
        }
        j += 1;
    }
    assert(s@.subrange(at as int, at + pat@.len()) =~= pat@);
    true
}

/// Does `s` end with `pat`?
pub open spec fn spec_ends_with(s: Seq<char>, pat: Seq<char>) -> bool {
    spec_occurs_at(s, pat, s.len() - pat.len())
}

pub fn ends_with(s: &str, pat: &str) -> (r: bool)
    ensures
        r == spec_ends_with(s@, pat@),
{
    let n = s.unicode_len();
    let m = pat.unicode_len();
    if m > n {
        return false;
    }
    occurs_at(s, pat, n - m)
}

/// Index of the last occurrence of `pat` in `s` at or before `from`, or -1.
pub open spec fn spec_rfind(s: Seq<char>, pat: Seq<char>, from: int) -> int
    decreases from + 1,
{
    if from < 0 {
        -1
    } else if spec_occurs_at(s, pat, from) {
        from
    } else {
        spec_rfind(s, pat, from - 1)
    }
}

/// Last occurrence of `pat` anywhere in `s`, if any.
pub fn rfind(s: &str, pat: &str) -> (r: Option<usize>)
    ensures
        match r {
            Some(i) => i == spec_rfind(s@, pat@, s@.len() - 1) && 0 <= i && spec_occurs_at(
                s@,
                pat@,
                i as int,
            ),
            None => spec_rfind(s@, pat@, s@.len() - 1) == -1,
        },
{
    let n = s.unicode_len();
    if n == 0 {
        return None;
    }
    let mut i = n - 1;
    loop
        invariant
            0 <= i < n,
            n == s@.len(),
            spec_rfind(s@, pat@, n - 1) == spec_rfind(s@, pat@, i as int),
        decreases i,
    {
        if occurs_at(s, pat, i) {
            return Some(i);
        }
        if i == 0 {
            assert(spec_rfind(s@, pat@, -1) == -1);
            return None;
        }
        i -= 1;
    }
}

/// Chars of `a` and `b` are the same sequence.
pub fn str_eq(a: &str, b: &str) -> (r: bool)
    ensures
        r == (a@ == b@),
{
    let n = a.unicode_len();
    if n != b.unicode_len() {
        return false;
    }
    let mut i: usize = 0;
    while i < n
        invariant
            0 <= i <= n,
            n == a@.len() == b@.len(),
            forall|k: int| 0 <= k < i ==> a@[k] == b@[k],
        decreases n - i,
    {
        if a.get_char(i) != b.get_char(i) {
            return false;
        }
        i += 1;
    }
    assert(a@ =~= b@);
    true
}

/// Is `c` a decimal digit?
pub open spec fn is_dec_digit(c: char) -> bool {
    48 <= c as u32 <= 57
}

pub open spec fn all_dec_digits(s: Seq<char>) -> bool {
    forall|i: int| 0 <= i < s.len() ==> is_dec_digit(#[trigger] s[i])
}

/// Value of a digit string read in base 10 (0 for the empty string).
pub open spec fn spec_dec_val(s: Seq<char>) -> int
    decreases s.len(),
{
    if s.len() == 0 {
        0
    } else {
        spec_dec_val(s.drop_last()) * 10 + (s.last() as u32 - 48)
    }
}

proof fn lemma_dec_val_nonneg(s: Seq<char>)
    requires
        all_dec_digits(s),
    ensures
        spec_dec_val(s) >= 0,
    decreases s.len(),
{
    if s.len() > 0 {
        assert(all_dec_digits(s.drop_last()));
        lemma_dec_val_nonneg(s.drop_last());
    }
}

proof fn lemma_dec_val_prefix(s: Seq<char>, i: int)
    requires
        all_dec_digits(s),
        0 <= i <= s.len(),
    ensures
        spec_dec_val(s) >= spec_dec_val(s.take(i)),
    decreases s.len() - i,
{
    if i < s.len() {
        lemma_dec_val_prefix(s, i + 1);
        let t = s.take(i + 1);
        assert(t.drop_last() =~= s.take(i));
        assert(t.last() == s[i]);
        assert(all_dec_digits(s.take(i)));
        lemma_dec_val_nonneg(s.take(i));
        assert(spec_dec_val(t) == spec_dec_val(s.take(i)) * 10 + (s[i] as u32 - 48));
    } else {
        assert(s.take(i) =~= s);
    }
}

/// How `Content-Length` header values are read: an optional leading `+`,
/// then one or more decimal digits, whose value must fit in a `u32`.
pub open spec fn spec_parse_u32(s: Seq<char>) -> Option<u32> {
    let digits = if s.len() > 0 && s[0] == '+' {
        s.skip(1)
    } else {
        s
    };
    if digits.len() > 0 && all_dec_digits(digits) && spec_dec_val(digits) <= u32::MAX {
        Some(spec_dec_val(digits) as u32)
    } else {
        None
    }
}

/// Read a base-10 `u32` out of `s`, accepting an optional leading `+`.
pub fn parse_u32_str(s: &str) -> (r: Option<u32>)
    ensures
        r == spec_parse_u32(s@),
{
    let n = s.unicode_len();
    let start: usize = if n > 0 && s.get_char(0) == '+' {
        1
    } else {
        0
    };
    let ghost digits = if s@.len() > 0 && s@[0] == '+' {
        s@.skip(1)
    } else {
        s@
    };
    assert(digits.len() == n - start);
    assert(forall|k: int| 0 <= k < digits.len() ==> digits[k] == s@[k + start]);
    if start >= n {
        assert(digits.len() == 0);
        return None;
    }
    let mut acc: u32 = 0;
    let mut i = start;
    while i < n
        invariant
            start <= i <= n,
            n == s@.len(),
            start == if s@.len() > 0 && s@[0] == '+' { 1int } else { 0int },
            digits == if s@.len() > 0 && s@[0] == '+' { s@.skip(1) } else { s@ },
            digits.len() == n - start,
            forall|k: int| 0 <= k < digits.len() ==> digits[k] == s@[k + start],
            all_dec_digits(digits.take(i - start)),
            acc == spec_dec_val(digits.take(i - start)),
        decreases n - i,
    {
        let c = s.get_char(i);
        let cv = c as u32;
        if cv < 48 || cv > 57 {
            assert(!is_dec_digit(digits[i - start]));
            assert(!all_dec_digits(digits));
            return None;
        }
        let d: u32 = cv - 48;
        if acc > (u32::MAX - d) / 10 {
            proof {
                let p = digits.take(i - start + 1);
                assert(p.drop_last() =~= digits.take(i - start));
                assert(p.last() == digits[i - start]);
                assert(spec_dec_val(p) == acc * 10 + d);
                if all_dec_digits(digits) {
                    lemma_dec_val_prefix(digits, i - start + 1);
                    assert(spec_dec_val(digits) >= spec_dec_val(p));
                    assert(acc * 10 + d > u32::MAX);
                }
            }
            return None;
        }
        proof {
            let p = digits.take(i - start + 1);
            assert(p.drop_last() =~= digits.take(i - start));
            assert(p.last() == digits[i - start]);
        }
        acc = acc * 10 + d;
        i += 1;
    }
    proof {
        assert(digits.take(n - start) =~= digits);
    }
    Some(acc)
}

} // verus!

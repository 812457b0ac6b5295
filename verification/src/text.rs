//! Character-level text helpers shared by the parsers and path logic.
//!
//! Text is processed as `Vec<char>` so that every step is plain verified
//! code over `Seq<char>` views; `chars_to_string` converts back at the end.

use vstd::prelude::*;

verus! {

/// Relies on `String`'s `FromIterator<char>` impl: collecting characters
/// yields the string consisting of exactly those characters.
#[verifier::external_body]
pub fn chars_to_string(v: &Vec<char>) -> (s: String)
    ensures
        s@ == v@,
{
    v.iter().collect()
}

/// The characters of `s`, in order.
pub fn str_chars(s: &str) -> (v: Vec<char>)
    ensures
        v@ == s@,
{
    let n = s.unicode_len();
    let mut v: Vec<char> = Vec::new();
    let mut i: usize = 0;
    while i < n
        invariant
            i <= n,
            n == s@.len(),
            v@ =~= s@.subrange(0, i as int),
        decreases n - i,
    {
        let c = s.get_char(i);
        v.push(c);
        i = i + 1;
    }
    proof {
        assert(v@ =~= s@);
    }
    v
}

/// Whether two string slices hold the same characters.
pub fn str_eq(a: &str, b: &str) -> (r: bool)
    ensures
        r == (a@ == b@),
{
    let na = a.unicode_len();
    let nb = b.unicode_len();
    if na != nb {
        proof {
            assert(a@ != b@);
        }
        return false;
    }
    let mut i: usize = 0;
    while i < na
        invariant
            i <= na,
            na == a@.len(),
            na == b@.len(),
            forall|j: int| 0 <= j < i ==> a@[j] == b@[j],
        decreases na - i,
    {
        if a.get_char(i) != b.get_char(i) {
            return false;
        }
        i = i + 1;
    }
    proof {
        assert(a@ =~= b@);
    }
    true
}

/// Whether two character vectors hold the same characters.
pub fn chars_eq(a: &Vec<char>, b: &Vec<char>) -> (r: bool)
    ensures
        r == (a@ == b@),
{
    if a.len() != b.len() {
        return false;
    }
    let mut i: usize = 0;
    while i < a.len()
        invariant
            i <= a.len(),
            a.len() == b.len(),
            forall|j: int| 0 <= j < i ==> a@[j] == b@[j],
        decreases a.len() - i,
    {
        if a[i] != b[i] {
            return false;
        }
        i = i + 1;
    }
    proof {
        assert(a@ =~= b@);
    }
    true
}

/// True when `pat` occurs in `s` starting exactly at `at`.
pub open spec fn match_at(s: Seq<char>, pat: Seq<char>, at: int) -> bool {
    &&& 0 <= at
    &&& at + pat.len() <= s.len()
    &&& s.subrange(at, at + pat.len()) == pat
}

/// The least index `>= from` at which `pat` occurs in `s`, if any.
pub open spec fn first_match(s: Seq<char>, pat: Seq<char>, from: int) -> Option<int>
    decreases s.len() - from + 1,
{
    if from < 0 || from + pat.len() > s.len() {
        None
    } else if match_at(s, pat, from) {
        Some(from)
    } else {
        first_match(s, pat, from + 1)
    }
}

/// Finds the first occurrence of `pat` (given as characters) in `s` at or
/// after index `from`.
pub fn find_sub(s: &Vec<char>, pat: &Vec<char>, from: usize) -> (r: Option<usize>)
    ensures
        match r {
            Some(i) => first_match(s@, pat@, from as int) == Some(i as int) && from <= i && i
                + pat@.len() <= s@.len(),
            None => first_match(s@, pat@, from as int) is None,
        },
{
    if pat.len() > s.len() {
        proof {
            lemma_first_match_none_when_short(s@, pat@, from as int);
        }
        return None;
    }
    let last_start = s.len() - pat.len();
    if from > last_start {
        return None;
    }
    let mut i: usize = from;
    while i <= last_start
        invariant
            from <= i,
            pat.len() <= s.len(),
            last_start == s.len() - pat.len(),
            i <= last_start + 1,
            first_match(s@, pat@, from as int) == first_match(s@, pat@, i as int),
        decreases last_start + 1 - i,
    {
        let mut k: usize = 0;
        let mut hit = true;
        while k < pat.len()
            invariant
                k <= pat.len(),
                i + pat.len() <= s.len(),
                hit ==> forall|j: int| 0 <= j < k ==> s@[i + j] == pat@[j],
                !hit ==> exists|j: int| 0 <= j < pat@.len() && s@[i + j] != pat@[j],
            decreases pat.len() - k,
        {
            if s[i + k] != pat[k] {
                hit = false;
                k = pat.len();
            } else {
                k = k + 1;
            }
        }
        if hit {
            proof {
                assert(s@.subrange(i as int, i + pat@.len()) =~= pat@);
            }
            return Some(i);
        }
        proof {
            assert(!match_at(s@, pat@, i as int)) by {
                if match_at(s@, pat@, i as int) {
                    let j = choose|j: int| 0 <= j < pat@.len() && s@[i + j] != pat@[j];
                    assert(s@.subrange(i as int, i + pat@.len())[j] == pat@[j]);
                }
            }
        }
        i = i + 1;
    }
    None
}

proof fn lemma_first_match_none_when_short(s: Seq<char>, pat: Seq<char>, from: int)
    requires
        pat.len() > s.len(),
    ensures
        first_match(s, pat, from) is None,
    decreases s.len() - from + 1,
{
    if !(from < 0 || from + pat.len() > s.len()) {
        lemma_first_match_none_when_short(s, pat, from + 1);
    }
}

/// The characters of `s` from `a` (inclusive) to `b` (exclusive).
pub fn slice_chars(s: &Vec<char>, a: usize, b: usize) -> (r: Vec<char>)
    requires
        a <= b <= s.len(),
    ensures
        r@ == s@.subrange(a as int, b as int),
{
    let mut r: Vec<char> = Vec::new();
    let mut i: usize = a;
    while i < b
        invariant
            a <= i <= b <= s.len(),
            r@ =~= s@.subrange(a as int, i as int),
        decreases b - i,
    {
        r.push(s[i]);
        i = i + 1;
    }
    proof {
        assert(r@ =~= s@.subrange(a as int, b as int));
    }
    r
}

/// Whether `pat` occurs in `s` starting exactly at `at`.
pub fn match_chars(s: &Vec<char>, pat: &Vec<char>, at: usize) -> (r: bool)
    ensures
        r == match_at(s@, pat@, at as int),
{
    if pat.len() > s.len() || at > s.len() - pat.len() {
        return false;
    }
    let mut k: usize = 0;
    while k < pat.len()
        invariant
            k <= pat.len(),
            at + pat.len() <= s.len(),
            forall|j: int| 0 <= j < k ==> s@[at + j] == pat@[j],
        decreases pat.len() - k,
    {
        if s[at + k] != pat[k] {
            proof {
                assert(!match_at(s@, pat@, at as int)) by {
                    if match_at(s@, pat@, at as int) {
                        assert(s@.subrange(at as int, at + pat@.len())[k as int] == pat@[k as int]);
                    }
                }
            }
            return false;
        }
        k = k + 1;
    }
    proof {
        assert(s@.subrange(at as int, at + pat@.len()) =~= pat@);
    }
    true
}

/// Whether `pat` occurs anywhere in `s`.
pub fn contains_sub(s: &Vec<char>, pat: &Vec<char>) -> (r: bool)
    ensures
        r == (first_match(s@, pat@, 0) is Some),
{
    match find_sub(s, pat, 0) {
        Some(_) => true,
        None => false,
    }
}

/// Simple whitespace set used when splitting and trimming command output.
pub open spec fn is_space(c: char) -> bool {
    c == ' ' || c == '\t' || c == '\r' || c == '\n'
}

/// Executable mirror of `is_space`.
pub fn space_char(c: char) -> (r: bool)
    ensures
        r == is_space(c),
{
    c == ' ' || c == '\t' || c == '\r' || c == '\n'
}

/// Index of the first character at or after `from` that fails `is_space`.
pub open spec fn skip_spaces(s: Seq<char>, from: int) -> int
    decreases s.len() - from,
{
    if from < 0 || from >= s.len() {
        s.len() as int
    } else if is_space(s[from]) {
        skip_spaces(s, from + 1)
    } else {
        from
    }
}

/// The copy of `s` with leading and trailing whitespace removed.
pub open spec fn trimmed(s: Seq<char>) -> Seq<char>
    decreases s.len(),
{
    if s.len() == 0 {
        s
    } else if is_space(s[0]) {
        trimmed(s.subrange(1, s.len() as int))
    } else if is_space(s[s.len() - 1]) {
        trimmed(s.subrange(0, s.len() - 1))
    } else {
        s
    }
}

/// Removes leading and trailing whitespace characters.
pub fn trim_chars(s: &Vec<char>) -> (r: Vec<char>)
    ensures
        r@ == trimmed(s@),
{
    let mut lo: usize = 0;
    let mut hi: usize = s.len();
    proof {
        assert(s@.subrange(0, s@.len() as int) =~= s@);
    }
    while lo < hi && space_char(s[lo])
        invariant
            0 <= lo <= hi <= s.len(),
            trimmed(s@) == trimmed(s@.subrange(lo as int, hi as int)),
            hi == s.len(),
        decreases hi - lo,
    {
        proof {
            assert(s@.subrange(lo as int, hi as int).subrange(
                1,
                (hi - lo) as int,
            ) =~= s@.subrange(lo as int + 1, hi as int));
        }
        lo = lo + 1;
    }
    while lo < hi && space_char(s[hi - 1])
        invariant
            0 <= lo <= hi <= s.len(),
            trimmed(s@) == trimmed(s@.subrange(lo as int, hi as int)),
            lo < hi ==> !is_space(s@[lo as int]),
        decreases hi,
    {
        proof {
            assert(s@.subrange(lo as int, hi as int).subrange(
                0,
                (hi - lo - 1) as int,
            ) =~= s@.subrange(lo as int, hi as int - 1));
        }
        hi = hi - 1;
    }
    let mut r: Vec<char> = Vec::new();
    let mut i: usize = lo;
    while i < hi
        invariant
            lo <= i <= hi <= s.len(),
            r@ =~= s@.subrange(lo as int, i as int),
        decreases hi - i,
    {
        r.push(s[i]);
        i = i + 1;
    }
    proof {
        assert(r@ =~= s@.subrange(lo as int, hi as int));
        assert(trimmed(s@.subrange(lo as int, hi as int)) == s@.subrange(lo as int, hi as int));
    }
    r
}

/// Decimal digit test.
pub open spec fn is_digit(c: char) -> bool {
    '0' <= c && c <= '9'
}

/// The numeric value of a digit character.
pub open spec fn digit_val(c: char) -> nat {
    (c as nat - '0' as nat) as nat
}

/// The value of a digit string, most significant digit first.
pub open spec fn digits_val(s: Seq<char>) -> nat
    decreases s.len(),
{
    if s.len() == 0 {
        0
    } else {
        digits_val(s.drop_last()) * 10 + digit_val(s.last())
    }
}

/// Whether every character of `s` is a decimal digit.
pub open spec fn all_digits(s: Seq<char>) -> bool {
    forall|i: int| 0 <= i < s.len() ==> is_digit(#[trigger] s[i])
}

proof fn lemma_digits_val_prefix_le(s: Seq<char>, n: int)
    requires
        0 <= n <= s.len(),
    ensures
        digits_val(s.subrange(0, n)) <= digits_val(s),
    decreases s.len() - n,
{
    if n < s.len() {
        lemma_digits_val_prefix_le(s, n + 1);
        let p = s.subrange(0, n + 1);
        assert(p.drop_last() =~= s.subrange(0, n));
        assert(digits_val(s.subrange(0, n)) * 10 + digit_val(p.last()) == digits_val(p));
        assert(digits_val(s.subrange(0, n)) <= digits_val(s.subrange(0, n)) * 10) by (nonlinear_arith);
    } else {
        assert(s.subrange(0, n) =~= s);
    }
}

/// Parses an unsigned decimal integer; `None` when `s` is empty, holds a
/// non-digit, or the value does not fit in `u64`.
pub fn parse_u64_digits(s: &Vec<char>) -> (r: Option<u64>)
    ensures
        match r {
            Some(v) => s@.len() > 0 && all_digits(s@) && v == digits_val(s@) && digits_val(s@)
                <= u64::MAX,
            None => s@.len() == 0 || !all_digits(s@) || digits_val(s@) > u64::MAX,
        },
{
    if s.len() == 0 {
        return None;
    }
    let mut acc: u64 = 0;
    let mut i: usize = 0;
    while i < s.len()
        invariant
            i <= s.len(),
            s@.len() > 0,
            all_digits(s@.subrange(0, i as int)),
            acc == digits_val(s@.subrange(0, i as int)),
        decreases s.len() - i,
    {
        let c = s[i];
        if !('0' <= c && c <= '9') {
            return None;
        }
        let d: u64 = (c as u32 as u64) - ('0' as u32 as u64);
        proof {
            assert(d == digit_val(s@[i as int]));
        }
        if acc > (u64::MAX - d) / 10 {
            proof {
                let p = s@.subrange(0, i as int + 1);
                assert(p.drop_last() =~= s@.subrange(0, i as int));
                assert(digits_val(p) == acc * 10 + d);
                assert(acc * 10 + d > u64::MAX) by (nonlinear_arith)
                    requires
                        acc > (u64::MAX - d) / 10,
                        d <= 9,
                ;
                lemma_digits_val_prefix_le(s@, i as int + 1);
            }
            return None;
        }
        proof {
            assert(acc * 10 + d <= u64::MAX) by (nonlinear_arith)
                requires
                    acc <= (u64::MAX - d) / 10,
                    d <= 9,
            ;
            let p = s@.subrange(0, i as int + 1);
            assert(p.drop_last() =~= s@.subrange(0, i as int));
        }
        acc = acc * 10 + d;
        i = i + 1;
    }
    proof {
        assert(s@.subrange(0, s@.len() as int) =~= s@);
    }
    Some(acc)
}

/// The digit character for a value below ten.
pub open spec fn digit_char(d: nat) -> char {
    if d == 0 {
        '0'
    } else if d == 1 {
        '1'
    } else if d == 2 {
        '2'
    } else if d == 3 {
        '3'
    } else if d == 4 {
        '4'
    } else if d == 5 {
        '5'
    } else if d == 6 {
        '6'
    } else if d == 7 {
        '7'
    } else if d == 8 {
        '8'
    } else {
        '9'
    }
}

/// The decimal form of `n`, most significant digit first.
pub open spec fn dec_of(n: nat) -> Seq<char>
    decreases n,
{
    if n < 10 {
        seq![digit_char(n)]
    } else {
        dec_of(n / 10).push(digit_char(n % 10))
    }
}

fn digit_to_char(d: u64) -> (c: char)
    requires
        d < 10,
    ensures
        c == digit_char(d as nat),
{
    if d == 0 {
        '0'
    } else if d == 1 {
        '1'
    } else if d == 2 {
        '2'
    } else if d == 3 {
        '3'
    } else if d == 4 {
        '4'
    } else if d == 5 {
        '5'
    } else if d == 6 {
        '6'
    } else if d == 7 {
        '7'
    } else if d == 8 {
        '8'
    } else {
        '9'
    }
}

/// The decimal digits of `n`.
pub fn dec_chars(n: u64) -> (v: Vec<char>)
    ensures
        v@ == dec_of(n as nat),
    decreases n,
{
    if n < 10 {
        let mut v: Vec<char> = Vec::new();
        v.push(digit_to_char(n));
        proof {
            assert(v@ =~= seq![digit_char(n as nat)]);
        }
        v
    } else {
        let mut v = dec_chars(n / 10);
        v.push(digit_to_char(n % 10));
        v
    }
}

/// The decimal form of `n` as a string.
pub fn u64_to_dec(n: u64) -> (s: String)
    ensures
        s@ == dec_of(n as nat),
{
    let v = dec_chars(n);
    chars_to_string(&v)
}

/// The signed integer denoted by `s` under the usual integer syntax
/// (optional `+` or `-` sign, then decimal digits), when it fits in `i32`.
pub open spec fn i32_of(s: Seq<char>) -> Option<int> {
    if s.len() > 0 && (s[0] == '+' || s[0] == '-') {
        let body = s.subrange(1, s.len() as int);
        if body.len() > 0 && all_digits(body) {
            let v: int = if s[0] == '-' {
                -(digits_val(body) as int)
            } else {
                digits_val(body) as int
            };
            if i32::MIN <= v <= i32::MAX {
                Some(v)
            } else {
                None
            }
        } else {
            None
        }
    } else {
        if s.len() > 0 && all_digits(s) && digits_val(s) <= i32::MAX {
            Some(digits_val(s) as int)
        } else {
            None
        }
    }
}

/// Parses a decimal integer with optional sign into an `i32`.
pub fn parse_i32_chars(s: &Vec<char>) -> (r: Option<i32>)
    ensures
        match r {
            Some(v) => i32_of(s@) == Some(v as int),
            None => i32_of(s@) is None,
        },
{
    if s.len() > 0 && (s[0] == '+' || s[0] == '-') {
        let neg = s[0] == '-';
        let body = slice_chars(s, 1, s.len());
        match parse_u64_digits(&body) {
            Some(v) => {
                if neg {
                    if v > 0x8000_0000u64 {
                        return None;
                    }
                    if v == 0x8000_0000u64 {
                        return Some(i32::MIN);
                    }
                    Some(-(v as i32))
                } else {
                    if v > 0x7fff_ffffu64 {
                        return None;
                    }
                    Some(v as i32)
                }
            },
            None => {
                proof {
                    if all_digits(s@.subrange(1, s@.len() as int)) && s@.subrange(
                        1,
                        s@.len() as int,
                    ).len() > 0 {
                        assert(digits_val(s@.subrange(1, s@.len() as int)) > u64::MAX);
                    }
                }
                None
            },
        }
    } else {
        match parse_u64_digits(s) {
            Some(v) => {
                if v > 0x7fff_ffffu64 {
                    return None;
                }
                Some(v as i32)
            },
            None => None,
        }
    }
}

/// Strict lexicographic order on character sequences, by code point.
pub open spec fn lex_lt(a: Seq<char>, b: Seq<char>) -> bool
    decreases a.len(),
{
    if b.len() == 0 {
        false
    } else if a.len() == 0 {
        true
    } else if a[0] != b[0] {
        a[0] < b[0]
    } else {
        lex_lt(a.subrange(1, a.len() as int), b.subrange(1, b.len() as int))
    }
}

/// Three-way lexicographic comparison of two strings: negative when
/// `a` sorts before `b`, zero when equal, positive otherwise.
pub fn str_compare(a: &str, b: &str) -> (r: i32)
    ensures
        (r < 0) == lex_lt(a@, b@),
        (r == 0) == (a@ == b@),
        (r > 0) == lex_lt(b@, a@),
{
    let na = a.unicode_len();
    let nb = b.unicode_len();
    let mut i: usize = 0;
    proof {
        assert(a@.subrange(0, na as int) =~= a@);
        assert(b@.subrange(0, nb as int) =~= b@);
    }
    while i < na && i < nb
        invariant
            i <= na,
            i <= nb,
            na == a@.len(),
            nb == b@.len(),
            lex_lt(a@, b@) == lex_lt(
                a@.subrange(i as int, na as int),
                b@.subrange(i as int, nb as int),
            ),
            lex_lt(b@, a@) == lex_lt(
                b@.subrange(i as int, nb as int),
                a@.subrange(i as int, na as int),
            ),
            (a@ == b@) == (a@.subrange(i as int, na as int) == b@.subrange(i as int, nb as int)),
        decreases na - i,
    {
        let ca = a.get_char(i);
        let cb = b.get_char(i);
        let ghost sa = a@.subrange(i as int, na as int);
        let ghost sb = b@.subrange(i as int, nb as int);
        proof {
            assert(sa[0] == a@[i as int]);
            assert(sb[0] == b@[i as int]);
        }
        if (ca as u32) < (cb as u32) {
            return -1;
        }
        if (ca as u32) > (cb as u32) {
            proof {
                assert(ca != cb);
                assert(a@ != b@);
            }
            return 1;
        }
        proof {
            assert(ca == cb) by {
                assert(ca as u32 == cb as u32);
                assert(('\u{0}' as u32) <= ca as u32);
            }
            assert(sa.subrange(1, sa.len() as int) =~= a@.subrange(i + 1, na as int));
            assert(sb.subrange(1, sb.len() as int) =~= b@.subrange(i + 1, nb as int));
            if sa == sb {
                assert(a@.subrange(i + 1, na as int) =~= b@.subrange(i + 1, nb as int));
            }
            if a@.subrange(i + 1, na as int) == b@.subrange(i + 1, nb as int) {
                assert(na - i - 1 == nb - i - 1);
                assert forall|k: int| 0 <= k < sa.len() implies sa[k] == sb[k] by {
                    if k > 0 {
                        assert(a@.subrange(i + 1, na as int)[k - 1] == a@[i + k]);
                        assert(b@.subrange(i + 1, nb as int)[k - 1] == b@[i + k]);
                    }
                }
                assert(sa =~= sb);
            }
        }
        i = i + 1;
    }
    proof {
        assert(a@.subrange(i as int, na as int).len() == na - i);
        assert(b@.subrange(i as int, nb as int).len() == nb - i);
    }
    if na == nb {
        proof {
            assert(a@.subrange(i as int, na as int) =~= b@.subrange(i as int, nb as int));
        }
        0
    } else if na < nb {
        -1
    } else {
        1
    }
}

} // verus!

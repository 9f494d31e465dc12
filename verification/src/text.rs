use vstd::prelude::*;

verus! {

/// Character-by-character equality of two string slices.
pub fn str_eq(a: &str, b: &str) -> (res: bool)
    ensures
        res == (a@ == b@),
{
    let n = a.unicode_len();
    let m = b.unicode_len();
    if n != m {
        return false;
    }
    let mut i: usize = 0;
    while i < n
        invariant
            n == a@.len(),
            m == b@.len(),
            n == m,
            i <= n,
            forall|j: int| 0 <= j < i ==> a@[j] == b@[j],
        decreases n - i,
    {
        if a.get_char(i) != b.get_char(i) {
            return false;
        }
        i = i + 1;
    }
    assert(a@ =~= b@);
    true
}

/// The code point of `c` after ASCII lowercasing: `A`..=`Z` become
/// `a`..=`z`, every other character is left alone.
pub open spec fn ascii_lower_code(c: char) -> u32 {
    if 'A' <= c && c <= 'Z' {
        (c as u32 + 32) as u32
    } else {
        c as u32
    }
}

/// `s`, lowercased in ASCII, is the text `lit`.
pub open spec fn lowercase_is(s: Seq<char>, lit: Seq<char>) -> bool {
    &&& s.len() == lit.len()
    &&& forall|i: int| 0 <= i < s.len() ==> ascii_lower_code(#[trigger] s[i]) == lit[i] as u32
}

/// Whether the ASCII lowercasing of `s` equals `lit`.
pub fn lowercase_eq(s: &str, lit: &str) -> (res: bool)
    ensures
        res == lowercase_is(s@, lit@),
{
    let n = s.unicode_len();
    let m = lit.unicode_len();
    if n != m {
        return false;
    }
    let mut i: usize = 0;
    while i < n
        invariant
            n == s@.len(),
            m == lit@.len(),
            n == m,
            i <= n,
            forall|j: int| 0 <= j < i ==> ascii_lower_code(#[trigger] s@[j]) == lit@[j] as u32,
        decreases n - i,
    {
        let c = s.get_char(i);
        let l = lit.get_char(i);
        let code: u32 = c as u32;
        let lowered: u32 = if 'A' <= c && c <= 'Z' {
            code + 32
        } else {
            code
        };
        if lowered != l as u32 {
            return false;
        }
        i = i + 1;
    }
    true
}

/// `a` and `b` are equal once both are lowercased in ASCII.
pub open spec fn ascii_case_equal(a: Seq<char>, b: Seq<char>) -> bool {
    &&& a.len() == b.len()
    &&& forall|i: int| 0 <= i < a.len() ==> ascii_lower_code(#[trigger] a[i]) == ascii_lower_code(b[i])
}

/// Whether two texts are equal ignoring ASCII case.
pub fn eq_ignore_ascii_case(a: &str, b: &str) -> (res: bool)
    ensures
        res == ascii_case_equal(a@, b@),
{
    let n = a.unicode_len();
    let m = b.unicode_len();
    if n != m {
        return false;
    }
    let mut i: usize = 0;
    while i < n
        invariant
            n == a@.len(),
            m == b@.len(),
            n == m,
            i <= n,
            forall|j: int| 0 <= j < i ==> ascii_lower_code(#[trigger] a@[j]) == ascii_lower_code(b@[j]),
        decreases n - i,
    {
        let ca = a.get_char(i);
        let cb = b.get_char(i);
        let la: u32 = if 'A' <= ca && ca <= 'Z' {
            ca as u32 + 32
        } else {
            ca as u32
        };
        let lb: u32 = if 'A' <= cb && cb <= 'Z' {
            cb as u32 + 32
        } else {
            cb as u32
        };
        if la != lb {
            return false;
        }
        i = i + 1;
    }
    true
}

/// Whether `c` is an ASCII decimal digit.
pub open spec fn is_digit(c: char) -> bool {
    '0' <= c && c <= '9'
}

/// The value of an ASCII decimal digit.
pub open spec fn digit_value(c: char) -> nat {
    (c as u32 - '0' as u32) as nat
}

/// The number that a string of decimal digits denotes, most significant
/// digit first.
pub open spec fn decimal_value(s: Seq<char>) -> nat
    decreases s.len(),
{
    if s.len() == 0 {
        0
    } else {
        decimal_value(s.drop_last()) * 10 + digit_value(s.last())
    }
}

/// The digits that `usize`'s `FromStr` reads: the text without one leading
/// `+`, when more text follows it.
pub open spec fn unsigned_digits(s: Seq<char>) -> Seq<char> {
    if s.len() > 0 && s[0] == '+' {
        s.drop_first()
    } else {
        s
    }
}

/// What `str::parse::<usize>` gives: `Some` of the value when the text is an
/// optional `+` followed by one or more ASCII digits whose value fits in a
/// `usize`, and `None` otherwise.
pub open spec fn parsed_usize(s: Seq<char>) -> Option<usize> {
    let d = unsigned_digits(s);
    if d.len() > 0 && (forall|i: int| 0 <= i < d.len() ==> is_digit(#[trigger] d[i]))
        && decimal_value(d) <= usize::MAX {
        Some(decimal_value(d) as usize)
    } else {
        None
    }
}

proof fn lemma_decimal_prefix_grows(d: Seq<char>, i: int)
    requires
        0 <= i <= d.len(),
    ensures
        decimal_value(d.subrange(0, i)) <= decimal_value(d),
    decreases d.len() - i,
{
    if i < d.len() {
        lemma_decimal_prefix_grows(d, i + 1);
        assert(d.subrange(0, i + 1).drop_last() =~= d.subrange(0, i));
    } else {
        assert(d.subrange(0, i) =~= d);
    }
}

/// Decimal parsing of a `usize`, as `str::parse::<usize>` does it.
pub fn parse_usize(s: &str) -> (res: Option<usize>)
    ensures
        res == parsed_usize(s@),
{
    let n = s.unicode_len();
    let mut start: usize = 0;
    if n > 0 && s.get_char(0) == '+' {
        start = 1;
    }
    let ghost d = unsigned_digits(s@);
    assert(d =~= s@.subrange(start as int, n as int));
    if start >= n {
        return None;
    }
    let mut acc: usize = 0;
    let mut i: usize = start;
    while i < n
        invariant
            n == s@.len(),
            start <= i <= n,
            start < n,
            d == s@.subrange(start as int, n as int),
            d == unsigned_digits(s@),
            forall|j: int| 0 <= j < i - start ==> is_digit(#[trigger] d[j]),
            acc as nat == decimal_value(d.subrange(0, i - start)),
        decreases n - i,
    {
        let c = s.get_char(i);
        if !('0' <= c && c <= '9') {
            assert(!is_digit(d[i - start]));
            assert(!(forall|j: int| 0 <= j < d.len() ==> is_digit(#[trigger] d[j])));
            return None;
        }
        let digit: usize = (c as u32 - '0' as u32) as usize;
        let ghost next = d.subrange(0, i - start + 1);
        assert(next.drop_last() =~= d.subrange(0, i - start));
        assert(next.last() == c);
        match acc.checked_mul(10) {
            None => {
                proof {
                    lemma_decimal_prefix_grows(d, i - start + 1);
                }
                return None;
            },
            Some(t) => match t.checked_add(digit) {
                None => {
                    proof {
                        lemma_decimal_prefix_grows(d, i - start + 1);
                    }
                    return None;
                },
                Some(v) => {
                    acc = v;
                },
            },
        }
        i = i + 1;
    }
    assert(d.subrange(0, n - start) =~= d);
    Some(acc)
}

/// `s` begins with the text `pre`.
pub open spec fn has_prefix(s: Seq<char>, pre: Seq<char>) -> bool {
    pre.len() <= s.len() && s.subrange(0, pre.len() as int) == pre
}

/// `s` ends with the text `suf`.
pub open spec fn has_suffix(s: Seq<char>, suf: Seq<char>) -> bool {
    suf.len() <= s.len() && s.subrange(s.len() - suf.len(), s.len() as int) == suf
}

/// Whether `s` begins with `pre`, as `str::starts_with` with a string pattern.
pub fn starts_with(s: &str, pre: &str) -> (res: bool)
    ensures
        res == has_prefix(s@, pre@),
{
    let n = s.unicode_len();
    let m = pre.unicode_len();
    if m > n {
        return false;
    }
    let mut i: usize = 0;
    while i < m
        invariant
            n == s@.len(),
            m == pre@.len(),
            m <= n,
            i <= m,
            forall|j: int| 0 <= j < i ==> s@[j] == pre@[j],
        decreases m - i,
    {
        if s.get_char(i) != pre.get_char(i) {
            assert(s@.subrange(0, m as int)[i as int] != pre@[i as int]);
            return false;
        }
        i = i + 1;
    }
    assert(s@.subrange(0, m as int) =~= pre@);
    true
}

/// Whether `s` ends with `suf`, as `str::ends_with` with a string pattern.
pub fn ends_with(s: &str, suf: &str) -> (res: bool)
    ensures
        res == has_suffix(s@, suf@),
{
    let n = s.unicode_len();
    let m = suf.unicode_len();
    if m > n {
        return false;
    }
    let off: usize = n - m;
    let mut i: usize = 0;
    while i < m
        invariant
            n == s@.len(),
            m == suf@.len(),
            m <= n,
            off == n - m,
            i <= m,
            forall|j: int| 0 <= j < i ==> s@[off + j] == suf@[j],
        decreases m - i,
    {
        if s.get_char(off + i) != suf.get_char(i) {
            assert(s@.subrange(off as int, n as int)[i as int] != suf@[i as int]);
            return false;
        }
        i = i + 1;
    }
    assert(s@.subrange(off as int, n as int) =~= suf@);
    true
}

/// Every character of `d` is an ASCII digit, and there is at least one.
pub open spec fn all_digits(d: Seq<char>) -> bool {
    d.len() > 0 && forall|i: int| 0 <= i < d.len() ==> is_digit(#[trigger] d[i])
}

/// What `str::parse::<i32>` gives: `Some` of the value when the text is an
/// optional sign (`+` or `-`) followed by one or more ASCII digits whose
/// signed value fits in an `i32`, and `None` otherwise.
pub open spec fn parsed_i32(s: Seq<char>) -> Option<i32> {
    if s.len() > 0 && s[0] == '-' {
        let d = s.drop_first();
        if all_digits(d) && decimal_value(d) <= 0x8000_0000 {
            Some((0 - decimal_value(d)) as i32)
        } else {
            None
        }
    } else {
        let d = unsigned_digits(s);
        if all_digits(d) && decimal_value(d) <= i32::MAX {
            Some(decimal_value(d) as i32)
        } else {
            None
        }
    }
}

/// The value of the digits `s[start..]` when they are all digits, at least
/// one, and their value is at most `limit`.
fn bounded_digits(s: &str, start: usize, limit: u64) -> (res: Option<u64>)
    requires
        start <= s@.len(),
        limit <= 0x8000_0000,
    ensures
        ({
            let d = s@.subrange(start as int, s@.len() as int);
            match res {
                Some(v) => all_digits(d) && decimal_value(d) <= limit && v == decimal_value(d),
                None => !(all_digits(d) && decimal_value(d) <= limit),
            }
        }),
{
    let n = s.unicode_len();
    let ghost d = s@.subrange(start as int, n as int);
    if start >= n {
        return None;
    }
    let mut acc: u64 = 0;
    let mut i: usize = start;
    while i < n
        invariant
            n == s@.len(),
            start <= i <= n,
            start < n,
            limit <= 0x8000_0000,
            d == s@.subrange(start as int, n as int),
            forall|j: int| 0 <= j < i - start ==> is_digit(#[trigger] d[j]),
            acc as nat == decimal_value(d.subrange(0, i - start)),
            acc <= limit,
        decreases n - i,
    {
        let c = s.get_char(i);
        if !('0' <= c && c <= '9') {
            assert(!is_digit(d[i - start]));
            return None;
        }
        let digit: u64 = (c as u32 - '0' as u32) as u64;
        let ghost next = d.subrange(0, i - start + 1);
        assert(next.drop_last() =~= d.subrange(0, i - start));
        assert(next.last() == c);
        let v: u64 = acc * 10 + digit;
        if v > limit {
            proof {
                lemma_decimal_prefix_grows(d, i - start + 1);
            }
            return None;
        }
        acc = v;
        i = i + 1;
    }
    assert(d.subrange(0, n - start) =~= d);
    Some(acc)
}

/// Decimal parsing of an `i32`, as `str::parse::<i32>` does it.
pub fn parse_i32(s: &str) -> (res: Option<i32>)
    ensures
        res == parsed_i32(s@),
{
    let n = s.unicode_len();
    if n > 0 && s.get_char(0) == '-' {
        assert(s@.drop_first() =~= s@.subrange(1, n as int));
        match bounded_digits(s, 1, 0x8000_0000) {
            Some(v) => Some((0 - (v as i64)) as i32),
            None => None,
        }
    } else {
        let start: usize = if n > 0 && s.get_char(0) == '+' {
            1
        } else {
            0
        };
        assert(unsigned_digits(s@) =~= s@.subrange(start as int, n as int));
        match bounded_digits(s, start, 0x7fff_ffff) {
            Some(v) => Some(v as i32),
            None => None,
        }
    }
}

/// `sub` occurs in `s` starting at position `i`.
pub open spec fn occurs_at(s: Seq<char>, sub: Seq<char>, i: int) -> bool {
    0 <= i && i + sub.len() <= s.len() && s.subrange(i, i + sub.len()) == sub
}

/// `sub` occurs somewhere in `s`.
pub open spec fn has_infix(s: Seq<char>, sub: Seq<char>) -> bool {
    exists|i: int| #[trigger] occurs_at(s, sub, i)
}

fn matches_at(s: &str, sub: &str, i: usize) -> (res: bool)
    requires
        i + sub@.len() <= s@.len(),
    ensures
        res == occurs_at(s@, sub@, i as int),
{
    let n = s.unicode_len();
    let m = sub.unicode_len();
    let mut j: usize = 0;
    while j < m
        invariant
            m == sub@.len(),
            n == s@.len(),
            i + m <= n,
            j <= m,
            forall|k: int| 0 <= k < j ==> s@[i + k] == sub@[k],
        decreases m - j,
    {
        if s.get_char(i + j) != sub.get_char(j) {
            assert(s@.subrange(i as int, i + m)[j as int] != sub@[j as int]);
            return false;
        }
        j = j + 1;
    }
    assert(s@.subrange(i as int, i + m) =~= sub@);
    true
}

/// Whether `sub` occurs in `s`, as `str::contains` with a string pattern.
pub fn contains_text(s: &str, sub: &str) -> (res: bool)
    ensures
        res == has_infix(s@, sub@),
{
    let n = s.unicode_len();
    let m = sub.unicode_len();
    if m > n {
        assert forall|i: int| !occurs_at(s@, sub@, i) by {}
        return false;
    }
    if m == 0 {
        assert(s@.subrange(0, 0) =~= sub@);
        assert(occurs_at(s@, sub@, 0));
        return true;
    }
    let mut i: usize = 0;
    while i <= n - m
        invariant
            n == s@.len(),
            m == sub@.len(),
            1 <= m <= n,
            i <= n - m + 1,
            forall|k: int| 0 <= k < i ==> !occurs_at(s@, sub@, k),
        decreases n - m + 1 - i,
    {
        if matches_at(s, sub, i) {
            return true;
        }
        i = i + 1;
    }
    assert forall|k: int| !occurs_at(s@, sub@, k) by {
        if 0 <= k < i {
        }
    }
    false
}

} // verus!

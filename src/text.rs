//! Small verified text utilities: comparing text, rendering and reading
//! unsigned integers.
use vstd::prelude::*;
use vstd::string::*;

verus! {

/// The character for a decimal digit `d` (0 to 9).
pub open spec fn digit_char(d: int) -> char {
    if d == 0 {
        '0'
    } else if d == 1 {
        '1'
    } else if d == 2 {
        '2'
    } else if d == 3 {
        '3'
    } else if d == 4 {
        '4'
    } else if d == 5 {
        '5'
    } else if d == 6 {
        '6'
    } else if d == 7 {
        '7'
    } else if d == 8 {
        '8'
    } else {
        '9'
    }
}

/// The decimal representation of `n`, without sign or leading zeros.
pub open spec fn decimal(n: nat) -> Seq<char>
    decreases n,
{
    if n < 10 {
        seq![digit_char(n as int)]
    } else {
        decimal(n / 10).push(digit_char((n % 10) as int))
    }
}

/// The lower-case character for a hexadecimal digit `d` (0 to 15).
pub open spec fn hex_char(d: int) -> char {
    if d < 10 {
        digit_char(d)
    } else if d == 10 {
        'a'
    } else if d == 11 {
        'b'
    } else if d == 12 {
        'c'
    } else if d == 13 {
        'd'
    } else if d == 14 {
        'e'
    } else {
        'f'
    }
}

/// The lower-case hexadecimal representation of `n`, without prefix or
/// leading zeros.
pub open spec fn hex_text(n: nat) -> Seq<char>
    decreases n,
{
    if n < 16 {
        seq![hex_char(n as int)]
    } else {
        hex_text(n / 16).push(hex_char((n % 16) as int))
    }
}

/// The value of `c` as a digit up to base 16 (either letter case), or -1.
pub open spec fn digit_value(c: char) -> int {
    let u = c as u32;
    if 48 <= u && u <= 57 {
        u - 48
    } else if 97 <= u && u <= 102 {
        u - 87
    } else if 65 <= u && u <= 70 {
        u - 55
    } else {
        -1
    }
}

/// Every character of `s` is a digit of base `radix`.
pub open spec fn all_digits(s: Seq<char>, radix: int) -> bool {
    forall|i: int| 0 <= i < s.len() ==> 0 <= #[trigger] digit_value(s[i]) < radix
}

/// The number that the digits `s` denote in base `radix`.
pub open spec fn digits_value(s: Seq<char>, radix: int) -> int
    decreases s.len(),
{
    if s.len() == 0 {
        0
    } else {
        digits_value(s.drop_last(), radix) * radix + digit_value(s.last())
    }
}

/// The digits of an unsigned number text: an optional leading `+` is dropped.
pub open spec fn unsigned_body(s: Seq<char>) -> Seq<char> {
    if s.len() > 0 && s[0] == '+' {
        s.drop_first()
    } else {
        s
    }
}

/// The `u64` that `s` denotes in base `radix`, if any: an optional `+`
/// followed by at least one digit, and a value that fits.
pub open spec fn unsigned_value(s: Seq<char>, radix: int) -> Option<u64> {
    unsigned_value_of_body(unsigned_body(s), radix)
}

/// The decimal text of `n` reads back as `n`.
pub proof fn lemma_decimal_reads_back(n: nat)
    ensures
        decimal(n).len() > 0,
        all_digits(decimal(n), 10),
        digits_value(decimal(n), 10) == n,
    decreases n,
{
    let s = decimal(n);
    if n < 10 {
        assert(s.drop_last() =~= Seq::<char>::empty());
        assert(digits_value(s.drop_last(), 10) == 0);
        assert(s.last() == s[0]);
        assert(digit_value(s[0]) == n);
        assert(digits_value(s, 10) == digits_value(s.drop_last(), 10) * 10 + digit_value(s.last()));
    } else {
        lemma_decimal_reads_back(n / 10);
        let p = decimal(n / 10);
        assert(s.drop_last() =~= p);
        assert(s.last() == digit_char((n % 10) as int));
        assert(digit_value(s.last()) == n % 10);
        assert forall|i: int| 0 <= i < s.len() implies 0 <= #[trigger] digit_value(s[i]) < 10 by {
            if i < p.len() {
                assert(s[i] == p[i]);
            }
        }
        assert((n / 10) * 10 + n % 10 == n) by (nonlinear_arith);
        assert(digits_value(s, 10) == digits_value(p, 10) * 10 + digit_value(s.last()));
    }
}

/// The hexadecimal text of `n` reads back as `n`.
pub proof fn lemma_hex_reads_back(n: nat)
    ensures
        hex_text(n).len() > 0,
        all_digits(hex_text(n), 16),
        digits_value(hex_text(n), 16) == n,
    decreases n,
{
    let s = hex_text(n);
    if n < 16 {
        assert(s.drop_last() =~= Seq::<char>::empty());
        assert(digits_value(s.drop_last(), 16) == 0);
        assert(s.last() == s[0]);
        assert(digit_value(s[0]) == n);
        assert(digits_value(s, 16) == digits_value(s.drop_last(), 16) * 16 + digit_value(s.last()));
    } else {
        lemma_hex_reads_back(n / 16);
        let p = hex_text(n / 16);
        assert(s.drop_last() =~= p);
        assert(s.last() == hex_char((n % 16) as int));
        assert(digit_value(s.last()) == n % 16);
        assert forall|i: int| 0 <= i < s.len() implies 0 <= #[trigger] digit_value(s[i]) < 16 by {
            if i < p.len() {
                assert(s[i] == p[i]);
            }
        }
        assert((n / 16) * 16 + n % 16 == n) by (nonlinear_arith);
        assert(digits_value(s, 16) == digits_value(p, 16) * 16 + digit_value(s.last()));
    }
}

proof fn lemma_digits_value_nonneg(s: Seq<char>, radix: int)
    requires
        radix >= 1,
        all_digits(s, radix),
    ensures
        digits_value(s, radix) >= 0,
    decreases s.len(),
{
    if s.len() > 0 {
        assert(all_digits(s.drop_last(), radix)) by {
            assert forall|i: int| 0 <= i < s.drop_last().len() implies 0 <= #[trigger] digit_value(
                s.drop_last()[i],
            ) < radix by {
                assert(s.drop_last()[i] == s[i]);
            }
        }
        lemma_digits_value_nonneg(s.drop_last(), radix);
        assert(digit_value(s[s.len() - 1]) >= 0);
        assert(digits_value(s.drop_last(), radix) * radix >= 0) by (nonlinear_arith)
            requires
                digits_value(s.drop_last(), radix) >= 0,
                radix >= 1,
        ;
    }
}

/// A longer run of digits never denotes a smaller number.
proof fn lemma_digits_value_grows(s: Seq<char>, k: int, radix: int)
    requires
        radix >= 1,
        0 <= k <= s.len(),
        all_digits(s, radix),
    ensures
        digits_value(s.take(k), radix) <= digits_value(s, radix),
    decreases s.len() - k,
{
    if k < s.len() {
        let t = s.take(k + 1);
        assert(t.drop_last() =~= s.take(k));
        assert(all_digits(t, radix)) by {
            assert forall|i: int| 0 <= i < t.len() implies 0 <= #[trigger] digit_value(t[i])
                < radix by {
                assert(t[i] == s[i]);
            }
        }
        assert(all_digits(s.take(k), radix)) by {
            assert forall|i: int| 0 <= i < k implies 0 <= #[trigger] digit_value(s.take(k)[i])
                < radix by {
                assert(s.take(k)[i] == s[i]);
            }
        }
        lemma_digits_value_nonneg(s.take(k), radix);
        let v = digits_value(s.take(k), radix);
        assert(v * radix >= v) by (nonlinear_arith)
            requires
                v >= 0,
                radix >= 1,
        ;
        assert(t.last() == s[k]);
        lemma_digits_value_grows(s, k + 1, radix);
    } else {
        assert(s.take(k) =~= s);
    }
}

/// The character of a decimal digit as a one-character text.
fn digit_text(d: u64) -> (r: &'static str)
    requires
        d < 10,
    ensures
        r@ == seq![digit_char(d as int)],
{
    proof {
        reveal_strlit("0");
        reveal_strlit("1");
        reveal_strlit("2");
        reveal_strlit("3");
        reveal_strlit("4");
        reveal_strlit("5");
        reveal_strlit("6");
        reveal_strlit("7");
        reveal_strlit("8");
        reveal_strlit("9");
    }
    if d == 0 {
        assert("0"@ =~= seq!['0']);
        "0"
    } else if d == 1 {
        assert("1"@ =~= seq!['1']);
        "1"
    } else if d == 2 {
        assert("2"@ =~= seq!['2']);
        "2"
    } else if d == 3 {
        assert("3"@ =~= seq!['3']);
        "3"
    } else if d == 4 {
        assert("4"@ =~= seq!['4']);
        "4"
    } else if d == 5 {
        assert("5"@ =~= seq!['5']);
        "5"
    } else if d == 6 {
        assert("6"@ =~= seq!['6']);
        "6"
    } else if d == 7 {
        assert("7"@ =~= seq!['7']);
        "7"
    } else if d == 8 {
        assert("8"@ =~= seq!['8']);
        "8"
    } else {
        assert("9"@ =~= seq!['9']);
        "9"
    }
}

/// Renders `n` in decimal.
pub fn decimal_string(n: u64) -> (r: String)
    ensures
        r@ == decimal(n as nat),
    decreases n,
{
    if n < 10 {
        String::from_str(digit_text(n))
    } else {
        let mut s = decimal_string(n / 10);
        s.append(digit_text(n % 10));
        s
    }
}

/// Whether two texts hold the same characters.
pub fn same_text(a: &str, b: &str) -> (r: bool)
    ensures
        r == (a@ == b@),
{
    let n = a.unicode_len();
    if n != b.unicode_len() {
        return false;
    }
    let mut i: usize = 0;
    while i < n
        invariant
            n == a@.len(),
            n == b@.len(),
            0 <= i <= n,
            forall|k: int| 0 <= k < i ==> a@[k] == b@[k],
        decreases n - i,
    {
        if a.get_char(i) != b.get_char(i) {
            return false;
        }
        i = i + 1;
    }
    assert(a@ =~= b@);
    true
}

/// Whether `s` begins with `prefix`.
pub fn starts_with_text(s: &str, prefix: &str) -> (r: bool)
    ensures
        r == (prefix@.len() <= s@.len() && s@.take(prefix@.len() as int) == prefix@),
{
    let n = s.unicode_len();
    let m = prefix.unicode_len();
    if m > n {
        return false;
    }
    let head = s.substring_char(0, m);
    let r = same_text(head, prefix);
    r
}

/// Whether `needle` occurs in `s` as a contiguous run of characters.
pub fn contains_text(s: &str, needle: &str) -> (r: bool)
    ensures
        r == exists|k: int|
            0 <= k && k + needle@.len() <= s@.len() && #[trigger] s@.subrange(k, k + needle@.len())
                == needle@,
{
    let n = s.unicode_len();
    let m = needle.unicode_len();
    if m > n {
        return false;
    }
    if m == 0 {
        assert(s@.subrange(0, 0 + needle@.len() as int) =~= needle@);
        return true;
    }
    let mut k: usize = 0;
    while k <= n - m
        invariant
            n == s@.len(),
            m == needle@.len(),
            1 <= m <= n,
            k <= n - m + 1,
            forall|j: int| 0 <= j < k ==> #[trigger] s@.subrange(j, j + m) != needle@,
        decreases n - m + 1 - k,
    {
        if same_text(s.substring_char(k, k + m), needle) {
            return true;
        }
        k = k + 1;
    }
    false
}

/// Reads an unsigned number in base `radix` (2 to 16): an optional `+`,
/// then one or more digits, whose value must fit in `u64`.
pub fn parse_unsigned(s: &str, radix: u64) -> (r: Option<u64>)
    requires
        2 <= radix <= 16,
    ensures
        r == unsigned_value(s@, radix as int),
{
    let n = s.unicode_len();
    let mut i: usize = 0;
    if n > 0 && s.get_char(0) == '+' {
        i = 1;
    }
    let ghost start = i as int;
    let ghost body = unsigned_body(s@);
    assert(body =~= s@.skip(start));
    assert(unsigned_value(s@, radix as int) == unsigned_value_of_body(body, radix as int));
    if i == n {
        return None;
    }
    let mut acc: u64 = 0;
    while i < n
        invariant
            n == s@.len(),
            start <= i <= n,
            body == s@.skip(start),
            body.len() == n - start,
            unsigned_value(s@, radix as int) == unsigned_value_of_body(body, radix as int),
            0 <= start <= 1,
            2 <= radix <= 16,
            all_digits(body.take(i - start), radix as int),
            acc as int == digits_value(body.take(i - start), radix as int),
        decreases n - i,
    {
        let c = s.get_char(i);
        let u = c as u32;
        let d: u64;
        if 48 <= u && u <= 57 {
            d = (u - 48) as u64;
        } else if 97 <= u && u <= 102 {
            d = (u - 87) as u64;
        } else if 65 <= u && u <= 70 {
            d = (u - 55) as u64;
        } else {
            assert(body[i - start] == c);
            assert(digit_value(body[i - start]) == -1);
            assert(!all_digits(body, radix as int));
            return None;
        }
        assert(digit_value(c) == d as int);
        let ghost pre = body.take(i - start);
        let ghost next = body.take(i - start + 1);
        assert(next.drop_last() =~= pre);
        assert(next.last() == c);
        if d >= radix {
            assert(body[i - start] == c);
            assert(digit_value(body[i - start]) >= radix);
            assert(!all_digits(body, radix as int));
            return None;
        }
        assert(all_digits(next, radix as int)) by {
            assert forall|j: int| 0 <= j < next.len() implies 0 <= #[trigger] digit_value(next[j])
                < radix by {
                if j < pre.len() {
                    assert(next[j] == pre[j]);
                }
            }
        }
        match acc.checked_mul(radix) {
            Some(m) => match m.checked_add(d) {
                Some(v) => {
                    acc = v;
                },
                None => {
                    proof {
                        assert(digits_value(next, radix as int) == m + d);
                        lemma_overflow_stays(body, i - start + 1, radix as int);
                    }
                    return None;
                },
            },
            None => {
                proof {
                    lemma_digits_value_nonneg(pre, radix as int);
                    assert(acc * radix + d >= acc * radix);
                    lemma_overflow_stays(body, i - start + 1, radix as int);
                }
                return None;
            },
        }
        i = i + 1;
    }
    assert(body.take(n - start) =~= body);
    Some(acc)
}

/// Once a prefix of digits exceeds `u64::MAX`, the whole text does, or is no
/// run of digits at all.
proof fn lemma_overflow_stays(body: Seq<char>, k: int, radix: int)
    requires
        2 <= radix,
        0 <= k <= body.len(),
        digits_value(body.take(k), radix) > u64::MAX,
    ensures
        unsigned_value_of_body(body, radix) is None,
{
    if all_digits(body, radix) {
        lemma_digits_value_grows(body, k, radix);
    }
}

/// What `unsigned_value` gives for a text whose sign was already dropped.
pub open spec fn unsigned_value_of_body(b: Seq<char>, radix: int) -> Option<u64> {
    if b.len() > 0 && all_digits(b, radix) && digits_value(b, radix) <= u64::MAX {
        Some(digits_value(b, radix) as u64)
    } else {
        None
    }
}

/// The lower-case form of a text, as std's Unicode case mapping gives it.
pub uninterp spec fn lower_of(s: Seq<char>) -> Seq<char>;

/// Relies on `str::to_lowercase`: the result depends on the characters alone.
#[verifier::external_body]
pub(crate) fn lowercase(s: &str) -> (r: String)
    ensures
        r@ == lower_of(s@),
{
    s.to_lowercase()
}

} // verus!

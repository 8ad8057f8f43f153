//! Character-level helpers on `str` and `String`: comparison, prefixes,
//! UTF-8 byte lengths and decimal numerals.
use vstd::prelude::*;

verus! {

/// Decimal digit character of a value below 10.
pub open spec fn digit_char(d: int) -> char {
    seq!['0', '1', '2', '3', '4', '5', '6', '7', '8', '9'][d]
}

/// The decimal numeral of `n`, without leading zeros.
pub open spec fn decimal(n: nat) -> Seq<char>
    decreases n,
{
    if n < 10 {
        seq![digit_char(n as int)]
    } else {
        decimal(n / 10).push(digit_char((n % 10) as int))
    }
}

/// Number of bytes in the UTF-8 encoding of `c`.
pub open spec fn char_utf8_len(c: char) -> nat {
    if (c as u32) < 0x80 {
        1
    } else if (c as u32) < 0x800 {
        2
    } else if (c as u32) < 0x10000 {
        3
    } else {
        4
    }
}

/// Number of bytes in the UTF-8 encoding of `s`.
pub open spec fn utf8_len(s: Seq<char>) -> nat
    decreases s.len(),
{
    if s.len() == 0 {
        0
    } else {
        char_utf8_len(s[0]) + utf8_len(s.drop_first())
    }
}

/// The number of characters of `s` whose UTF-8 encoding is exactly the first
/// `n` bytes of `s`; `None` when byte `n` falls inside a character or beyond.
pub open spec fn chars_in_bytes(s: Seq<char>, n: int) -> Option<nat>
    decreases s.len(),
{
    if n == 0 {
        Some(0)
    } else if n < 0 || s.len() == 0 {
        None
    } else if char_utf8_len(s[0]) > n {
        None
    } else {
        match chars_in_bytes(s.drop_first(), n - char_utf8_len(s[0])) {
            Some(k) => Some(k + 1),
            None => None,
        }
    }
}

/// Every character is ASCII, one byte in UTF-8.
pub open spec fn is_ascii_text(s: Seq<char>) -> bool {
    forall|i: int| 0 <= i < s.len() ==> (#[trigger] s[i] as u32) < 0x80
}

/// ASCII text has as many bytes as characters, and any byte count up to its
/// length ends on a character boundary.
pub proof fn lemma_ascii_bytes(s: Seq<char>, n: int)
    requires
        is_ascii_text(s),
        0 <= n <= s.len(),
    ensures
        utf8_len(s) == s.len(),
        chars_in_bytes(s, n) == Some(n as nat),
    decreases s.len(),
{
    if s.len() > 0 {
        let t = s.drop_first();
        assert forall|i: int| 0 <= i < t.len() implies (#[trigger] t[i] as u32) < 0x80 by {
            assert(t[i] == s[i + 1]);
        }
        assert((s[0] as u32) < 0x80);
        if n > 0 {
            lemma_ascii_bytes(t, n - 1);
        } else {
            lemma_ascii_bytes(t, 0);
        }
    }
}

/// `s` begins with `p`.
pub open spec fn has_prefix(s: Seq<char>, p: Seq<char>) -> bool {
    p.len() <= s.len() && s.take(p.len() as int) == p
}

/// Compares two strings character by character.
pub fn str_eq(a: &str, b: &str) -> (r: bool)
    ensures
        r == (a@ == b@),
{
    let n = a.unicode_len();
    let m = b.unicode_len();
    if n != m {
        return false;
    }
    let mut i: usize = 0;
    while i < n
        invariant
            n == a@.len(),
            m == b@.len(),
            n == m,
            i <= n,
            forall|j: int| 0 <= j < i ==> a@[j] == b@[j],
        decreases n - i,
    {
        if a.get_char(i) != b.get_char(i) {
            return false;
        }
        i = i + 1;
    }
    assert(a@ =~= b@);
    true
}

/// Whether `s` begins with `p`.
pub fn starts_with(s: &str, p: &str) -> (r: bool)
    ensures
        r == has_prefix(s@, p@),
{
    let n = s.unicode_len();
    let m = p.unicode_len();
    if m > n {
        return false;
    }
    let mut i: usize = 0;
    while i < m
        invariant
            n == s@.len(),
            m == p@.len(),
            m <= n,
            i <= m,
            forall|j: int| 0 <= j < i ==> s@[j] == p@[j],
        decreases m - i,
    {
        if s.get_char(i) != p.get_char(i) {
            assert(s@.take(m as int)[i as int] != p@[i as int]);
            return false;
        }
        i = i + 1;
    }
    assert(s@.take(m as int) =~= p@);
    true
}

/// Number of UTF-8 bytes of one character.
pub fn char_width(c: char) -> (r: usize)
    ensures
        r == char_utf8_len(c),
{
    let u = c as u32;
    if u < 0x80 {
        1
    } else if u < 0x800 {
        2
    } else if u < 0x10000 {
        3
    } else {
        4
    }
}

proof fn lemma_utf8_len_push(s: Seq<char>, c: char)
    ensures
        utf8_len(s.push(c)) == utf8_len(s) + char_utf8_len(c),
    decreases s.len(),
{
    if s.len() == 0 {
        assert(s.push(c).drop_first() =~= Seq::<char>::empty());
        assert(utf8_len(Seq::<char>::empty()) == 0);
        assert(s.push(c)[0] == c);
    } else {
        assert(s.push(c)[0] == s[0]);
        lemma_utf8_len_push(s.drop_first(), c);
        assert(s.push(c).drop_first() =~= s.drop_first().push(c));
    }
}

/// Number of UTF-8 bytes of a string.
pub fn utf8_byte_len(s: &str) -> (r: usize)
    requires
        utf8_len(s@) <= usize::MAX,
    ensures
        r == utf8_len(s@),
{
    let n = s.unicode_len();
    let mut i: usize = 0;
    let mut acc: usize = 0;
    while i < n
        invariant
            n == s@.len(),
            i <= n,
            acc == utf8_len(s@.take(i as int)),
            utf8_len(s@) <= usize::MAX,
        decreases n - i,
    {
        proof {
            lemma_utf8_len_push(s@.take(i as int), s@[i as int]);
            assert(s@.take(i as int).push(s@[i as int]) =~= s@.take(i as int + 1));
            lemma_utf8_len_prefix_le(s@, i as int + 1);
        }
        acc = acc + char_width(s.get_char(i));
        i = i + 1;
    }
    assert(s@.take(n as int) =~= s@);
    acc
}

/// Whether the UTF-8 byte length of `s` is below `usize::MAX`.
pub fn utf8_len_fits(s: &str) -> (r: bool)
    ensures
        r == (utf8_len(s@) < usize::MAX),
{
    let n = s.unicode_len();
    let mut i: usize = 0;
    let mut acc: usize = 0;
    while i < n
        invariant
            n == s@.len(),
            i <= n,
            acc == utf8_len(s@.take(i as int)),
            acc < usize::MAX,
        decreases n - i,
    {
        proof {
            lemma_utf8_len_push(s@.take(i as int), s@[i as int]);
            assert(s@.take(i as int).push(s@[i as int]) =~= s@.take(i as int + 1));
            lemma_utf8_len_prefix_le(s@, i as int + 1);
        }
        let w = char_width(s.get_char(i));
        if w >= usize::MAX - acc {
            return false;
        }
        acc = acc + w;
        i = i + 1;
    }
    assert(s@.take(n as int) =~= s@);
    true
}

/// The bytes of a prefix never outnumber the bytes of the whole.
pub proof fn lemma_utf8_len_prefix_le(s: Seq<char>, k: int)
    requires
        0 <= k <= s.len(),
    ensures
        utf8_len(s.take(k)) <= utf8_len(s),
    decreases s.len(),
{
    if k > 0 {
        lemma_utf8_len_prefix_le(s.drop_first(), k - 1);
        assert(s.take(k).drop_first() =~= s.drop_first().take(k - 1));
    }
}

/// Byte lengths add up over concatenation.
pub proof fn lemma_utf8_len_concat(a: Seq<char>, b: Seq<char>)
    ensures
        utf8_len(a + b) == utf8_len(a) + utf8_len(b),
    decreases a.len(),
{
    if a.len() == 0 {
        assert(a + b =~= b);
    } else {
        lemma_utf8_len_concat(a.drop_first(), b);
        assert((a + b).drop_first() =~= a.drop_first() + b);
        assert((a + b)[0] == a[0]);
    }
}

/// A contiguous piece has no more bytes than the whole.
pub proof fn lemma_utf8_len_subrange(s: Seq<char>, i: int, j: int)
    requires
        0 <= i <= j <= s.len(),
    ensures
        utf8_len(s.subrange(i, j)) <= utf8_len(s),
{
    lemma_utf8_len_concat(s.take(i), s.skip(i));
    assert(s =~= s.take(i) + s.skip(i));
    lemma_utf8_len_concat(s.subrange(i, j), s.skip(j));
    assert(s.skip(i) =~= s.subrange(i, j) + s.skip(j));
}

/// The characters found for `n` bytes are a prefix of `s` with exactly `n` bytes.
pub proof fn lemma_chars_in_bytes(s: Seq<char>, n: int)
    ensures
        chars_in_bytes(s, n) matches Some(k) ==> k <= s.len() && utf8_len(s.take(k as int)) == n,
    decreases s.len(),
{
    if n != 0 && n >= 0 && s.len() > 0 && char_utf8_len(s[0]) <= n {
        lemma_chars_in_bytes(s.drop_first(), n - char_utf8_len(s[0]));
        if let Some(k) = chars_in_bytes(s, n) {
            assert(s.take(k as int).drop_first() =~= s.drop_first().take(k - 1));
            assert(s.take(k as int)[0] == s[0]);
        }
    } else if n == 0 {
        assert(s.take(0) =~= Seq::<char>::empty());
    }
}

/// A prefix's own byte count gives back the prefix's length.
pub proof fn lemma_chars_in_bytes_prefix(s: Seq<char>, k: int)
    requires
        0 <= k <= s.len(),
    ensures
        chars_in_bytes(s, utf8_len(s.take(k)) as int) == Some(k as nat),
    decreases s.len(),
{
    if k == 0 {
        assert(s.take(0) =~= Seq::<char>::empty());
    } else {
        lemma_chars_in_bytes_prefix(s.drop_first(), k - 1);
        assert(s.take(k).drop_first() =~= s.drop_first().take(k - 1));
        assert(s.take(k)[0] == s[0]);
    }
}

/// How many characters of `s` make up exactly its first `n` bytes, if any.
pub fn chars_for_bytes(s: &str, n: usize) -> (r: Option<usize>)
    ensures
        r is Some <==> chars_in_bytes(s@, n as int) is Some,
        r matches Some(k) ==> k <= s@.len() && chars_in_bytes(s@, n as int) == Some(k as nat),
{
    let len = s.unicode_len();
    let mut i: usize = 0;
    let mut acc: usize = 0;
    assert(s@.skip(0) =~= s@);
    while acc < n && i < len
        invariant
            len == s@.len(),
            i <= len,
            acc <= n,
            chars_in_bytes(s@, n as int) == match chars_in_bytes(s@.skip(i as int), n - acc) {
                Some(k) => Some((k + i) as nat),
                None => None::<nat>,
            },
        decreases len - i,
    {
        let w = char_width(s.get_char(i));
        proof {
            let t = s@.skip(i as int);
            assert(t[0] == s@[i as int]);
            assert(t.drop_first() =~= s@.skip(i as int + 1));
        }
        if w > n - acc {
            return None;
        }
        acc = acc + w;
        i = i + 1;
    }
    proof {
        lemma_chars_in_bytes(s@, n as int);
    }
    if acc == n {
        Some(i)
    } else {
        None
    }
}

/// The decimal numeral of `n`.
pub fn decimal_string(n: u64) -> (r: String)
    ensures
        r@ == decimal(n as nat),
    decreases n,
{
    let digits = "0123456789";
    proof {
        reveal_strlit("0123456789");
    }
    if n < 10 {
        let d = n as usize;
        let mut r = String::new();
        r.append(digits.substring_char(d, d + 1));
        assert(r@ =~= seq![digit_char(n as int)]);
        r
    } else {
        let mut r = decimal_string(n / 10);
        let d = (n % 10) as usize;
        r.append(digits.substring_char(d, d + 1));
        assert(r@ =~= decimal((n / 10) as nat).push(digit_char((n % 10) as int)));
        r
    }
}

} // verus!

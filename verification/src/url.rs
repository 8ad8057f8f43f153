//! Lexical layer of URLs: splitting a path from its query, path segments,
//! and percent encoding, as provided by `ruled_router::utils`.
use vstd::prelude::*;
use vstd::utf8::*;

verus! {

/// The error type of `ruled_router`, carried through as an opaque value.
#[verifier::external_type_specification]
#[verifier::external_body]
pub struct ExParseError(ruled_router::error::ParseError);

/// Index of the first occurrence of `c` in `s`.
pub open spec fn first_index_of(s: Seq<char>, c: char) -> Option<nat>
    decreases s.len(),
{
    if s.len() == 0 {
        None
    } else if s[0] == c {
        Some(0)
    } else {
        match first_index_of(s.drop_first(), c) {
            Some(i) => Some(i + 1),
            None => None,
        }
    }
}

/// What `first_index_of` finds: the first position holding `c`, or none at all.
pub proof fn lemma_first_index_of(s: Seq<char>, c: char)
    ensures
        match first_index_of(s, c) {
            Some(i) => i < s.len() && s[i as int] == c && forall|j: int| 0 <= j < i ==> s[j] != c,
            None => forall|j: int| 0 <= j < s.len() ==> s[j] != c,
        },
    decreases s.len(),
{
    if s.len() > 0 && s[0] != c {
        lemma_first_index_of(s.drop_first(), c);
        assert forall|j: int| 0 < j < s.len() implies s[j] == s.drop_first()[j - 1] by {}
    }
}

/// The path part and the optional query part of a URL, split at the first `?`.
pub open spec fn spec_split_path_query(url: Seq<char>) -> (Seq<char>, Option<Seq<char>>) {
    match first_index_of(url, '?') {
        Some(i) => (url.take(i as int), Some(url.skip(i as int + 1))),
        None => (url, None),
    }
}

/// The non-empty pieces of `path` between `/` characters, in order.
pub open spec fn path_segments(path: Seq<char>) -> Seq<Seq<char>>
    decreases path.len(),
{
    match first_index_of(path, '/') {
        None => if path.len() == 0 { seq![] } else { seq![path] },
        Some(i) => {
            proof {
                lemma_first_index_of(path, '/');
            }
            let head = path.take(i as int);
            let rest = path_segments(path.skip(i as int + 1));
            if head.len() == 0 { rest } else { seq![head] + rest }
        },
    }
}

/// Each segment is a contiguous piece of the path, so it has no more bytes than the path.
pub proof fn lemma_segments_within(path: Seq<char>)
    ensures
        forall|k: int| 0 <= k < path_segments(path).len() ==>
            crate::text::utf8_len(#[trigger] path_segments(path)[k]) <= crate::text::utf8_len(path),
    decreases path.len(),
{
    lemma_first_index_of(path, '/');
    match first_index_of(path, '/') {
        None => {},
        Some(i) => {
            let head = path.take(i as int);
            let tail = path.skip(i as int + 1);
            lemma_segments_within(tail);
            crate::text::lemma_utf8_len_subrange(path, 0, i as int);
            crate::text::lemma_utf8_len_subrange(path, i as int + 1, path.len() as int);
            assert(tail =~= path.subrange(i as int + 1, path.len() as int));
            assert(head =~= path.subrange(0, i as int));
            let rest = path_segments(tail);
            if head.len() != 0 {
                assert forall|k: int| 0 <= k < path_segments(path).len() implies
                    crate::text::utf8_len(#[trigger] path_segments(path)[k]) <= crate::text::utf8_len(path) by {
                    if k > 0 {
                        assert(path_segments(path)[k] == rest[k - 1]);
                    }
                }
            }
        },
    }
}

/// A path holding a character other than `/` has at least one segment.
pub proof fn lemma_segments_nonempty(path: Seq<char>, j: int)
    requires
        0 <= j < path.len(),
        path[j] != '/',
    ensures
        path_segments(path).len() > 0,
    decreases path.len(),
{
    lemma_first_index_of(path, '/');
    match first_index_of(path, '/') {
        None => {},
        Some(i) => {
            if i == 0 {
                assert(path.skip(1)[j - 1] == path[j]);
                lemma_segments_nonempty(path.skip(1), j - 1);
            } else {
                assert(path.take(i as int).len() > 0);
            }
        },
    }
}

/// Characters that percent encoding leaves as they are (RFC 3986 unreserved).
pub open spec fn is_unreserved(c: char) -> bool {
    ||| ('A' <= c && c <= 'Z')
    ||| ('a' <= c && c <= 'z')
    ||| ('0' <= c && c <= '9')
    ||| c == '-' || c == '_' || c == '.' || c == '~'
}

/// Upper-case hexadecimal digit of a value below 16.
pub open spec fn hex_digit_upper(d: int) -> char {
    seq!['0', '1', '2', '3', '4', '5', '6', '7', '8', '9', 'A', 'B', 'C', 'D', 'E', 'F'][d]
}

/// `%` followed by two upper-case hexadecimal digits for each byte.
pub open spec fn percent_bytes(bytes: Seq<u8>) -> Seq<char>
    decreases bytes.len(),
{
    if bytes.len() == 0 {
        seq![]
    } else {
        seq!['%', hex_digit_upper(bytes[0] as int / 16), hex_digit_upper(bytes[0] as int % 16)]
            + percent_bytes(bytes.drop_first())
    }
}

/// Percent encoding of one character.
pub open spec fn encode_char(c: char) -> Seq<char> {
    if is_unreserved(c) {
        seq![c]
    } else if c == ' ' {
        seq!['%', '2', '0']
    } else {
        percent_bytes(encode_utf8(seq![c]))
    }
}

/// Percent encoding of a character sequence, character by character.
pub open spec fn spec_url_encode(s: Seq<char>) -> Seq<char>
    decreases s.len(),
{
    if s.len() == 0 {
        seq![]
    } else {
        encode_char(s[0]) + spec_url_encode(s.drop_first())
    }
}

/// Value of a hexadecimal digit, either case.
pub open spec fn hex_value(c: char) -> Option<u8> {
    if '0' <= c && c <= '9' {
        Some((c as u32 - '0' as u32) as u8)
    } else if 'a' <= c && c <= 'f' {
        Some((c as u32 - 'a' as u32 + 10) as u8)
    } else if 'A' <= c && c <= 'F' {
        Some((c as u32 - 'A' as u32 + 10) as u8)
    } else {
        None
    }
}

/// The byte that `u8::from_str_radix(.., 16)` reads from the two characters
/// after a `%`: an optional leading `+` sign, then hexadecimal digits.
pub open spec fn hex_pair_value(c1: char, c2: char) -> Option<u8> {
    if c1 == '+' {
        hex_value(c2)
    } else {
        match (hex_value(c1), hex_value(c2)) {
            (Some(a), Some(b)) => Some((a * 16 + b) as u8),
            _ => None,
        }
    }
}

/// The bytes that percent decoding produces: `%xy` gives one byte, `+` gives a
/// space, any other character gives its UTF-8 bytes; `None` on a bad `%` escape.
pub open spec fn url_decode_bytes(s: Seq<char>) -> Option<Seq<u8>>
    decreases s.len(),
{
    if s.len() == 0 {
        Some(seq![])
    } else if s[0] == '%' {
        if s.len() < 3 {
            None
        } else {
            match hex_pair_value(s[1], s[2]) {
                None => None,
                Some(b) => match url_decode_bytes(s.skip(3)) {
                    None => None,
                    Some(rest) => Some(seq![b] + rest),
                },
            }
        }
    } else {
        match url_decode_bytes(s.drop_first()) {
            None => None,
            Some(rest) => if s[0] == '+' {
                Some(seq![32u8] + rest)
            } else {
                Some(encode_utf8(seq![s[0]]) + rest)
            },
        }
    }
}

/// Percent decoding: the decoded bytes read as UTF-8, `None` where an escape
/// is malformed or the bytes are not valid UTF-8.
pub open spec fn spec_url_decode(s: Seq<char>) -> Option<Seq<char>> {
    match url_decode_bytes(s) {
        Some(bytes) => if valid_utf8(bytes) { Some(decode_utf8(bytes)) } else { None },
        None => None,
    }
}

/// Every character is unreserved or a `%`: the alphabet of percent-encoded text.
pub open spec fn is_url_safe(s: Seq<char>) -> bool {
    forall|i: int| 0 <= i < s.len() ==> is_unreserved(#[trigger] s[i]) || s[i] == '%'
}

proof fn lemma_hex_digit_upper(d: int)
    requires
        0 <= d < 16,
    ensures
        hex_value(hex_digit_upper(d)) == Some(d as u8),
        hex_digit_upper(d) != '+',
        is_unreserved(hex_digit_upper(d)),
{
    let s = seq!['0', '1', '2', '3', '4', '5', '6', '7', '8', '9', 'A', 'B', 'C', 'D', 'E', 'F'];
    assert(hex_digit_upper(d) == s[d]);
    if d < 10 {
        assert(s[d] as u32 == '0' as u32 + d);
    } else {
        assert(s[d] as u32 == 'A' as u32 + d - 10);
    }
}

proof fn lemma_percent_bytes_decode(bytes: Seq<u8>, tail: Seq<char>)
    ensures
        url_decode_bytes(percent_bytes(bytes) + tail) == match url_decode_bytes(tail) {
            Some(r) => Some(bytes + r),
            None => None::<Seq<u8>>,
        },
        is_url_safe(percent_bytes(bytes)),
    decreases bytes.len(),
{
    if bytes.len() == 0 {
        assert(percent_bytes(bytes) + tail =~= tail);
        assert(bytes + seq![] =~= bytes);
        match url_decode_bytes(tail) {
            Some(r) => assert(bytes + r =~= r),
            None => {},
        }
    } else {
        let b = bytes[0];
        let rest = bytes.drop_first();
        lemma_percent_bytes_decode(rest, tail);
        lemma_hex_digit_upper(b as int / 16);
        lemma_hex_digit_upper(b as int % 16);
        let h1 = hex_digit_upper(b as int / 16);
        let h2 = hex_digit_upper(b as int % 16);
        let s = percent_bytes(bytes) + tail;
        assert(percent_bytes(bytes) == seq!['%', h1, h2] + percent_bytes(rest));
        assert(s =~= seq!['%', h1, h2] + (percent_bytes(rest) + tail));
        assert(s.skip(3) =~= percent_bytes(rest) + tail);
        assert(hex_pair_value(h1, h2) == Some(b));
        match url_decode_bytes(tail) {
            Some(r) => {
                assert(seq![b] + (rest + r) =~= bytes + r);
            },
            None => {},
        }
        let p = percent_bytes(bytes);
        assert forall|i: int| 0 <= i < p.len() implies is_unreserved(#[trigger] p[i]) || p[i] == '%' by {
            if i >= 3 {
                assert(p[i] == percent_bytes(rest)[i - 3]);
            }
        }
    }
}

proof fn lemma_encode_utf8_single(c: char)
    ensures
        encode_utf8(seq![c]) == encode_scalar(c as u32),
{
    assert(seq![c].drop_first() =~= Seq::<char>::empty());
    assert(encode_utf8(Seq::<char>::empty()) =~= Seq::<u8>::empty());
    assert(seq![c][0] == c);
    assert(encode_scalar(c as u32) + Seq::<u8>::empty() =~= encode_scalar(c as u32));
}

proof fn lemma_encode_char_decode(c: char, tail: Seq<char>)
    ensures
        url_decode_bytes(encode_char(c) + tail) == match url_decode_bytes(tail) {
            Some(r) => Some(encode_utf8(seq![c]) + r),
            None => None::<Seq<u8>>,
        },
        is_url_safe(encode_char(c)),
{
    let s = encode_char(c) + tail;
    if is_unreserved(c) {
        assert(s =~= seq![c] + tail);
        assert(s.drop_first() =~= tail);
    } else if c == ' ' {
        lemma_encode_utf8_single(c);
        assert((32u32 & 0x7Fu32) as u8 == 32u8) by (bit_vector);
        assert(encode_scalar(' ' as u32) =~= seq![32u8]);
        assert(seq!['%', '2', '0'] =~= percent_bytes(seq![32u8])) by {
            assert(seq![32u8].drop_first() =~= Seq::<u8>::empty());
            assert(percent_bytes(Seq::<u8>::empty()) =~= Seq::<char>::empty());
            assert(seq![32u8][0] == 32u8);
            assert(hex_digit_upper(2) == '2');
            assert(hex_digit_upper(0) == '0');
        }
        lemma_percent_bytes_decode(seq![32u8], tail);
    } else {
        lemma_percent_bytes_decode(encode_utf8(seq![c]), tail);
    }
}

/// Percent decoding undoes percent encoding, for every character sequence;
/// the encoded text is made of unreserved characters and `%` only.
pub proof fn lemma_url_decode_encode(t: Seq<char>)
    ensures
        url_decode_bytes(spec_url_encode(t)) == Some(encode_utf8(t)),
        spec_url_decode(spec_url_encode(t)) == Some(t),
        is_url_safe(spec_url_encode(t)),
    decreases t.len(),
{
    if t.len() == 0 {
    } else {
        let rest = t.drop_first();
        lemma_url_decode_encode(rest);
        lemma_encode_char_decode(t[0], spec_url_encode(rest));
        lemma_encode_utf8_single(t[0]);
        assert(encode_utf8(t) == encode_scalar(t[0] as u32) + encode_utf8(rest));
        let e = spec_url_encode(t);
        let a = encode_char(t[0]);
        let b = spec_url_encode(rest);
        assert(e == a + b);
        assert forall|i: int| 0 <= i < e.len() implies is_unreserved(#[trigger] e[i]) || e[i] == '%' by {
            if i < a.len() {
                assert(e[i] == a[i]);
            } else {
                assert(e[i] == b[i - a.len()]);
            }
        }
    }
    encode_utf8_valid_utf8(t);
    encode_utf8_decode_utf8(t);
}

/// Text made of unreserved characters only is its own percent encoding.
pub proof fn lemma_url_encode_unreserved(s: Seq<char>)
    requires
        forall|i: int| 0 <= i < s.len() ==> is_unreserved(#[trigger] s[i]),
    ensures
        spec_url_encode(s) == s,
    decreases s.len(),
{
    if s.len() > 0 {
        assert(is_unreserved(s[0]));
        assert forall|i: int| 0 <= i < s.drop_first().len() implies is_unreserved(#[trigger] s.drop_first()[i]) by {
            assert(s.drop_first()[i] == s[i + 1]);
        }
        lemma_url_encode_unreserved(s.drop_first());
        assert(seq![s[0]] + s.drop_first() =~= s);
    }
}

/// `ruled_router::utils::split_path_query`: splits `url` at its first `?`.
#[verifier::external_body]
pub(crate) fn split_path_query<'a>(url: &'a str) -> (r: (&'a str, Option<&'a str>))
    ensures
        r.0@ == spec_split_path_query(url@).0,
        r.1 matches Some(q) ==> spec_split_path_query(url@).1 == Some(q@),
        r.1 is None <==> spec_split_path_query(url@).1 is None,
{
    ruled_router::utils::split_path_query(url)
}

/// `ruled_router::utils::split_path_segments`: the non-empty `/`-separated
/// segments of `path`.
#[verifier::external_body]
pub(crate) fn split_path_segments<'a>(path: &'a str) -> (r: Vec<&'a str>)
    ensures
        r@.len() == path_segments(path@).len(),
        forall|i: int| 0 <= i < r@.len() ==> #[trigger] r@[i]@ == path_segments(path@)[i],
{
    ruled_router::utils::split_path_segments(path)
}

/// `ruled_router::utils::url_encode`: unreserved characters stay, a space
/// becomes `%20`, every other character becomes its UTF-8 bytes as `%XX`.
#[verifier::external_body]
pub(crate) fn url_encode(input: &str) -> (r: String)
    ensures
        r@ == spec_url_encode(input@),
{
    ruled_router::utils::url_encode(input)
}

/// `ruled_router::utils::url_decode`: succeeds exactly when `spec_url_decode`
/// gives a result, and then returns it.
#[verifier::external_body]
pub(crate) fn url_decode(input: &str) -> (r: Result<String, ruled_router::error::ParseError>)
    ensures
        r is Ok <==> spec_url_decode(input@) is Some,
        r matches Ok(s) ==> spec_url_decode(input@) == Some(s@),
{
    ruled_router::utils::url_decode(input)
}

} // verus!

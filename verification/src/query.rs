//! Query strings: decoding into a key/values map and encoding back, as
//! provided by `ruled_router` (`parse_query_string`, `QueryParser`,
//! `QueryFormatter`), and the numeric parameters read from them.
use vstd::prelude::*;
use std::collections::HashMap;
use ruled_router::error::ParseError;
use ruled_router::formatter::QueryFormatter;
use ruled_router::parser::QueryParser;
use crate::text::{decimal, digit_char};
use crate::url::{first_index_of, is_url_safe, lemma_first_index_of, lemma_url_decode_encode, spec_url_decode, spec_url_encode};

verus! {

/// Decoded query: each key with its values in the order they occur.
pub type QueryMap = Map<Seq<char>, Seq<Seq<char>>>;

/// `ruled_router`'s query parser, holding a decoded query.
#[verifier::external_type_specification]
#[verifier::external_body]
pub struct ExQueryParser(QueryParser);

/// `ruled_router`'s query formatter, holding the parameters to encode.
#[verifier::external_type_specification]
#[verifier::external_body]
pub struct ExQueryFormatter(QueryFormatter);

/// The decoded parameters that a `QueryParser` holds.
pub uninterp spec fn query_parser_params(p: QueryParser) -> QueryMap;

/// The parameters that a `QueryFormatter` holds.
pub uninterp spec fn query_formatter_params(f: QueryFormatter) -> QueryMap;

/// The pieces of `s` between occurrences of `c` (empty pieces included), as `str::split`.
pub open spec fn split_on(s: Seq<char>, c: char) -> Seq<Seq<char>>
    decreases s.len(),
{
    match first_index_of(s, c) {
        None => seq![s],
        Some(i) => {
            proof {
                lemma_first_index_of(s, c);
            }
            seq![s.take(i as int)] + split_on(s.skip(i as int + 1), c)
        },
    }
}

/// Key and value of one `key=value` pair (or a bare `key` with an empty value), decoded.
pub open spec fn decode_pair(p: Seq<char>) -> Option<(Seq<char>, Seq<char>)> {
    match first_index_of(p, '=') {
        Some(i) => match (spec_url_decode(p.take(i as int)), spec_url_decode(p.skip(i as int + 1))) {
            (Some(k), Some(v)) => Some((k, v)),
            _ => None,
        },
        None => match spec_url_decode(p) {
            Some(k) => Some((k, seq![])),
            None => None,
        },
    }
}

/// The values recorded so far for `k`.
pub open spec fn values_of(m: QueryMap, k: Seq<char>) -> Seq<Seq<char>> {
    if m.contains_key(k) { m[k] } else { seq![] }
}

/// Adds the pairs in order to `acc`, skipping empty pieces; `None` if one does not decode.
pub open spec fn fold_query_pairs(pairs: Seq<Seq<char>>, acc: QueryMap) -> Option<QueryMap>
    decreases pairs.len(),
{
    if pairs.len() == 0 {
        Some(acc)
    } else if pairs[0].len() == 0 {
        fold_query_pairs(pairs.drop_first(), acc)
    } else {
        match decode_pair(pairs[0]) {
            None => None,
            Some((k, v)) => fold_query_pairs(pairs.drop_first(), acc.insert(k, values_of(acc, k).push(v))),
        }
    }
}

/// The decoded map of a query string (without its leading `?`), as
/// `ruled_router::utils::parse_query_string` computes it.
pub open spec fn spec_query_map(q: Seq<char>) -> Option<QueryMap> {
    if q.len() == 0 {
        Some(Map::empty())
    } else {
        fold_query_pairs(split_on(q, '&'), Map::empty())
    }
}

/// The first value of `k`, if the query holds it.
pub open spec fn query_first(m: QueryMap, k: Seq<char>) -> Option<Seq<char>> {
    if m.contains_key(k) && m[k].len() > 0 { Some(m[k][0]) } else { None }
}

/// One encoded `key=value` piece; an empty value leaves the bare key.
pub open spec fn query_part(k: Seq<char>, v: Seq<char>) -> Seq<char> {
    if v.len() == 0 {
        spec_url_encode(k)
    } else {
        spec_url_encode(k) + seq!['='] + spec_url_encode(v)
    }
}

/// The encoded pieces of the keys, in the order given, each key with all its values.
pub open spec fn parts_in_order(keys: Seq<Seq<char>>, m: QueryMap) -> Seq<Seq<char>>
    decreases keys.len(),
{
    if keys.len() == 0 {
        seq![]
    } else {
        m[keys[0]].map_values(|v: Seq<char>| query_part(keys[0], v))
            + parts_in_order(keys.drop_first(), m)
    }
}

/// The pieces joined with `&`.
pub open spec fn join_amp(parts: Seq<Seq<char>>) -> Seq<char>
    decreases parts.len(),
{
    if parts.len() == 0 {
        seq![]
    } else if parts.len() == 1 {
        parts[0]
    } else {
        parts[0] + seq!['&'] + join_amp(parts.drop_first())
    }
}

/// `s` is one of the query strings that encoding `m` may give: the keys come
/// in some order (the one a hash map is walked in), each with its values.
pub open spec fn is_query_format_of(m: QueryMap, s: Seq<char>) -> bool {
    exists|keys: Seq<Seq<char>>|
        #![trigger parts_in_order(keys, m)]
        keys.no_duplicates() && keys.to_set() == m.dom() && s == join_amp(parts_in_order(keys, m))
}

/// Value of a decimal digit character.
pub open spec fn digit_value(c: char) -> int {
    c as u32 - '0' as u32
}

/// Every character is an ASCII digit.
pub open spec fn all_digits(s: Seq<char>) -> bool {
    forall|i: int| 0 <= i < s.len() ==> '0' <= #[trigger] s[i] && s[i] <= '9'
}

/// The value of a numeral made of digits.
pub open spec fn digits_value(s: Seq<char>) -> nat
    decreases s.len(),
{
    if s.len() == 0 {
        0
    } else {
        (digits_value(s.drop_last()) * 10 + digit_value(s.last())) as nat
    }
}

/// `u32::from_str`: an optional `+`, then one or more digits, within range.
pub open spec fn spec_parse_u32(s: Seq<char>) -> Option<u32> {
    let d = if s.len() > 0 && s[0] == '+' { s.drop_first() } else { s };
    if d.len() > 0 && all_digits(d) && digits_value(d) <= u32::MAX {
        Some(digits_value(d) as u32)
    } else {
        None
    }
}

/// A position holding `c` with no `c` before it is the first index of `c`.
pub proof fn lemma_first_index_is(s: Seq<char>, c: char, i: int)
    requires
        0 <= i < s.len(),
        s[i] == c,
        forall|j: int| 0 <= j < i ==> s[j] != c,
    ensures
        first_index_of(s, c) == Some(i as nat),
{
    lemma_first_index_of(s, c);
}

/// A sequence without `c` has no first index of `c`.
pub proof fn lemma_first_index_none(s: Seq<char>, c: char)
    requires
        forall|j: int| 0 <= j < s.len() ==> s[j] != c,
    ensures
        first_index_of(s, c) is None,
{
    lemma_first_index_of(s, c);
}

proof fn lemma_split_join(parts: Seq<Seq<char>>)
    requires
        parts.len() > 0,
        forall|i: int, j: int| 0 <= i < parts.len() && 0 <= j < parts[i].len() ==> #[trigger] parts[i][j] != '&',
    ensures
        split_on(join_amp(parts), '&') == parts,
    decreases parts.len(),
{
    let p0 = parts[0];
    if parts.len() == 1 {
        lemma_first_index_none(p0, '&');
        assert(split_on(p0, '&') =~= seq![p0]);
        assert(parts =~= seq![p0]);
    } else {
        let rest = parts.drop_first();
        assert forall|i: int, j: int| 0 <= i < rest.len() && 0 <= j < rest[i].len() implies #[trigger] rest[i][j] != '&' by {
            assert(rest[i] == parts[i + 1]);
        }
        lemma_split_join(rest);
        let s = join_amp(parts);
        assert(s == p0 + seq!['&'] + join_amp(rest));
        assert(s[p0.len() as int] == '&');
        assert forall|j: int| 0 <= j < p0.len() implies s[j] != '&' by {
            assert(s[j] == p0[j]);
            assert(parts[0][j] != '&');
        }
        lemma_first_index_is(s, '&', p0.len() as int);
        assert(s.take(p0.len() as int) =~= p0);
        assert(s.skip(p0.len() as int + 1) =~= join_amp(rest));
        assert(parts =~= seq![p0] + rest);
    }
}

/// The encoded key has no `=` and no `&`; the encoded value has no `&`.
pub proof fn lemma_query_part(k: Seq<char>, v: Seq<char>)
    requires
        k.len() > 0,
    ensures
        decode_pair(query_part(k, v)) == Some((k, v)),
        query_part(k, v).len() > 0,
        forall|j: int| 0 <= j < query_part(k, v).len() ==> #[trigger] query_part(k, v)[j] != '&',
{
    lemma_url_decode_encode(k);
    lemma_url_decode_encode(v);
    let ek = spec_url_encode(k);
    let ev = spec_url_encode(v);
    lemma_encode_nonempty(k);
    let p = query_part(k, v);
    assert forall|j: int| 0 <= j < ek.len() implies ek[j] != '=' && ek[j] != '&' by {
        assert(is_url_safe(ek));
    }
    if v.len() == 0 {
        lemma_first_index_none(ek, '=');
        assert(v =~= seq![]);
    } else {
        assert(p == ek + seq!['='] + ev);
        assert(p[ek.len() as int] == '=');
        assert forall|j: int| 0 <= j < ek.len() implies p[j] != '=' by {
            assert(p[j] == ek[j]);
        }
        lemma_first_index_is(p, '=', ek.len() as int);
        assert(p.take(ek.len() as int) =~= ek);
        assert(p.skip(ek.len() as int + 1) =~= ev);
        assert forall|j: int| 0 <= j < p.len() implies #[trigger] p[j] != '&' by {
            if j < ek.len() {
                assert(p[j] == ek[j]);
            } else if j > ek.len() {
                assert(p[j] == ev[j - ek.len() - 1]);
                assert(is_url_safe(ev));
            }
        }
    }
}

proof fn lemma_encode_nonempty(k: Seq<char>)
    requires
        k.len() > 0,
    ensures
        spec_url_encode(k).len() > 0,
{
    let c = k[0];
    if !crate::url::is_unreserved(c) && c != ' ' {
        assert(seq![c].drop_first() =~= Seq::<char>::empty());
        assert(seq![c][0] == c);
        assert(vstd::utf8::encode_utf8(seq![c]).len() > 0);
    }
}

/// Every key has exactly one value and is not empty.
pub open spec fn single_valued(m: QueryMap) -> bool {
    forall|k: Seq<char>| #[trigger] m.contains_key(k) ==> m[k].len() == 1 && k.len() > 0
}

pub proof fn lemma_parts_single(keys: Seq<Seq<char>>, m: QueryMap)
    requires
        single_valued(m),
        forall|i: int| 0 <= i < keys.len() ==> m.contains_key(#[trigger] keys[i]),
    ensures
        parts_in_order(keys, m) == keys.map_values(|k: Seq<char>| query_part(k, m[k][0])),
    decreases keys.len(),
{
    if keys.len() > 0 {
        let rest = keys.drop_first();
        assert forall|i: int| 0 <= i < rest.len() implies m.contains_key(#[trigger] rest[i]) by {
            assert(rest[i] == keys[i + 1]);
        }
        lemma_parts_single(rest, m);
        let k0 = keys[0];
        assert(m.contains_key(k0));
        assert(m[k0] =~= seq![m[k0][0]]);
        assert(m[k0].map_values(|v: Seq<char>| query_part(k0, v)) =~= seq![query_part(k0, m[k0][0])]);
        assert(parts_in_order(keys, m) =~= keys.map_values(|k: Seq<char>| query_part(k, m[k][0])));
    } else {
        assert(parts_in_order(keys, m) =~= keys.map_values(|k: Seq<char>| query_part(k, m[k][0])));
    }
}

proof fn lemma_fold_parts(keys: Seq<Seq<char>>, m: QueryMap, acc: QueryMap)
    requires
        single_valued(m),
        keys.no_duplicates(),
        forall|i: int| 0 <= i < keys.len() ==> m.contains_key(#[trigger] keys[i]),
        forall|i: int| 0 <= i < keys.len() ==> !acc.contains_key(#[trigger] keys[i]),
    ensures
        fold_query_pairs(keys.map_values(|k: Seq<char>| query_part(k, m[k][0])), acc)
            == Some(acc.union_prefer_right(m.restrict(keys.to_set()))),
    decreases keys.len(),
{
    let parts = keys.map_values(|k: Seq<char>| query_part(k, m[k][0]));
    if keys.len() == 0 {
        assert(acc.union_prefer_right(m.restrict(keys.to_set())) =~= acc);
    } else {
        let k0 = keys[0];
        let v0 = m[k0][0];
        let rest = keys.drop_first();
        lemma_query_part(k0, v0);
        assert(parts[0] == query_part(k0, v0));
        let acc2 = acc.insert(k0, seq![v0]);
        assert(values_of(acc, k0) == Seq::<Seq<char>>::empty());
        assert(values_of(acc, k0).push(v0) =~= seq![v0]);
        assert forall|i: int| 0 <= i < rest.len() implies m.contains_key(#[trigger] rest[i]) by {
            assert(rest[i] == keys[i + 1]);
        }
        assert forall|i: int| 0 <= i < rest.len() implies !acc2.contains_key(#[trigger] rest[i]) by {
            assert(rest[i] == keys[i + 1]);
            assert(keys[i + 1] != keys[0]);
        }
        assert(rest.no_duplicates()) by {
            assert forall|i: int, j: int| 0 <= i < rest.len() && 0 <= j < rest.len() && i != j implies rest[i] != rest[j] by {
                assert(rest[i] == keys[i + 1] && rest[j] == keys[j + 1]);
            }
        }
        lemma_fold_parts(rest, m, acc2);
        assert(parts.drop_first() =~= rest.map_values(|k: Seq<char>| query_part(k, m[k][0])));
        assert(m[k0] =~= seq![v0]);
        assert(acc2.union_prefer_right(m.restrict(rest.to_set())) =~= acc.union_prefer_right(m.restrict(keys.to_set()))) by {
            assert forall|k: Seq<char>| keys.to_set().contains(k) <==> (k == k0 || rest.to_set().contains(k)) by {
                if keys.to_set().contains(k) {
                    let i = choose|i: int| 0 <= i < keys.len() && keys[i] == k;
                    if i > 0 {
                        assert(rest[i - 1] == k);
                    }
                }
                if rest.to_set().contains(k) {
                    let i = choose|i: int| 0 <= i < rest.len() && rest[i] == k;
                    assert(keys[i + 1] == k);
                }
                if k == k0 {
                    assert(keys[0] == k);
                }
            }
        }
    }
}

/// Decoding any encoding of a map whose keys are not empty and hold one value
/// each gives back the map, whatever order the keys were encoded in.
pub proof fn lemma_query_roundtrip(m: QueryMap, s: Seq<char>)
    requires
        single_valued(m),
        is_query_format_of(m, s),
    ensures
        spec_query_map(s) == Some(m),
{
    let keys = choose|keys: Seq<Seq<char>>|
        #![trigger parts_in_order(keys, m)]
        keys.no_duplicates() && keys.to_set() == m.dom() && s == join_amp(parts_in_order(keys, m));
    assert forall|i: int| 0 <= i < keys.len() implies m.contains_key(#[trigger] keys[i]) by {
        assert(keys.to_set().contains(keys[i]));
    }
    lemma_parts_single(keys, m);
    let parts = keys.map_values(|k: Seq<char>| query_part(k, m[k][0]));
    lemma_fold_parts(keys, m, Map::empty());
    assert(Map::<Seq<char>, Seq<Seq<char>>>::empty().union_prefer_right(m.restrict(keys.to_set())) =~= m);
    if keys.len() == 0 {
        assert(s =~= Seq::<char>::empty());
        assert(m =~= Map::<Seq<char>, Seq<Seq<char>>>::empty()) by {
            assert forall|k: Seq<char>| !m.contains_key(k) by {
                if m.contains_key(k) {
                    assert(keys.to_set().contains(k));
                }
            }
        }
    } else {
        assert forall|i: int, j: int| 0 <= i < parts.len() && 0 <= j < parts[i].len() implies #[trigger] parts[i][j] != '&' by {
            lemma_query_part(keys[i], m[keys[i]][0]);
        }
        lemma_split_join(parts);
        lemma_query_part(keys[0], m[keys[0]][0]);
        assert(s.len() > 0) by {
            if parts.len() == 1 {
                assert(s == parts[0]);
            } else {
                assert(s == parts[0] + seq!['&'] + join_amp(parts.drop_first()));
            }
        }
    }
}

/// Encoding a map with at least one key gives a non-empty query string.
pub proof fn lemma_query_format_nonempty(m: QueryMap, s: Seq<char>, k: Seq<char>)
    requires
        single_valued(m),
        is_query_format_of(m, s),
        m.contains_key(k),
    ensures
        s.len() > 0,
{
    let keys = choose|keys: Seq<Seq<char>>|
        #![trigger parts_in_order(keys, m)]
        keys.no_duplicates() && keys.to_set() == m.dom() && s == join_amp(parts_in_order(keys, m));
    assert(keys.to_set().contains(k));
    assert forall|i: int| 0 <= i < keys.len() implies m.contains_key(#[trigger] keys[i]) by {
        assert(keys.to_set().contains(keys[i]));
    }
    lemma_parts_single(keys, m);
    let parts = keys.map_values(|k: Seq<char>| query_part(k, m[k][0]));
    lemma_query_part(keys[0], m[keys[0]][0]);
    if parts.len() == 1 {
        assert(s == parts[0]);
    } else {
        assert(s == parts[0] + seq!['&'] + join_amp(parts.drop_first()));
    }
}

/// A numeral's digits give back its value.
proof fn lemma_digits_value_decimal(n: nat)
    ensures
        all_digits(decimal(n)),
        digits_value(decimal(n)) == n,
        decimal(n).len() > 0,
        decimal(n)[0] != '+',
    decreases n,
{
    let ds = seq!['0', '1', '2', '3', '4', '5', '6', '7', '8', '9'];
    assert forall|d: int| 0 <= d < 10 implies '0' <= #[trigger] ds[d] && ds[d] <= '9'
        && digit_value(ds[d]) == d by {
        assert(ds[d] as u32 == '0' as u32 + d);
    }
    if n < 10 {
        assert(digit_char(n as int) == ds[n as int]);
        assert(decimal(n).drop_last() =~= Seq::<char>::empty());
        assert(digits_value(Seq::<char>::empty()) == 0);
        assert(decimal(n).last() == ds[n as int]);
        assert(digit_value(ds[n as int]) == n);
    } else {
        lemma_digits_value_decimal(n / 10);
        let d = decimal(n);
        let p = decimal(n / 10);
        assert(d == p.push(digit_char((n % 10) as int)));
        assert(digit_char((n % 10) as int) == ds[(n % 10) as int]);
        assert(d.drop_last() =~= p);
        assert(d.last() == ds[(n % 10) as int]);
        assert(digit_value(ds[(n % 10) as int]) == n % 10);
        assert(d[0] == p[0]);
        assert forall|i: int| 0 <= i < d.len() implies '0' <= #[trigger] d[i] && d[i] <= '9' by {
            if i < p.len() {
                assert(d[i] == p[i]);
            }
        }
    }
}

/// Reading back the decimal numeral of a `u32` gives the number.
pub proof fn lemma_parse_u32_decimal(n: u32)
    ensures
        spec_parse_u32(decimal(n as nat)) == Some(n),
        all_digits(decimal(n as nat)),
{
    lemma_digits_value_decimal(n as nat);
}

/// `ruled_router::utils::parse_query_string`: splits the query at `&`, skips
/// empty pieces, splits each at its first `=`, percent-decodes key and value
/// and collects the values per key in order; fails where a piece does not decode.
#[verifier::external_body]
pub(crate) fn parse_query_string(query: &str) -> (r: Result<HashMap<String, Vec<String>>, ParseError>)
    ensures
        r is Ok <==> spec_query_map(query@) is Some,
        r matches Ok(m) ==> {
            &&& forall|k: String| #[trigger] m@.contains_key(k) ==> {
                &&& spec_query_map(query@).unwrap().contains_key(k@)
                &&& m@[k]@.map_values(|v: String| v@) == spec_query_map(query@).unwrap()[k@]
            }
            &&& forall|ks: Seq<char>| #[trigger] spec_query_map(query@).unwrap().contains_key(ks)
                ==> exists|k: String| k@ == ks && #[trigger] m@.contains_key(k)
        },
{
    ruled_router::utils::parse_query_string(query)
}

/// `QueryParser::new`: decodes the query as `parse_query_string` does and keeps the map.
#[verifier::external_body]
pub(crate) fn query_parser_new(query: &str) -> (r: Result<QueryParser, ParseError>)
    ensures
        r is Ok <==> spec_query_map(query@) is Some,
        r matches Ok(p) ==> Some(query_parser_params(p)) == spec_query_map(query@),
{
    QueryParser::new(query)
}

/// `QueryParser::get`: the first value of `key`, if there is one.
#[verifier::external_body]
pub(crate) fn query_parser_get<'a>(p: &'a QueryParser, key: &str) -> (r: Option<&'a str>)
    ensures
        r is Some <==> query_first(query_parser_params(*p), key@) is Some,
        r matches Some(v) ==> query_first(query_parser_params(*p), key@) == Some(v@),
{
    p.get(key)
}

/// `QueryFormatter::new`: a formatter without parameters.
#[verifier::external_body]
pub(crate) fn query_formatter_new() -> (r: QueryFormatter)
    ensures
        query_formatter_params(r) == QueryMap::empty(),
{
    QueryFormatter::new()
}

/// `QueryFormatter::set`: `key` now has the one value `value` (a `String`
/// parameter is its own text); the formatter is handed back.
#[verifier::external_body]
pub(crate) fn query_formatter_set(f: QueryFormatter, key: &str, value: String) -> (r: QueryFormatter)
    ensures
        query_formatter_params(r) == query_formatter_params(f).insert(key@, seq![value@]),
{
    let mut f = f;
    f.set(key, value);
    f
}

/// `QueryFormatter::format`: the encoded parameters joined with `&`; the keys
/// come in the order the formatter's hash map is walked, which the source leaves open.
#[verifier::external_body]
pub(crate) fn query_formatter_format(f: &QueryFormatter) -> (r: String)
    ensures
        is_query_format_of(query_formatter_params(*f), r@),
{
    f.format()
}

/// `u32` as a path or query parameter (`<u32 as FromParam>::from_param`, which is `str::parse`).
#[verifier::external_body]
pub(crate) fn u32_from_param(param: &str) -> (r: Result<u32, ParseError>)
    ensures
        r is Ok <==> spec_parse_u32(param@) is Some,
        r matches Ok(n) ==> spec_parse_u32(param@) == Some(n),
{
    <u32 as ruled_router::traits::FromParam>::from_param(param)
}

} // verus!

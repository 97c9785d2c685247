//! The query of a URL as a list of name and value pairs: decoding and encoding
//! by the `form_urlencoded` crate, and on the pairs the rules for removing and
//! for ordering parameters.

use crate::text::{str_le, text_le, lemma_text_le_total, lemma_text_le_transitive};
use crate::text::starts_with;
use crate::url::{is_query_char, is_query_text};
use vstd::prelude::*;
use vstd::string::StringExecFns;
use vstd::utf8::encode_utf8;

verus! {

/// A list of parameters as the contracts see it: names and values as texts.
pub type Pairs = Seq<(Seq<char>, Seq<char>)>;

/// The view of a list of owned pairs.
pub open spec fn pairs_view(pairs: Seq<(String, String)>) -> Pairs {
    Seq::new(pairs.len(), |i: int| (pairs[i].0@, pairs[i].1@))
}

/// What `form_urlencoded::parse` yields for the bytes of `query`: the decoded
/// names and values, in the order in which they stand in the query.
pub uninterp spec fn decoded_pairs(query: Seq<char>) -> Pairs;

/// A byte that the serializer writes as it is: an ASCII letter or digit, or one
/// of `*`, `-`, `.`, `_`.
pub open spec fn is_unreserved(b: u8) -> bool {
    ||| 0x61 <= b <= 0x7A
    ||| 0x41 <= b <= 0x5A
    ||| 0x30 <= b <= 0x39
    ||| b == 0x2A
    ||| b == 0x2D
    ||| b == 0x2E
    ||| b == 0x5F
}

/// The upper-case hexadecimal digit for a number below sixteen.
pub open spec fn hex_upper(n: int) -> char {
    if n < 10 {
        ((48 + n) as u8) as char
    } else {
        ((55 + n) as u8) as char
    }
}

/// One byte in `application/x-www-form-urlencoded`: itself, `+` for a space,
/// or `%` and two hexadecimal digits.
pub open spec fn encoded_byte(b: u8) -> Seq<char> {
    if is_unreserved(b) {
        seq![b as char]
    } else if b == 0x20 {
        seq!['+']
    } else {
        seq!['%', hex_upper(b as int / 16), hex_upper(b as int % 16)]
    }
}

/// The bytes of `bytes`, each encoded, one after the other.
pub open spec fn encoded_bytes(bytes: Seq<u8>) -> Seq<char>
    decreases bytes.len(),
{
    if bytes.len() == 0 {
        Seq::empty()
    } else {
        encoded_bytes(bytes.drop_last()) + encoded_byte(bytes.last())
    }
}

/// A text in `application/x-www-form-urlencoded`: its UTF-8 bytes, encoded.
pub open spec fn form_encoded(text: Seq<char>) -> Seq<char> {
    encoded_bytes(encode_utf8(text))
}

/// One parameter as it stands in a query: the encoded name, and behind `=` the
/// encoded value unless the value is empty.
pub open spec fn pair_text(pair: (Seq<char>, Seq<char>)) -> Seq<char> {
    if pair.1.len() > 0 {
        form_encoded(pair.0) + seq!['='] + form_encoded(pair.1)
    } else {
        form_encoded(pair.0)
    }
}

/// The query that stands for `pairs`: the parameters in order, joined by `&`.
pub open spec fn query_text(pairs: Pairs) -> Seq<char>
    decreases pairs.len(),
{
    if pairs.len() == 0 {
        Seq::empty()
    } else if pairs.len() == 1 {
        pair_text(pairs[0])
    } else {
        query_text(pairs.drop_last()) + seq!['&'] + pair_text(pairs.last())
    }
}

/// How the key of a rule is held against a parameter's name.
#[derive(Clone, Copy, Debug, PartialEq, Eq, Structural)]
pub enum QueryParamMatchType {
    /// The name is the key.
    Equals,
    /// The name begins with the key.
    StartWith,
}

/// A rule that names parameters to be removed: how to match, and the key.
#[derive(Clone, Debug)]
pub struct RemoveQueryParam(pub QueryParamMatchType, pub String);

/// Whether `rule` names the parameter called `name`.
pub open spec fn rule_matches(rule: RemoveQueryParam, name: Seq<char>) -> bool {
    match rule.0 {
        QueryParamMatchType::Equals => name == rule.1@,
        QueryParamMatchType::StartWith => rule.1@.is_prefix_of(name),
    }
}

/// Whether one of `rules` names the parameter called `name`.
pub open spec fn matches_any(rules: Seq<RemoveQueryParam>, name: Seq<char>) -> bool {
    exists|i: int| 0 <= i < rules.len() && rule_matches(#[trigger] rules[i], name)
}

/// The parameters of `pairs` that none of `rules` names, in their order.
pub open spec fn unmatched(pairs: Pairs, rules: Seq<RemoveQueryParam>) -> Pairs
    decreases pairs.len(),
{
    if pairs.len() == 0 {
        pairs
    } else if matches_any(rules, pairs.last().0) {
        unmatched(pairs.drop_last(), rules)
    } else {
        unmatched(pairs.drop_last(), rules).push(pairs.last())
    }
}

/// `sorted` with `pair` put behind the last parameter whose name does not come
/// after the name of `pair`.
pub open spec fn inserted(sorted: Pairs, pair: (Seq<char>, Seq<char>)) -> Pairs
    decreases sorted.len(),
{
    if sorted.len() == 0 {
        seq![pair]
    } else if text_le(sorted.last().0, pair.0) {
        sorted.push(pair)
    } else {
        inserted(sorted.drop_last(), pair).push(sorted.last())
    }
}

/// `pairs` ordered by name, parameters of one name in the order they had.
pub open spec fn sorted_by_name(pairs: Pairs) -> Pairs
    decreases pairs.len(),
{
    if pairs.len() == 0 {
        pairs
    } else {
        inserted(sorted_by_name(pairs.drop_last()), pairs.last())
    }
}

/// Whether the names of `pairs` never go down from one parameter to a later one.
pub open spec fn is_sorted_by_name(pairs: Pairs) -> bool {
    forall|i: int, j: int| 0 <= i <= j < pairs.len() ==> text_le(pairs[i].0, pairs[j].0)
}

/// `form_urlencoded::parse` on the bytes of `query`, collected as owned pairs.
#[verifier::external_body]
fn decode_pairs(query: &str) -> (r: Vec<(String, String)>)
    ensures
        pairs_view(r@) == decoded_pairs(query@),
{
    form_urlencoded::parse(query.as_bytes()).into_owned().collect()
}

/// `form_urlencoded::byte_serialize` on the bytes of `text`, collected: letters,
/// digits and `*-._` as they are, a space as `+`, any other byte as `%` and two
/// upper-case hexadecimal digits.
#[verifier::external_body]
fn form_encode(text: &str) -> (r: String)
    ensures
        r@ == form_encoded(text@),
{
    form_urlencoded::byte_serialize(text.as_bytes()).collect()
}

/// An encoded text is made of query characters.
pub proof fn lemma_encoded_bytes_is_query_text(bytes: Seq<u8>)
    ensures
        is_query_text(encoded_bytes(bytes)),
    decreases bytes.len(),
{
    if bytes.len() > 0 {
        lemma_encoded_bytes_is_query_text(bytes.drop_last());
        let b = bytes.last();
        let e = encoded_byte(b);
        assert forall|i: int| 0 <= i < e.len() implies is_query_char(#[trigger] e[i]) by {
            if is_unreserved(b) {
            } else if b == 0x20 {
            } else {
                assert(is_query_char(hex_upper(b as int / 16)));
                assert(is_query_char(hex_upper(b as int % 16)));
            }
        }
    }
}

/// The query that stands for a list of parameters is made of query characters.
pub proof fn lemma_query_text_is_query_text(pairs: Pairs)
    ensures
        is_query_text(query_text(pairs)),
    decreases pairs.len(),
{
    if pairs.len() > 0 {
        let p = pairs.last();
        lemma_encoded_bytes_is_query_text(encode_utf8(p.0));
        lemma_encoded_bytes_is_query_text(encode_utf8(p.1));
        if pairs.len() > 1 {
            lemma_query_text_is_query_text(pairs.drop_last());
        }
    }
}

/// The decoded parameters of a query.
pub fn query_pairs(query: &str) -> (r: Vec<(String, String)>)
    ensures
        pairs_view(r@) == decoded_pairs(query@),
{
    decode_pairs(query)
}

/// Writes `params` as a query: names and values encoded, a parameter with an
/// empty value as its name alone, the parameters joined by `&`.
pub fn create_query_string(params: &Vec<(String, String)>) -> (r: String)
    ensures
        r@ == query_text(pairs_view(params@)),
        is_query_text(r@),
{
    let ghost all = pairs_view(params@);
    let mut out = String::new();
    let mut i: usize = 0;
    while i < params.len()
        invariant
            i <= params.len(),
            all == pairs_view(params@),
            out@ == query_text(all.take(i as int)),
        decreases params.len() - i,
    {
        let ghost before = out@;
        let ghost next = all.take(i as int + 1);
        let ghost pair = all[i as int];
        proof {
            reveal_strlit("=");
            reveal_strlit("&");
            assert(next.drop_last() =~= all.take(i as int));
            assert(next.last() == pair);
            assert(i == 0 ==> before =~= Seq::<char>::empty()) by {
                assert(all.take(0).len() == 0);
            }
        }
        let name = form_encode(params[i].0.as_str());
        if i > 0 {
            out.append("&");
        }
        out.append(name.as_str());
        if !params[i].1.as_str().is_empty() {
            let value = form_encode(params[i].1.as_str());
            out.append("=");
            out.append(value.as_str());
            assert(out@ =~= (if i > 0 {
                before + seq!['&']
            } else {
                before
            }) + pair_text(pair));
        } else {
            assert(out@ =~= (if i > 0 {
                before + seq!['&']
            } else {
                before
            }) + pair_text(pair));
        }
        assert(out@ =~= query_text(next));
        i = i + 1;
    }
    proof {
        assert(all.take(i as int) =~= all);
        lemma_query_text_is_query_text(all);
    }
    out
}

/// Putting a parameter into an ordered list leaves the list ordered.
pub proof fn lemma_inserted_is_sorted(sorted: Pairs, pair: (Seq<char>, Seq<char>))
    requires
        is_sorted_by_name(sorted),
    ensures
        is_sorted_by_name(inserted(sorted, pair)),
        inserted(sorted, pair).len() == sorted.len() + 1,
        forall|k: int|
            0 <= k < inserted(sorted, pair).len() ==> #[trigger] inserted(sorted, pair)[k] == pair
                || sorted.contains(inserted(sorted, pair)[k]),
    decreases sorted.len(),
{
    let out = inserted(sorted, pair);
    if sorted.len() == 0 {
        crate::text::lemma_text_le_reflexive(pair.0);
    } else if text_le(sorted.last().0, pair.0) {
        assert forall|i: int, j: int| 0 <= i <= j < out.len() implies text_le(
            out[i].0,
            out[j].0,
        ) by {
            if j == out.len() - 1 {
                if i < j {
                    lemma_text_le_transitive(sorted[i].0, sorted.last().0, pair.0);
                } else {
                    crate::text::lemma_text_le_reflexive(pair.0);
                }
            } else {
                assert(out[i] == sorted[i] && out[j] == sorted[j]);
            }
        }
        assert forall|k: int| 0 <= k < out.len() implies #[trigger] out[k] == pair
            || sorted.contains(out[k]) by {
            if k < sorted.len() {
                assert(out[k] == sorted[k]);
            }
        }
    } else {
        let front = sorted.drop_last();
        lemma_inserted_is_sorted(front, pair);
        let inner = inserted(front, pair);
        lemma_text_le_total(sorted.last().0, pair.0);
        assert forall|i: int, j: int| 0 <= i <= j < out.len() implies text_le(
            out[i].0,
            out[j].0,
        ) by {
            if j == out.len() - 1 {
                if i < j {
                    assert(out[i] == inner[i]);
                    if inner[i] == pair {
                    } else {
                        assert(front.contains(inner[i]));
                        let k = choose|k: int| 0 <= k < front.len() && front[k] == inner[i];
                        assert(text_le(sorted[k].0, sorted[sorted.len() - 1].0));
                    }
                } else {
                    crate::text::lemma_text_le_reflexive(out[j].0);
                }
            } else {
                assert(out[i] == inner[i] && out[j] == inner[j]);
            }
        }
        assert forall|k: int| 0 <= k < out.len() implies #[trigger] out[k] == pair
            || sorted.contains(out[k]) by {
            if k < inner.len() {
                assert(out[k] == inner[k]);
                if inner[k] != pair {
                    assert(front.contains(inner[k]));
                    let m = choose|m: int| 0 <= m < front.len() && front[m] == inner[k];
                    assert(sorted[m] == out[k]);
                }
            } else {
                assert(out[k] == sorted[sorted.len() - 1]);
            }
        }
    }
}

/// Ordering by name gives an ordered list of the same length.
pub proof fn lemma_sorted_by_name_is_sorted(pairs: Pairs)
    ensures
        is_sorted_by_name(sorted_by_name(pairs)),
        sorted_by_name(pairs).len() == pairs.len(),
    decreases pairs.len(),
{
    if pairs.len() > 0 {
        lemma_sorted_by_name_is_sorted(pairs.drop_last());
        lemma_inserted_is_sorted(sorted_by_name(pairs.drop_last()), pairs.last());
    }
}

/// Putting a parameter into a list adds it once and takes nothing away.
pub proof fn lemma_inserted_holds_the_same(sorted: Pairs, pair: (Seq<char>, Seq<char>))
    ensures
        inserted(sorted, pair).to_multiset() == sorted.to_multiset().insert(pair),
    decreases sorted.len(),
{
    if sorted.len() == 0 {
        assert(inserted(sorted, pair) =~= sorted.push(pair));
        vstd::seq_lib::to_multiset_build(sorted, pair);
    } else if text_le(sorted.last().0, pair.0) {
        vstd::seq_lib::to_multiset_build(sorted, pair);
    } else {
        let front = sorted.drop_last();
        lemma_inserted_holds_the_same(front, pair);
        vstd::seq_lib::to_multiset_build(inserted(front, pair), sorted.last());
        vstd::seq_lib::to_multiset_build(front, sorted.last());
        assert(front.push(sorted.last()) =~= sorted);
        assert(front.to_multiset().insert(pair).insert(sorted.last()) =~= front.to_multiset().insert(
            sorted.last(),
        ).insert(pair));
    }
}

/// An ordered list holds the parameters that the list held, each as often as
/// it stood there.
pub proof fn lemma_sorted_by_name_holds_the_same(pairs: Pairs)
    ensures
        sorted_by_name(pairs).to_multiset() == pairs.to_multiset(),
    decreases pairs.len(),
{
    if pairs.len() > 0 {
        let front = pairs.drop_last();
        lemma_sorted_by_name_holds_the_same(front);
        lemma_inserted_holds_the_same(sorted_by_name(front), pairs.last());
        vstd::seq_lib::to_multiset_build(front, pairs.last());
        assert(front.push(pairs.last()) =~= pairs);
    }
}

/// Ordering a list that is ordered already changes nothing.
pub proof fn lemma_sorted_by_name_of_sorted(pairs: Pairs)
    requires
        is_sorted_by_name(pairs),
    ensures
        sorted_by_name(pairs) == pairs,
    decreases pairs.len(),
{
    if pairs.len() > 0 {
        let front = pairs.drop_last();
        assert(is_sorted_by_name(front)) by {
            assert forall|i: int, j: int| 0 <= i <= j < front.len() implies text_le(
                front[i].0,
                front[j].0,
            ) by {
                assert(front[i] == pairs[i] && front[j] == pairs[j]);
            }
        }
        lemma_sorted_by_name_of_sorted(front);
        if front.len() > 0 {
            assert(front.last() == pairs[pairs.len() - 2]);
            assert(text_le(pairs[pairs.len() - 2].0, pairs[pairs.len() - 1].0));
        }
        assert(front.push(pairs.last()) =~= pairs);
    }
}

/// Ordering by name twice is the same as ordering once.
pub proof fn lemma_sorted_by_name_idempotent(pairs: Pairs)
    ensures
        sorted_by_name(sorted_by_name(pairs)) == sorted_by_name(pairs),
{
    lemma_sorted_by_name_is_sorted(pairs);
    lemma_sorted_by_name_of_sorted(sorted_by_name(pairs));
}

/// Whether `rule` names the parameter called `name`.
pub fn rule_applies(rule: &RemoveQueryParam, name: &String) -> (r: bool)
    ensures
        r == rule_matches(*rule, name@),
{
    match rule.0 {
        QueryParamMatchType::Equals => *name == rule.1,
        QueryParamMatchType::StartWith => starts_with(name.as_str(), rule.1.as_str()),
    }
}

/// Whether one of `rules` names the parameter called `name`.
pub fn is_removed(rules: &Vec<RemoveQueryParam>, name: &String) -> (r: bool)
    ensures
        r == matches_any(rules@, name@),
{
    let mut i: usize = 0;
    while i < rules.len()
        invariant
            i <= rules.len(),
            forall|k: int| 0 <= k < i ==> !rule_matches(#[trigger] rules@[k], name@),
        decreases rules.len() - i,
    {
        if rule_applies(&rules[i], name) {
            return true;
        }
        i = i + 1;
    }
    false
}

/// The parameters that none of `rules` names, in their order.
pub fn retain_unmatched(pairs: &Vec<(String, String)>, rules: &Vec<RemoveQueryParam>) -> (r: Vec<
    (String, String),
>)
    ensures
        pairs_view(r@) == unmatched(pairs_view(pairs@), rules@),
{
    let ghost all = pairs_view(pairs@);
    let mut out: Vec<(String, String)> = Vec::new();
    let mut i: usize = 0;
    assert(pairs_view(out@) =~= unmatched(all.take(0), rules@));
    while i < pairs.len()
        invariant
            i <= pairs.len(),
            all == pairs_view(pairs@),
            pairs_view(out@) == unmatched(all.take(i as int), rules@),
        decreases pairs.len() - i,
    {
        let ghost next = all.take(i as int + 1);
        proof {
            assert(next.drop_last() =~= all.take(i as int));
            assert(next.last() == all[i as int]);
        }
        if !is_removed(rules, &pairs[i].0) {
            let ghost before = pairs_view(out@);
            out.push((pairs[i].0.clone(), pairs[i].1.clone()));
            assert(pairs_view(out@) =~= before.push(all[i as int]));
        }
        i = i + 1;
    }
    assert(all.take(i as int) =~= all);
    out
}

/// The parameters ordered by name; parameters of one name keep their order.
pub fn sort_by_name(pairs: &Vec<(String, String)>) -> (r: Vec<(String, String)>)
    ensures
        pairs_view(r@) == sorted_by_name(pairs_view(pairs@)),
        is_sorted_by_name(pairs_view(r@)),
        pairs_view(r@).to_multiset() == pairs_view(pairs@).to_multiset(),
{
    let ghost all = pairs_view(pairs@);
    proof {
        lemma_sorted_by_name_is_sorted(all);
        lemma_sorted_by_name_holds_the_same(all);
    }
    let mut out: Vec<(String, String)> = Vec::new();
    let mut i: usize = 0;
    assert(pairs_view(out@) =~= sorted_by_name(all.take(0)));
    while i < pairs.len()
        invariant
            i <= pairs.len(),
            all == pairs_view(pairs@),
            out.len() == i,
            pairs_view(out@) == sorted_by_name(all.take(i as int)),
        decreases pairs.len() - i,
    {
        let ghost next = all.take(i as int + 1);
        let ghost before = pairs_view(out@);
        let ghost pair = all[i as int];
        proof {
            assert(next.drop_last() =~= all.take(i as int));
            assert(next.last() == pair);
            assert(before.take(before.len() as int) =~= before);
            assert(before.skip(before.len() as int) =~= Seq::empty());
        }
        let mut j: usize = out.len();
        while j > 0 && !str_le(out[j - 1].0.as_str(), pairs[i].0.as_str())
            invariant
                j <= out.len(),
                i < pairs.len(),
                before == pairs_view(out@),
                pair == all[i as int],
                all == pairs_view(pairs@),
                inserted(before, pair) == inserted(before.take(j as int), pair) + before.skip(
                    j as int,
                ),
            decreases j,
        {
            proof {
                let head = before.take(j as int);
                assert(head.last() == before[j as int - 1]);
                assert(head.drop_last() =~= before.take(j as int - 1));
                assert(inserted(head, pair) == inserted(head.drop_last(), pair).push(head.last()));
                assert(inserted(head.drop_last(), pair).push(head.last()) + before.skip(j as int)
                    =~= inserted(before.take(j as int - 1), pair) + before.skip(j as int - 1));
            }
            j = j - 1;
        }
        proof {
            let head = before.take(j as int);
            if j > 0 {
                assert(head.last() == before[j as int - 1]);
                assert(inserted(head, pair) == head.push(pair));
            }
            assert(inserted(head, pair) + before.skip(j as int) =~= before.insert(j as int, pair));
        }
        out.insert(j, (pairs[i].0.clone(), pairs[i].1.clone()));
        assert(pairs_view(out@) =~= before.insert(j as int, pair));
        i = i + 1;
    }
    assert(all.take(i as int) =~= all);
    out
}

} // verus!

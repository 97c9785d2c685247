//! The default configuration of URL processing, and what holds of it: the
//! canonical form of a URL is a fixed point of the chain that computes it.

use crate::query::{
    decoded_pairs, is_sorted_by_name, lemma_inserted_is_sorted, lemma_sorted_by_name_is_sorted,
    lemma_sorted_by_name_of_sorted, matches_any, query_text, sorted_by_name, unmatched, Pairs,
    QueryParamMatchType, RemoveQueryParam,
};
use crate::text::{ascii_lower, without_trailing_spaces};
use crate::url::{fragment_cleared, query_replaced, settled_location, well_formed, UrlView};
use crate::url_processing::{
    params_removed, params_sorted, AllowedSchemeUrlFilter, NoopNormalizer,
    RemoveFragmentNormalizer, RemoveQueryParamsNormalizer, SchemeToLowerCaseNormalizer,
    SortQueryParamsNormalizer, UrlFilter, UrlNormalizer, UrlNormalizerBuilder, UrlProcessor,
    UrlProcessorImpl,
};
use vstd::prelude::*;
use vstd::string::StringExecFns;

verus! {

/// The chain of the default configuration: fragment removed, tracking
/// parameters removed, parameters ordered, scheme in lower case.
pub type CanonicalNormalizer = (
    SchemeToLowerCaseNormalizer,
    (
        SortQueryParamsNormalizer,
        (RemoveQueryParamsNormalizer, (RemoveFragmentNormalizer, NoopNormalizer)),
    ),
);

/// The processor of the default configuration.
pub type CanonicalProcessor = UrlProcessorImpl<AllowedSchemeUrlFilter, CanonicalNormalizer>;

/// The canonical form of a URL under the rules `rules`: what the default chain
/// makes of it.
pub open spec fn canonical(url: UrlView, rules: Seq<RemoveQueryParam>) -> UrlView {
    let bare = fragment_cleared(url);
    let kept = match bare.query {
        Some(q) => params_removed(bare, decoded_pairs(q), rules),
        None => bare,
    };
    let ordered = match kept.query {
        Some(q) => if q.len() == 0 {
            kept
        } else {
            params_sorted(kept, decoded_pairs(q))
        },
        None => kept,
    };
    UrlView { scheme: ascii_lower(ordered.scheme), ..ordered }
}

/// The rules of the default configuration: one rule, which names every
/// parameter that begins with `utm_`.
pub open spec fn is_default_rules(rules: Seq<RemoveQueryParam>) -> bool {
    &&& rules.len() == 1
    &&& rules[0].0 == QueryParamMatchType::StartWith
    &&& rules[0].1@ == seq!['u', 't', 'm', '_']
}

/// The schemes of the default configuration: `http` and `https`.
pub open spec fn is_default_schemes(schemes: Seq<String>) -> bool {
    &&& schemes.len() == 2
    &&& schemes[0]@ == seq!['h', 't', 't', 'p']
    &&& schemes[1]@ == seq!['h', 't', 't', 'p', 's']
}

/// The chain that removes the fragment, removes what `rules` name, orders the
/// parameters and lowers the scheme, in this order.
pub fn canonical_normalizer(rules: Vec<RemoveQueryParam>) -> (r: CanonicalNormalizer)
    ensures
        r.1.1.0.rules() == rules@,
        forall|url: UrlView| #[trigger] r.normalized(url) == canonical(url, rules@),
{
    UrlNormalizerBuilder::new().add_normalizer(RemoveFragmentNormalizer {  }).add_normalizer(
        RemoveQueryParamsNormalizer::new(rules),
    ).add_normalizer(SortQueryParamsNormalizer {  }).add_normalizer(
        SchemeToLowerCaseNormalizer {  },
    ).build()
}

/// The processor of the default configuration: `http` and `https` are
/// accepted, and parameters that begin with `utm_` are removed.
pub fn default_url_processor() -> (r: CanonicalProcessor)
    ensures
        is_default_schemes(r.filter().schemes()),
        is_default_rules(r.normalizer().1.1.0.rules()),
        forall|url: UrlView|
            #[trigger] r.normalizer().normalized(url) == canonical(
                url,
                r.normalizer().1.1.0.rules(),
            ),
{
    proof {
        reveal_strlit("http");
        reveal_strlit("https");
        reveal_strlit("utm_");
    }
    let mut schemes: Vec<String> = Vec::new();
    schemes.push(String::from_str("http"));
    schemes.push(String::from_str("https"));
    let mut rules: Vec<RemoveQueryParam> = Vec::new();
    rules.push(RemoveQueryParam(QueryParamMatchType::StartWith, String::from_str("utm_")));
    assert(schemes@[0]@ =~= seq!['h', 't', 't', 'p']);
    assert(schemes@[1]@ =~= seq!['h', 't', 't', 'p', 's']);
    assert(rules@[0].1@ =~= seq!['u', 't', 'm', '_']);
    UrlProcessorImpl::new(AllowedSchemeUrlFilter::new(schemes), canonical_normalizer(rules))
}

/// A non-empty list of parameters is written as a non-empty query, and the
/// query that is written for it decodes to the list again.
pub open spec fn reads_back(pairs: Pairs) -> bool {
    pairs.len() > 0 ==> query_text(pairs).len() > 0 && decoded_pairs(query_text(pairs)) == pairs
}

/// What the default chain writes for `url` reads back: the parameters that are
/// left after a removal, and the ordered parameters of a query that is written
/// anew.
pub open spec fn rewrites_read_back(url: UrlView, rules: Seq<RemoveQueryParam>) -> bool {
    match url.query {
        Some(q) => {
            let pairs = decoded_pairs(q);
            let kept = unmatched(pairs, rules);
            &&& kept.len() < pairs.len() ==> reads_back(kept)
            &&& kept.len() < pairs.len() || q.len() > 0 ==> reads_back(sorted_by_name(kept))
        },
        None => true,
    }
}

/// Stripping trailing spaces leaves a beginning of the text that does not end
/// in a space.
pub proof fn lemma_without_trailing_spaces(s: Seq<char>)
    ensures
        without_trailing_spaces(s).len() <= s.len(),
        without_trailing_spaces(s) == s.take(without_trailing_spaces(s).len() as int),
        without_trailing_spaces(s).len() > 0 ==> without_trailing_spaces(s).last() != ' ',
        without_trailing_spaces(without_trailing_spaces(s)) == without_trailing_spaces(s),
    decreases s.len(),
{
    if s.len() > 0 && s.last() == ' ' {
        lemma_without_trailing_spaces(s.drop_last());
        let w = without_trailing_spaces(s.drop_last());
        assert(s.drop_last().take(w.len() as int) =~= s.take(w.len() as int));
    } else {
        assert(s.take(s.len() as int) =~= s);
    }
}

/// A location that nothing follows is settled once and for all.
pub proof fn lemma_settled_location_idempotent(location: Seq<char>)
    ensures
        settled_location(settled_location(location)) == settled_location(location),
{
    lemma_without_trailing_spaces(location);
}

/// Of the parameters that are left after a removal none is named by a rule;
/// where as many are left as there were, all are left.
pub proof fn lemma_unmatched(pairs: Pairs, rules: Seq<RemoveQueryParam>)
    ensures
        unmatched(pairs, rules).len() <= pairs.len(),
        forall|k: int|
            0 <= k < unmatched(pairs, rules).len() ==> !matches_any(
                rules,
                #[trigger] unmatched(pairs, rules)[k].0,
            ),
        unmatched(pairs, rules).len() == pairs.len() ==> unmatched(pairs, rules) == pairs,
    decreases pairs.len(),
{
    if pairs.len() > 0 {
        lemma_unmatched(pairs.drop_last(), rules);
        if unmatched(pairs, rules).len() == pairs.len() {
            assert(unmatched(pairs.drop_last(), rules).push(pairs.last()) =~= pairs);
        }
    }
}

/// A list of which no rule names a parameter is left whole by a removal.
pub proof fn lemma_unmatched_of_clean(pairs: Pairs, rules: Seq<RemoveQueryParam>)
    requires
        forall|k: int| 0 <= k < pairs.len() ==> !matches_any(rules, #[trigger] pairs[k].0),
    ensures
        unmatched(pairs, rules) == pairs,
    decreases pairs.len(),
{
    if pairs.len() > 0 {
        let front = pairs.drop_last();
        assert forall|k: int| 0 <= k < front.len() implies !matches_any(
            rules,
            #[trigger] front[k].0,
        ) by {
            assert(front[k] == pairs[k]);
        }
        lemma_unmatched_of_clean(front, rules);
        assert(!matches_any(rules, pairs[pairs.len() - 1].0));
        assert(front.push(pairs.last()) =~= pairs);
    }
}

/// Every parameter of an ordered list stood in the list before it was ordered.
pub proof fn lemma_sorted_by_name_keeps(pairs: Pairs)
    ensures
        forall|k: int|
            0 <= k < sorted_by_name(pairs).len() ==> pairs.contains(
                #[trigger] sorted_by_name(pairs)[k],
            ),
    decreases pairs.len(),
{
    if pairs.len() > 0 {
        let front = pairs.drop_last();
        lemma_sorted_by_name_keeps(front);
        lemma_sorted_by_name_is_sorted(front);
        lemma_inserted_is_sorted(sorted_by_name(front), pairs.last());
        let out = sorted_by_name(pairs);
        assert forall|k: int| 0 <= k < out.len() implies pairs.contains(#[trigger] out[k]) by {
            if out[k] == pairs.last() {
                assert(pairs[pairs.len() - 1] == out[k]);
            } else {
                assert(sorted_by_name(front).contains(out[k]));
                let m = choose|m: int|
                    0 <= m < sorted_by_name(front).len() && sorted_by_name(front)[m] == out[k];
                assert(front.contains(sorted_by_name(front)[m]));
                let n = choose|n: int| 0 <= n < front.len() && front[n] == out[k];
                assert(pairs[n] == out[k]);
            }
        }
    }
}

/// A URL without fragment whose query, if it has one, is what the chain writes
/// for a list of ordered parameters that no rule names, is its own canonical
/// form.
proof fn lemma_fixed_point(c: UrlView, ordered: Pairs, rules: Seq<RemoveQueryParam>)
    requires
        c.fragment is None,
        ascii_lower(c.scheme) == c.scheme,
        c.query == Some(query_text(ordered)),
        ordered.len() > 0,
        reads_back(ordered),
        is_sorted_by_name(ordered),
        forall|k: int| 0 <= k < ordered.len() ==> !matches_any(rules, #[trigger] ordered[k].0),
    ensures
        canonical(c, rules) == c,
{
    let q = query_text(ordered);
    let bare = fragment_cleared(c);
    assert(bare == c);
    lemma_unmatched_of_clean(ordered, rules);
    let kept = params_removed(bare, decoded_pairs(q), rules);
    assert(kept == c);
    lemma_sorted_by_name_of_sorted(ordered);
    assert(params_sorted(c, decoded_pairs(q)) == c);
}

/// The canonical form of a URL is its own canonical form, for every well-formed
/// URL whose rewritten queries read back.
pub proof fn law_canonical_is_idempotent(url: UrlView, rules: Seq<RemoveQueryParam>)
    requires
        well_formed(url),
        rewrites_read_back(url, rules),
    ensures
        canonical(canonical(url, rules), rules) == canonical(url, rules),
{
    let bare = fragment_cleared(url);
    let c = canonical(url, rules);
    lemma_settled_location_idempotent(url.location);
    match url.query {
        None => {
            assert(c == bare);
            assert(fragment_cleared(c) == c);
        },
        Some(q) => {
            let pairs = decoded_pairs(q);
            let kept = unmatched(pairs, rules);
            lemma_unmatched(pairs, rules);
            if kept.len() == 0 {
                let cleared = query_replaced(bare, None);
                assert(c == cleared);
                assert(fragment_cleared(c) == c);
            } else if kept.len() == pairs.len() {
                assert(kept == pairs);
                if q.len() == 0 {
                    assert(c == bare);
                    assert(fragment_cleared(c) == c);
                    assert(params_removed(c, decoded_pairs(q), rules) == c);
                } else {
                    let ordered = sorted_by_name(pairs);
                    lemma_sorted_by_name_is_sorted(pairs);
                    lemma_sorted_by_name_keeps(pairs);
                    assert forall|k: int| 0 <= k < ordered.len() implies !matches_any(
                        rules,
                        #[trigger] ordered[k].0,
                    ) by {
                        let m = choose|m: int| 0 <= m < pairs.len() && pairs[m] == ordered[k];
                        assert(!matches_any(rules, kept[m].0));
                    }
                    assert(c == query_replaced(bare, Some(query_text(ordered))));
                    lemma_fixed_point(c, ordered, rules);
                }
            } else {
                let rewritten = query_replaced(bare, Some(query_text(kept)));
                assert(decoded_pairs(query_text(kept)) == kept);
                let ordered = sorted_by_name(kept);
                lemma_sorted_by_name_is_sorted(kept);
                lemma_sorted_by_name_keeps(kept);
                assert forall|k: int| 0 <= k < ordered.len() implies !matches_any(
                    rules,
                    #[trigger] ordered[k].0,
                ) by {
                    let m = choose|m: int| 0 <= m < kept.len() && kept[m] == ordered[k];
                    assert(!matches_any(rules, kept[m].0));
                }
                assert(c == query_replaced(rewritten, Some(query_text(ordered))));
                lemma_fixed_point(c, ordered, rules);
            }
        },
    }
}

/// Ordering the parameters of a URL twice gives what ordering them once gives,
/// for every URL whose ordered parameters read back.
pub proof fn law_sort_is_idempotent(sorter: SortQueryParamsNormalizer, url: UrlView)
    requires
        url.query matches Some(q) ==> q.len() == 0 || reads_back(sorted_by_name(decoded_pairs(q)))
            || query_text(sorted_by_name(decoded_pairs(q))).len() == 0,
    ensures
        sorter.normalized(sorter.normalized(url)) == sorter.normalized(url),
{
    match url.query {
        Some(q) => {
            if q.len() > 0 {
                let ordered = sorted_by_name(decoded_pairs(q));
                lemma_sorted_by_name_is_sorted(decoded_pairs(q));
                if query_text(ordered).len() > 0 {
                    if ordered.len() > 0 {
                        lemma_sorted_by_name_of_sorted(ordered);
                    }
                }
            }
        },
        None => {},
    }
}

/// A URL from which the fragment was removed has no fragment.
pub proof fn law_fragment_is_removed(remover: RemoveFragmentNormalizer, url: UrlView)
    ensures
        remover.normalized(url).fragment is None,
        remover.normalized(remover.normalized(url)) == remover.normalized(url),
{
    lemma_settled_location_idempotent(url.location);
}

/// The canonical form has the scheme of the URL, and no fragment.
pub proof fn law_canonical_keeps_scheme(url: UrlView, rules: Seq<RemoveQueryParam>)
    requires
        well_formed(url),
    ensures
        canonical(url, rules).scheme == url.scheme,
        canonical(url, rules).fragment is None,
{
}

/// What the default processor accepts it accepts again in its canonical form,
/// and leaves it as it is: for every well-formed URL whose rewritten queries
/// read back.
pub proof fn law_processing_is_idempotent(processor: CanonicalProcessor, url: UrlView)
    requires
        well_formed(url),
        rewrites_read_back(url, processor.normalizer().1.1.0.rules()),
    ensures
        processor.processed(url) matches Some(c) ==> processor.processed(c) == Some(c),
{
    let rules = processor.normalizer().1.1.0.rules();
    law_canonical_is_idempotent(url, rules);
    law_canonical_keeps_scheme(url, rules);
    assert(processor.normalizer().normalized(url) == canonical(url, rules));
    let c = canonical(url, rules);
    assert(processor.normalizer().normalized(c) == canonical(c, rules));
}

} // verus!

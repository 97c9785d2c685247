//! Which URLs are indexed, and under which canonical form: a filter on the
//! scheme, a chain of normalizers, and the processor that binds the two.

use crate::query::{
    create_query_string, decoded_pairs, query_pairs, query_text, retain_unmatched, sort_by_name,
    sorted_by_name, unmatched, pairs_view, Pairs, RemoveQueryParam,
};
use crate::text::{ascii_lower, eq_ignore_ascii_case, eq_ignoring_ascii_case};
use crate::url::{fragment_cleared, joined_url, query_replaced, url_text, well_formed, Url, UrlView};
use vstd::prelude::*;
use vstd::string::StrSliceExecFns;

verus! {

/// The view of an optional URL.
pub open spec fn url_of(o: Option<Url>) -> Option<UrlView> {
    match o {
        Some(u) => Some(u@),
        None => None,
    }
}

/// A predicate on URLs.
pub trait UrlFilter {
    /// Whether the filter accepts the URL.
    spec fn matches(&self, url: UrlView) -> bool;

    /// Whether the filter accepts `url`.
    fn is_match(&self, url: &Url) -> (r: bool)
        ensures
            r == self.matches(url@),
    ;
}

/// Accepts the URLs whose scheme is one of a list, whatever the case of its
/// letters.
#[derive(Clone)]
pub struct AllowedSchemeUrlFilter {
    allowed_schemes: Vec<String>,
}

/// Whether `scheme` is one of `allowed`, up to the case of ASCII letters.
pub open spec fn scheme_allowed(allowed: Seq<String>, scheme: Seq<char>) -> bool {
    exists|i: int| 0 <= i < allowed.len() && eq_ignoring_ascii_case(scheme, #[trigger] allowed[i]@)
}

impl AllowedSchemeUrlFilter {
    /// The schemes that the filter accepts.
    pub closed spec fn schemes(&self) -> Seq<String> {
        self.allowed_schemes@
    }

    /// A filter that accepts the schemes of `allowed_schemes`.
    pub fn new(allowed_schemes: Vec<String>) -> (r: Self)
        ensures
            r.schemes() == allowed_schemes@,
    {
        Self { allowed_schemes }
    }
}

impl UrlFilter for AllowedSchemeUrlFilter {
    open spec fn matches(&self, url: UrlView) -> bool {
        scheme_allowed(self.schemes(), url.scheme)
    }

    fn is_match(&self, url: &Url) -> (r: bool) {
        let scheme = url.scheme();
        let mut i: usize = 0;
        while i < self.allowed_schemes.len()
            invariant
                i <= self.allowed_schemes.len(),
                scheme@ == url@.scheme,
                forall|k: int|
                    0 <= k < i ==> !eq_ignoring_ascii_case(
                        url@.scheme,
                        #[trigger] self.allowed_schemes@[k]@,
                    ),
            decreases self.allowed_schemes.len() - i,
        {
            if eq_ignore_ascii_case(scheme, self.allowed_schemes[i].as_str()) {
                return true;
            }
            i = i + 1;
        }
        false
    }
}

/// A transform from URLs to URLs.
pub trait UrlNormalizer {
    /// What the normalizer makes of a URL.
    spec fn normalized(&self, url: UrlView) -> UrlView;

    /// The normalized form of `url`.
    fn normalize(&self, url: Url) -> (r: Url)
        ensures
            r@ == self.normalized(url@),
    ;
}

/// Leaves every URL as it is.
#[derive(Clone)]
pub struct NoopNormalizer {}

impl UrlNormalizer for NoopNormalizer {
    open spec fn normalized(&self, url: UrlView) -> UrlView {
        url
    }

    fn normalize(&self, url: Url) -> (r: Url) {
        url
    }
}

/// Collects normalizers into a chain that applies them in the order in which
/// they were added.
pub struct UrlNormalizerBuilder<T = NoopNormalizer> {
    normalizer: T,
}

impl UrlNormalizerBuilder {
    /// A builder whose chain is empty.
    pub fn new() -> (r: Self)
        ensures
            r.chain() == (NoopNormalizer {}),
    {
        Self { normalizer: NoopNormalizer {  } }
    }
}

impl<T: UrlNormalizer> UrlNormalizerBuilder<T> {
    /// The chain collected so far.
    pub closed spec fn chain(self) -> T {
        self.normalizer
    }

    /// Adds `new_normalizer` behind the normalizers collected so far.
    pub fn add_normalizer<N: UrlNormalizer>(self, new_normalizer: N) -> (r: UrlNormalizerBuilder<
        (N, T),
    >)
        ensures
            r.chain() == (new_normalizer, self.chain()),
    {
        UrlNormalizerBuilder { normalizer: (new_normalizer, self.normalizer) }
    }

    /// The chain.
    pub fn build(self) -> (r: T)
        ensures
            r == self.chain(),
    {
        self.normalizer
    }
}

/// A pair of normalizers applies its second part first, its first part last.
impl<I, O> UrlNormalizer for (I, O) where I: UrlNormalizer, O: UrlNormalizer {
    open spec fn normalized(&self, url: UrlView) -> UrlView {
        self.0.normalized(self.1.normalized(url))
    }

    fn normalize(&self, url: Url) -> (r: Url) {
        self.0.normalize(self.1.normalize(url))
    }
}

/// Strips the fragment.
#[derive(Clone)]
pub struct RemoveFragmentNormalizer {}

impl UrlNormalizer for RemoveFragmentNormalizer {
    open spec fn normalized(&self, url: UrlView) -> UrlView {
        fragment_cleared(url)
    }

    fn normalize(&self, url: Url) -> (r: Url) {
        url.without_fragment()
    }
}

/// A URL whose query decodes to `pairs`, without the parameters that `rules`
/// name: if none is left the query goes, if none is named the URL stays as it
/// is, else the query is written anew from what is left.
pub open spec fn params_removed(url: UrlView, pairs: Pairs, rules: Seq<RemoveQueryParam>) -> UrlView {
    let kept = unmatched(pairs, rules);
    if kept.len() == 0 {
        query_replaced(url, None)
    } else if kept.len() == pairs.len() {
        url
    } else {
        query_replaced(url, Some(query_text(kept)))
    }
}

/// A URL whose query decodes to `pairs`, with the query written anew from the
/// parameters ordered by name.
pub open spec fn params_sorted(url: UrlView, pairs: Pairs) -> UrlView {
    query_replaced(url, Some(query_text(sorted_by_name(pairs))))
}

/// `url`, whose query decodes to `pairs`, without the parameters that `rules`
/// name.
pub fn remove_params(url: Url, pairs: &Vec<(String, String)>, rules: &Vec<RemoveQueryParam>) -> (r:
    Url)
    ensures
        r@ == params_removed(url@, pairs_view(pairs@), rules@),
{
    let remaining = retain_unmatched(pairs, rules);
    assert(pairs_view(remaining@).len() == remaining.len());
    assert(pairs_view(pairs@).len() == pairs.len());
    if remaining.len() == 0 {
        return url.with_query(None);
    }
    if remaining.len() == pairs.len() {
        return url;
    }
    let query = create_query_string(&remaining);
    url.with_query(Some(query.as_str()))
}

/// `url`, whose query decodes to `pairs`, with its parameters ordered by name.
pub fn sort_params(url: Url, pairs: &Vec<(String, String)>) -> (r: Url)
    ensures
        r@ == params_sorted(url@, pairs_view(pairs@)),
{
    let sorted = sort_by_name(pairs);
    let query = create_query_string(&sorted);
    url.with_query(Some(query.as_str()))
}

/// The decoded parameters of the query of `url`, if it has a query.
pub fn decoded_query(url: &Url) -> (r: Option<Vec<(String, String)>>)
    ensures
        match url@.query {
            Some(q) => r is Some && pairs_view(r->0@) == decoded_pairs(q),
            None => r is None,
        },
{
    match url.query() {
        Some(q) => Some(query_pairs(q)),
        None => None,
    }
}

/// Drops the parameters that a list of rules names.
#[derive(Clone)]
pub struct RemoveQueryParamsNormalizer {
    remove_query_params: Vec<RemoveQueryParam>,
}

impl RemoveQueryParamsNormalizer {
    /// The rules of the normalizer.
    pub closed spec fn rules(&self) -> Seq<RemoveQueryParam> {
        self.remove_query_params@
    }

    /// A normalizer that drops what `remove_query_params` names.
    pub fn new(remove_query_params: Vec<RemoveQueryParam>) -> (r: Self)
        ensures
            r.rules() == remove_query_params@,
    {
        Self { remove_query_params }
    }
}

impl UrlNormalizer for RemoveQueryParamsNormalizer {
    open spec fn normalized(&self, url: UrlView) -> UrlView {
        match url.query {
            Some(q) => params_removed(url, decoded_pairs(q), self.rules()),
            None => url,
        }
    }

    fn normalize(&self, url: Url) -> (r: Url) {
        match decoded_query(&url) {
            Some(pairs) => remove_params(url, &pairs, &self.remove_query_params),
            None => url,
        }
    }
}

/// Orders the parameters of the query by name.
#[derive(Clone)]
pub struct SortQueryParamsNormalizer {}

impl UrlNormalizer for SortQueryParamsNormalizer {
    open spec fn normalized(&self, url: UrlView) -> UrlView {
        match url.query {
            Some(q) => if q.len() == 0 {
                url
            } else {
                params_sorted(url, decoded_pairs(q))
            },
            None => url,
        }
    }

    fn normalize(&self, url: Url) -> (r: Url) {
        let empty = match url.query() {
            Some(q) => q.is_empty(),
            None => true,
        };
        if empty {
            return url;
        }
        match decoded_query(&url) {
            Some(pairs) => sort_params(url, &pairs),
            None => url,
        }
    }
}

/// Whether every character of `s` is an ASCII lower-case letter.
pub open spec fn is_lower_case_letters(s: Seq<char>) -> bool {
    forall|i: int| 0 <= i < s.len() ==> 'a' <= #[trigger] s[i] <= 'z'
}

/// Whether every character of `s` is an ASCII lower-case letter.
pub fn all_lower_case_letters(s: &str) -> (r: bool)
    ensures
        r == is_lower_case_letters(s@),
{
    let n = s.unicode_len();
    let mut i: usize = 0;
    while i < n
        invariant
            i <= n,
            n == s@.len(),
            forall|k: int| 0 <= k < i ==> 'a' <= #[trigger] s@[k] <= 'z',
        decreases n - i,
    {
        let c = s.get_char(i);
        if !('a' <= c && c <= 'z') {
            return false;
        }
        i = i + 1;
    }
    true
}

/// Writes the scheme in lower case.
#[derive(Clone)]
pub struct SchemeToLowerCaseNormalizer {}

impl UrlNormalizer for SchemeToLowerCaseNormalizer {
    open spec fn normalized(&self, url: UrlView) -> UrlView {
        UrlView { scheme: ascii_lower(url.scheme), ..url }
    }

    fn normalize(&self, url: Url) -> (r: Url) {
        proof {
            use_type_invariant(&url);
        }
        if all_lower_case_letters(url.scheme()) {
            return url;
        }
        url.with_lower_case_scheme()
    }
}

/// Turns links into canonical URLs, or rejects them.
pub trait UrlProcessor {
    /// What the processor makes of a URL: its canonical form, or `None` where
    /// the URL is rejected.
    spec fn processed(&self, url: UrlView) -> Option<UrlView>;

    /// Resolves `new_url` against `base_url` and processes the result; `None`
    /// where it cannot be resolved or is rejected.
    fn parse_url(&self, base_url: &Url, new_url: &str) -> (r: Option<Url>)
        ensures
            url_of(r) == match joined_url(url_text(base_url@), new_url@) {
                Some(v) => self.processed(v),
                None => None,
            },
    ;

    /// The canonical form of `url`, or `None` where it is rejected.
    fn process_url(&self, url: Url) -> (r: Option<Url>)
        ensures
            url_of(r) == self.processed(url@),
    ;
}

/// A filter and a normalizer: what the filter accepts is normalized.
#[derive(Clone)]
pub struct UrlProcessorImpl<F, N> {
    filter: F,
    normalizer: N,
}

impl<F, N> UrlProcessorImpl<F, N> where F: UrlFilter, N: UrlNormalizer {
    /// The filter of the processor.
    pub closed spec fn filter(&self) -> F {
        self.filter
    }

    /// The normalizer of the processor.
    pub closed spec fn normalizer(&self) -> N {
        self.normalizer
    }

    /// A processor that normalizes with `normalizer` what `filter` accepts.
    pub fn new(filter: F, normalizer: N) -> (r: Self)
        ensures
            r.filter() == filter,
            r.normalizer() == normalizer,
    {
        Self { filter, normalizer }
    }
}

impl<F, N> UrlProcessor for UrlProcessorImpl<F, N> where F: UrlFilter, N: UrlNormalizer {
    open spec fn processed(&self, url: UrlView) -> Option<UrlView> {
        if self.filter().matches(url) {
            Some(self.normalizer().normalized(url))
        } else {
            None
        }
    }

    fn parse_url(&self, base_url: &Url, new_url: &str) -> (r: Option<Url>) {
        match base_url.join(new_url) {
            Some(parsed_url) => self.process_url(parsed_url),
            None => None,
        }
    }

    fn process_url(&self, url: Url) -> (r: Option<Url>) {
        if !self.filter.is_match(&url) {
            return None;
        }
        Some(self.normalizer.normalize(url))
    }
}

} // verus!

use wexplorer_indexing::canonical::{canonical_normalizer, default_url_processor};
use wexplorer_indexing::query::{
    create_query_string, is_removed, query_pairs, retain_unmatched, rule_applies, sort_by_name,
    QueryParamMatchType, RemoveQueryParam,
};
use wexplorer_indexing::text::lower_case;
use wexplorer_indexing::url::Url;
use wexplorer_indexing::url_processing::{
    all_lower_case_letters, decoded_query, remove_params, sort_params, AllowedSchemeUrlFilter,
    NoopNormalizer, RemoveFragmentNormalizer, RemoveQueryParamsNormalizer,
    SchemeToLowerCaseNormalizer, SortQueryParamsNormalizer, UrlFilter, UrlNormalizer,
    UrlNormalizerBuilder, UrlProcessor, UrlProcessorImpl,
};

fn url(text: &str) -> Url {
    Url::parse(text).unwrap()
}

fn pairs(items: &[(&str, &str)]) -> Vec<(String, String)> {
    items.iter().map(|(name, value)| (name.to_string(), value.to_string())).collect()
}

fn utm_rules() -> Vec<RemoveQueryParam> {
    vec![RemoveQueryParam(QueryParamMatchType::StartWith, "utm_".to_string())]
}

#[test]
fn seed_is_stripped_of_fragment_and_tracking_parameters() {
    let processor = default_url_processor();
    let result = processor.process_url(url("HTTP://Example.COM/a?x=1&utm_source=z&b=2#frag"));
    assert_eq!(Some("http://example.com/a?b=2&x=1".to_string()), result.map(|u| u.to_text()));
}

#[test]
fn canonical_form_is_a_fixed_point_of_the_chain() {
    let chain = canonical_normalizer(utm_rules());
    for text in [
        "HTTP://Example.COM/a?x=1&utm_source=z&b=2#frag",
        "https://site.test/",
        "https://site.test/path?",
        "https://site.test/path?utm_a=1&utm_b=2",
        "https://site.test/p?z=%C3%A9&a=b+c&a=a%26b#top",
        "https://site.test/p?b=2&a=1",
        "data:text/plain,Stuff #f",
    ] {
        let once = chain.normalize(url(text));
        let twice = chain.normalize(once.duplicate());
        assert_eq!(once, twice);
        assert_eq!(None, once.fragment());
    }
}

#[test]
fn processing_is_idempotent_on_accepted_urls() {
    let processor = default_url_processor();
    let once = processor.process_url(url("https://Site.test/p?utm_x=1&b=2&a=1#f")).unwrap();
    assert_eq!("https://site.test/p?a=1&b=2", once.to_text());
    let twice = processor.process_url(once.duplicate()).unwrap();
    assert_eq!(once, twice);
}

#[test]
fn other_schemes_are_rejected() {
    let processor = default_url_processor();
    assert_eq!(None, processor.process_url(url("ftp://example.com/a")));
    assert_eq!(None, processor.process_url(url("mailto:someone@example.com")));
    assert!(processor.process_url(url("https://example.com/a")).is_some());
}

#[test]
fn scheme_filter_ignores_the_case_of_letters() {
    let filter = AllowedSchemeUrlFilter::new(vec!["HTTP".to_string(), "Gopher".to_string()]);
    assert!(filter.is_match(&url("http://example.com/")));
    assert!(filter.is_match(&url("gopher://example.com/")));
    assert!(!filter.is_match(&url("https://example.com/")));
    assert!(!AllowedSchemeUrlFilter::new(vec![]).is_match(&url("http://example.com/")));
}

#[test]
fn parse_url_resolves_against_the_base() {
    let processor = default_url_processor();
    let base = url("https://site.test/root/");
    let link = processor.parse_url(&base, "sub?q=1#f").unwrap();
    assert_eq!("https://site.test/root/sub?q=1", link.to_text());
    assert_eq!(
        "https://other.test/x",
        processor.parse_url(&base, "//other.test/x").unwrap().to_text()
    );
    assert_eq!(None, processor.parse_url(&base, "javascript:void(0)"));
    assert_eq!(None, processor.parse_url(&base, "https://exa mple.com/"));
}

#[test]
fn url_is_held_in_its_parts() {
    let u = url("HTTPS://User@Example.COM:8443/a/b?x=1&y=2#frag");
    assert_eq!("https", u.scheme());
    assert_eq!(Some("x=1&y=2"), u.query());
    assert_eq!(Some("frag"), u.fragment());
    assert_eq!("https://User@example.com:8443/a/b?x=1&y=2#frag", u.to_text());
    assert!(u.same_as(&u.duplicate()));
    assert!(!u.same_as(&url("https://User@example.com:8443/a/b?x=1&y=2")));

    let bare = url("https://example.com");
    assert_eq!(None, bare.query());
    assert_eq!(None, bare.fragment());
    assert_eq!("https://example.com/", bare.to_text());
    assert_eq!(Some(""), url("https://example.com/?").query());
    assert_eq!("mailto:a@b.c", url("mailto:a@b.c").to_text());
}

#[test]
fn what_is_no_absolute_url_does_not_parse() {
    assert_eq!(None, Url::parse("/relative/path"));
    assert_eq!(None, Url::parse(""));
    assert_eq!(None, Url::parse("http://"));
}

#[test]
fn join_resolves_references() {
    let base = url("https://site.test/dir/page?x=1#f");
    assert_eq!("https://site.test/root/", base.join("/root/").unwrap().to_text());
    assert_eq!("https://site.test/dir/other", base.join("other").unwrap().to_text());
    assert_eq!("https://site.test/dir/page?x=1", base.join("").unwrap().to_text());
    assert_eq!("http://else.test/", base.join("http://else.test").unwrap().to_text());
    assert_eq!(None, url("mailto:a@b.c").join("other"));
}

#[test]
fn parts_are_replaced_one_at_a_time() {
    let u = url("https://site.test/p?x=1#f");
    assert_eq!("https://site.test/p?x=1", u.duplicate().without_fragment().to_text());
    assert_eq!("https://site.test/p#f", remove_params(u.duplicate(), &pairs(&[]), &vec![]).to_text());
    assert_eq!(
        "https://site.test/p?a=b+c&d#f",
        sort_params(u.duplicate(), &pairs(&[("d", ""), ("a", "b c")])).to_text()
    );
    assert_eq!("https://site.test/p?#f", sort_params(u.duplicate(), &pairs(&[])).to_text());
    assert_eq!(u, u.duplicate().with_lower_case_scheme());
    assert_eq!("svn+ssh", lower_case("SVN+ssH"));
    assert_eq!("\u{c9}t\u{e9} a", lower_case("\u{c9}t\u{e9} A"));
}

#[test]
fn an_opaque_path_loses_its_trailing_spaces_with_the_fragment() {
    let remover = RemoveFragmentNormalizer {};
    assert_eq!("data:text/plain,Stuff", remover.normalize(url("data:text/plain,Stuff   #f")).to_text());
    assert_eq!(
        "data:text/plain,Stuff   ?q",
        remover.normalize(url("data:text/plain,Stuff   ?q#f")).to_text()
    );
    assert_eq!(
        "data:text/plain,Stuff",
        remove_params(url("data:text/plain,Stuff   ?q"), &pairs(&[]), &vec![]).to_text()
    );
    assert_eq!(
        "data:text/plain,Stuff   #f",
        remove_params(url("data:text/plain,Stuff   ?q#f"), &pairs(&[]), &vec![]).to_text()
    );
}

#[test]
fn scheme_normalizer_leaves_parsed_urls_as_they_are() {
    let target = SchemeToLowerCaseNormalizer {};
    assert_eq!("http://example.com/", target.normalize(url("HTTP://example.com")).to_text());
    assert_eq!(
        "svn+ssh://example.com/repo",
        target.normalize(url("SVN+SSH://example.com/repo")).to_text()
    );
    assert!(all_lower_case_letters("https"));
    assert!(all_lower_case_letters(""));
    assert!(!all_lower_case_letters("svn+ssh"));
    assert!(!all_lower_case_letters("Http"));
}

#[test]
fn noop_normalizer_changes_nothing() {
    let u = url("https://site.test/p?b=1&a=2#f");
    assert_eq!(u, (NoopNormalizer {}).normalize(u.duplicate()));
    assert_eq!(u, UrlNormalizerBuilder::new().build().normalize(u.duplicate()));
}

#[test]
fn builder_applies_every_normalizer_that_was_added() {
    let chain = UrlNormalizerBuilder::new()
        .add_normalizer(RemoveQueryParamsNormalizer::new(vec![RemoveQueryParam(
            QueryParamMatchType::Equals,
            "b".to_string(),
        )]))
        .add_normalizer(SortQueryParamsNormalizer {})
        .add_normalizer(RemoveFragmentNormalizer {})
        .build();
    assert_eq!(
        "https://site.test/p?a=2&c=0",
        chain.normalize(url("https://site.test/p?c=0&b=1&a=2#f")).to_text()
    );
    let processor = UrlProcessorImpl::new(
        AllowedSchemeUrlFilter::new(vec!["https".to_string()]),
        RemoveFragmentNormalizer {},
    );
    assert_eq!(
        Some("https://site.test/p?b=1".to_string()),
        processor.process_url(url("https://site.test/p?b=1#f")).map(|u| u.to_text())
    );
}

#[test]
fn query_is_left_as_it_is_where_no_parameter_is_named() {
    let target = RemoveQueryParamsNormalizer::new(utm_rules());
    let u = url("https://site.test/p?b=%41&a=x%20y&&c=");
    assert_eq!("https://site.test/p?b=%41&a=x%20y&&c=", target.normalize(u).to_text());
}

#[test]
fn remaining_parameters_are_written_anew() {
    let target = RemoveQueryParamsNormalizer::new(utm_rules());
    let u = url("https://site.test/p?b=%41&utm_x=1&a=x%20y&&c=#f");
    assert_eq!("https://site.test/p?b=A&a=x+y&c#f", target.normalize(u).to_text());
}

#[test]
fn rules_match_the_whole_name_or_its_beginning() {
    let equals = RemoveQueryParam(QueryParamMatchType::Equals, "utm".to_string());
    let starts = RemoveQueryParam(QueryParamMatchType::StartWith, "utm".to_string());
    assert!(rule_applies(&equals, &"utm".to_string()));
    assert!(!rule_applies(&equals, &"utm_source".to_string()));
    assert!(!rule_applies(&equals, &"ut".to_string()));
    assert!(rule_applies(&starts, &"utm".to_string()));
    assert!(rule_applies(&starts, &"utm_source".to_string()));
    assert!(!rule_applies(&starts, &"ut".to_string()));
    assert!(!rule_applies(&starts, &"xutm".to_string()));
    assert!(is_removed(&vec![equals.clone(), starts.clone()], &"utm_x".to_string()));
    assert!(!is_removed(&vec![equals, starts], &"other".to_string()));
    assert!(!is_removed(&vec![], &"utm".to_string()));
}

#[test]
fn unmatched_parameters_keep_their_order() {
    let all = pairs(&[("b", "1"), ("utm_a", "2"), ("a", "3"), ("utm_b", ""), ("b", "0")]);
    assert_eq!(pairs(&[("b", "1"), ("a", "3"), ("b", "0")]), retain_unmatched(&all, &utm_rules()));
    assert_eq!(all, retain_unmatched(&all, &vec![]));
}

#[test]
fn sorting_is_by_name_and_stable() {
    let all = pairs(&[("b", "1"), ("a", "2"), ("B", "x"), ("b", "0"), ("a", "1"), ("", "e"), ("ab", "")]);
    let sorted = sort_by_name(&all);
    assert_eq!(
        pairs(&[("", "e"), ("B", "x"), ("a", "2"), ("a", "1"), ("ab", ""), ("b", "1"), ("b", "0")]),
        sorted
    );
    assert_eq!(sorted, sort_by_name(&sorted));
    assert_eq!(pairs(&[]), sort_by_name(&pairs(&[])));
}

#[test]
fn sorting_orders_by_code_point() {
    let all = pairs(&[("\u{e9}", "1"), ("z", "2"), ("\u{10000}", "3"), ("\u{ffff}", "4"), ("Z", "5")]);
    assert_eq!(
        pairs(&[("Z", "5"), ("z", "2"), ("\u{e9}", "1"), ("\u{ffff}", "4"), ("\u{10000}", "3")]),
        sort_by_name(&all)
    );
}

#[test]
fn query_is_decoded_into_pairs() {
    assert_eq!(
        pairs(&[("a", "1"), ("b", " x y"), ("c", ""), ("d", "="), ("\u{e9}", "%")]),
        query_pairs("a=1&b=%20x+y&&c&d==&%C3%A9=%25")
    );
    assert_eq!(pairs(&[]), query_pairs(""));
    assert_eq!(
        Some(pairs(&[("x", "1")])),
        decoded_query(&url("https://site.test/?x=1#f"))
    );
    assert_eq!(None, decoded_query(&url("https://site.test/#f")));
}

#[test]
fn query_is_written_in_form_encoding() {
    assert_eq!(
        "a+b=c%26d%3D&%C3%A9&x*-._y=%7E%2F%2B%25&=v",
        create_query_string(&pairs(&[("a b", "c&d="), ("\u{e9}", ""), ("x*-._y", "~/+%"), ("", "v")]))
    );
    assert_eq!("", create_query_string(&pairs(&[])));
    assert_eq!(
        "%00%0A%7F%C3%BF",
        create_query_string(&pairs(&[("\0\n\u{7f}\u{ff}", "")]))
    );
}

#[test]
fn params_are_removed_from_the_url_that_holds_them() {
    let all = pairs(&[("a", "1"), ("utm_x", "2")]);
    assert_eq!(
        "https://site.test/p?a=1#f",
        remove_params(url("https://site.test/p?whatever#f"), &all, &utm_rules()).to_text()
    );
    assert_eq!(
        "https://site.test/p#f",
        remove_params(url("https://site.test/p?whatever#f"), &pairs(&[("utm_x", "2")]), &utm_rules())
            .to_text()
    );
    assert_eq!(
        "https://site.test/p?whatever#f",
        remove_params(url("https://site.test/p?whatever#f"), &pairs(&[("a", "1")]), &utm_rules())
            .to_text()
    );
    assert_eq!(
        "https://site.test/p?a=1&b=2",
        sort_params(url("https://site.test/p?whatever"), &pairs(&[("b", "2"), ("a", "1")])).to_text()
    );
    assert_eq!(
        "https://site.test/p?",
        sort_params(url("https://site.test/p?whatever"), &pairs(&[])).to_text()
    );
}

#[test]
fn a_parameter_without_name_and_value_is_lost_in_writing() {
    let target = SortQueryParamsNormalizer {};
    let once = target.normalize(url("https://localhost/path?a&="));
    assert_eq!("https://localhost/path?&a", once.to_text());
    let twice = target.normalize(once);
    assert_eq!("https://localhost/path?a", twice.to_text());
}

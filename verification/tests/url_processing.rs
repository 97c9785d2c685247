use wexplorer_indexing::query::{QueryParamMatchType, RemoveQueryParam};
use wexplorer_indexing::url::Url;
use wexplorer_indexing::url_processing::{
    RemoveFragmentNormalizer, RemoveQueryParamsNormalizer, SortQueryParamsNormalizer,
    UrlNormalizer,
};

#[test]
fn should_remove_fragment() {
    // Arrange

    let expected = Url::parse("https://localhost/path?query").unwrap();
    let target = RemoveFragmentNormalizer {};

    // Act

    let result1 = target.normalize(Url::parse("https://localhost/path?query#fragment").unwrap());
    let result2 = target.normalize(Url::parse("https://localhost/path?query").unwrap());

    // Assert

    assert_eq!(expected, result1);
    assert_eq!(expected, result2);
}

#[test]
fn should_normalize_url_without_query() {
    // Arrange

    let expected = Url::parse("https://localhost/path").unwrap();
    let target = RemoveQueryParamsNormalizer::new(vec![RemoveQueryParam(
        QueryParamMatchType::Equals,
        "param".to_string(),
    )]);

    // Act

    let result1 = target.normalize(Url::parse("https://localhost/path").unwrap());
    let result2 = target.normalize(Url::parse("https://localhost/path?").unwrap());

    // Assert

    assert_eq!(expected, result1);
    assert_eq!(expected, result2);
}

#[test]
fn should_remove_matched_query_params() {
    // Arrange

    let expected = Url::parse("https://localhost/path?param=value&param2=value2").unwrap();
    let target = RemoveQueryParamsNormalizer::new(vec![
        RemoveQueryParam(QueryParamMatchType::Equals, "param1".to_string()),
        RemoveQueryParam(QueryParamMatchType::StartWith, "utm_".to_string()),
    ]);

    // Act

    let result = target.normalize(
        Url::parse("https://localhost/path?param=value&param1&utm_v=value&param2=value2").unwrap(),
    );

    // Assert

    assert_eq!(expected, result);
}

#[test]
fn should_remove_whole_query_if_all_params_matched() {
    // Arrange

    let expected = Url::parse("https://localhost/path").unwrap();
    let target = RemoveQueryParamsNormalizer::new(vec![
        RemoveQueryParam(QueryParamMatchType::Equals, "param1".to_string()),
        RemoveQueryParam(QueryParamMatchType::StartWith, "utm_".to_string()),
    ]);

    // Act

    let result = target.normalize(Url::parse("https://localhost/path?param1&utm_v=value").unwrap());

    // Assert

    assert_eq!(expected, result);
}

#[test]
fn should_untouch_url_without_query() {
    // Arrange

    let target = SortQueryParamsNormalizer {};

    // Act

    let result1 = target.normalize(Url::parse("https://localhost/path").unwrap());
    let result2 = target.normalize(Url::parse("https://localhost/path?").unwrap());

    // Assert

    assert_eq!(Url::parse("https://localhost/path").unwrap(), result1);
    assert_eq!(Url::parse("https://localhost/path?").unwrap(), result2);
}

#[test]
fn should_sort_query_params() {
    // Arrange

    let target = SortQueryParamsNormalizer {};

    // Act

    let result = target.normalize(Url::parse("https://localhost/path?z=1&y=2&a").unwrap());

    // Assert

    assert_eq!(Url::parse("https://localhost/path?a&y=2&z=1").unwrap(), result);
}

//! Absolute URLs, held as the four parts that the indexing rules read and
//! rewrite: scheme, location, query and fragment. Parsing, resolving and the
//! rewriting of a part are done by the `url` crate.

use crate::text::{ascii_lower, without_trailing_spaces};
use vstd::prelude::*;
use vstd::string::StringExecFns;

verus! {

/// What a `Url` stands for.
pub struct UrlView {
    /// The scheme, without the `:` that follows it.
    pub scheme: Seq<char>,
    /// Everything between the `:` after the scheme and the query: authority and
    /// path, or an opaque path.
    pub location: Seq<char>,
    /// The query, without its `?`; `Some` of the empty text for a bare `?`.
    pub query: Option<Seq<char>>,
    /// The fragment, without its `#`.
    pub fragment: Option<Seq<char>>,
}

/// The text of a URL: its parts in order, each with its delimiter.
pub open spec fn url_text(v: UrlView) -> Seq<char> {
    v.scheme + seq![':'] + v.location + (match v.query {
        Some(q) => seq!['?'] + q,
        None => Seq::<char>::empty(),
    }) + (match v.fragment {
        Some(f) => seq!['#'] + f,
        None => Seq::<char>::empty(),
    })
}

/// What `url::Url::parse` makes of `text`: the parts of the URL, or `None`
/// where `text` is not an absolute URL.
pub uninterp spec fn parsed_url(text: Seq<char>) -> Option<UrlView>;

/// What `url::Url::join` makes of `reference` against the URL whose text is
/// `base`: the parts of the resolved URL, or `None` where `base` is no URL or
/// `reference` cannot be resolved against it.
pub uninterp spec fn joined_url(base: Seq<char>, reference: Seq<char>) -> Option<UrlView>;

/// The parts of a URL that the `url` crate can hold: parsing its text gives it
/// back, and its scheme is not empty and in lower case.
pub open spec fn well_formed(v: UrlView) -> bool {
    &&& parsed_url(url_text(v)) == Some(v)
    &&& v.scheme.len() > 0
    &&& ascii_lower(v.scheme) == v.scheme
}

/// A location that is an opaque path: it does not begin with `/`.
pub open spec fn is_opaque(location: Seq<char>) -> bool {
    !(location.len() > 0 && location[0] == '/')
}

/// The location of a URL once nothing follows it: an opaque path loses the
/// spaces at its end.
pub open spec fn settled_location(location: Seq<char>) -> Seq<char> {
    if is_opaque(location) {
        without_trailing_spaces(location)
    } else {
        location
    }
}

/// `v` without its fragment.
pub open spec fn fragment_cleared(v: UrlView) -> UrlView {
    UrlView {
        fragment: None,
        location: if v.query is None {
            settled_location(v.location)
        } else {
            v.location
        },
        ..v
    }
}

/// `v` with `query` in place of its query.
pub open spec fn query_replaced(v: UrlView, query: Option<Seq<char>>) -> UrlView {
    UrlView {
        query: query,
        location: if query is None && v.fragment is None {
            settled_location(v.location)
        } else {
            v.location
        },
        ..v
    }
}

/// The characters that a query built from encoded names and values is made of.
pub open spec fn is_query_char(c: char) -> bool {
    ||| 'a' <= c <= 'z'
    ||| 'A' <= c <= 'Z'
    ||| '0' <= c <= '9'
    ||| c == '*'
    ||| c == '-'
    ||| c == '.'
    ||| c == '_'
    ||| c == '+'
    ||| c == '%'
    ||| c == '='
    ||| c == '&'
}

/// A text made of query characters only.
pub open spec fn is_query_text(s: Seq<char>) -> bool {
    forall|i: int| 0 <= i < s.len() ==> is_query_char(#[trigger] s[i])
}

/// The view of an optional text.
pub open spec fn text_of(o: Option<&str>) -> Option<Seq<char>> {
    match o {
        Some(s) => Some(s@),
        None => None,
    }
}

/// The view of an optional owned text.
pub open spec fn owned_text_of(o: Option<String>) -> Option<Seq<char>> {
    match o {
        Some(s) => Some(s@),
        None => None,
    }
}

/// Whether two optional texts are both absent or both present and equal.
fn same_optional_text(a: &Option<String>, b: &Option<String>) -> (r: bool)
    ensures
        r == (owned_text_of(*a) == owned_text_of(*b)),
{
    match a {
        Some(x) => match b {
            Some(y) => *x == *y,
            None => false,
        },
        None => b.is_none(),
    }
}

/// An absolute URL.
#[derive(Debug, PartialEq, Eq, Hash)]
pub struct Url {
    scheme: String,
    location: String,
    query: Option<String>,
    fragment: Option<String>,
}

impl View for Url {
    type V = UrlView;

    closed spec fn view(&self) -> UrlView {
        UrlView {
            scheme: self.scheme@,
            location: self.location@,
            query: owned_text_of(self.query),
            fragment: owned_text_of(self.fragment),
        }
    }
}

/// `url::Url::parse`, with the URL handed out in parts: `None` where the crate
/// reports an error. A URL that the crate has parsed is well formed: its
/// serialization parses to itself and its scheme is in lower case.
#[verifier::external_body]
fn parse_absolute(text: &str) -> (r: Option<Url>)
    ensures
        r matches Some(u) ==> parsed_url(text@) == Some(u@) && well_formed(u@),
        r is None ==> parsed_url(text@) is None,
{
    let u = url::Url::parse(text).ok()?;
    Some(
        Url {
            scheme: u.scheme().to_string(),
            location: u[url::Position::AfterScheme..url::Position::AfterPath][1..].to_string(),
            query: u.query().map(|q| q.to_string()),
            fragment: u.fragment().map(|f| f.to_string()),
        },
    )
}

/// `url::Url::join` on the URL whose text is `base`, with the result handed
/// out in parts: `None` where the crate reports an error.
#[verifier::external_body]
fn join_absolute(base: &str, reference: &str) -> (r: Option<Url>)
    ensures
        r matches Some(u) ==> joined_url(base@, reference@) == Some(u@) && well_formed(u@),
        r is None ==> joined_url(base@, reference@) is None,
{
    let u = url::Url::parse(base).ok()?.join(reference).ok()?;
    Some(
        Url {
            scheme: u.scheme().to_string(),
            location: u[url::Position::AfterScheme..url::Position::AfterPath][1..].to_string(),
            query: u.query().map(|q| q.to_string()),
            fragment: u.fragment().map(|f| f.to_string()),
        },
    )
}

/// `url::Url::set_fragment` with `None`, on the URL whose text is `text`: the
/// fragment goes, scheme and query stay, and an opaque path that now ends the
/// URL loses its trailing spaces.
#[verifier::external_body]
fn clear_fragment(text: &str) -> (r: Url)
    requires
        parsed_url(text@) is Some,
    ensures
        r@ == fragment_cleared(parsed_url(text@)->0),
        well_formed(r@),
{
    let mut u = url::Url::parse(text).unwrap();
    u.set_fragment(None);
    Url {
        scheme: u.scheme().to_string(),
        location: u[url::Position::AfterScheme..url::Position::AfterPath][1..].to_string(),
        query: u.query().map(|q| q.to_string()),
        fragment: u.fragment().map(|f| f.to_string()),
    }
}

/// `url::Url::set_query`, on the URL whose text is `text`. A query made of
/// query characters is stored as it is; with `None` the query goes, and an
/// opaque path that now ends the URL loses its trailing spaces. Scheme and
/// fragment stay.
#[verifier::external_body]
fn replace_query(text: &str, query: Option<&str>) -> (r: Url)
    requires
        parsed_url(text@) is Some,
        query matches Some(q) ==> is_query_text(q@),
    ensures
        r@ == query_replaced(parsed_url(text@)->0, text_of(query)),
        well_formed(r@),
{
    let mut u = url::Url::parse(text).unwrap();
    u.set_query(query);
    Url {
        scheme: u.scheme().to_string(),
        location: u[url::Position::AfterScheme..url::Position::AfterPath][1..].to_string(),
        query: u.query().map(|q| q.to_string()),
        fragment: u.fragment().map(|f| f.to_string()),
    }
}

/// `url::Url::set_scheme` with the scheme that the URL already has, on the URL
/// whose text is `text`: whether the crate accepts the scheme or not, the URL
/// stays as it is.
#[verifier::external_body]
fn reset_scheme(text: &str, scheme: &str) -> (r: Url)
    requires
        parsed_url(text@) matches Some(v) && v.scheme == scheme@,
    ensures
        r@ == parsed_url(text@)->0,
        well_formed(r@),
{
    let mut u = url::Url::parse(text).unwrap();
    let _ = u.set_scheme(scheme);
    Url {
        scheme: u.scheme().to_string(),
        location: u[url::Position::AfterScheme..url::Position::AfterPath][1..].to_string(),
        query: u.query().map(|q| q.to_string()),
        fragment: u.fragment().map(|f| f.to_string()),
    }
}

impl Url {
    /// Every `Url` is well formed.
    #[verifier::type_invariant]
    pub open spec fn valid(self) -> bool {
        well_formed(self@)
    }

    /// Parses an absolute URL.
    pub fn parse(text: &str) -> (r: Option<Url>)
        ensures
            r matches Some(u) ==> parsed_url(text@) == Some(u@) && well_formed(u@),
            r is None <==> parsed_url(text@) is None,
    {
        parse_absolute(text)
    }

    /// Resolves `reference` against this URL.
    pub fn join(&self, reference: &str) -> (r: Option<Url>)
        ensures
            r matches Some(u) ==> joined_url(url_text(self@), reference@) == Some(u@)
                && well_formed(u@),
            r is None <==> joined_url(url_text(self@), reference@) is None,
    {
        let text = self.to_text();
        join_absolute(text.as_str(), reference)
    }

    /// The scheme, in lower case and without the `:`.
    pub fn scheme(&self) -> (r: &str)
        ensures
            r@ == self@.scheme,
    {
        self.scheme.as_str()
    }

    /// The query, without its `?`, if the URL has one.
    pub fn query(&self) -> (r: Option<&str>)
        ensures
            text_of(r) == self@.query,
    {
        match &self.query {
            Some(q) => Some(q.as_str()),
            None => None,
        }
    }

    /// The fragment, without its `#`, if the URL has one.
    pub fn fragment(&self) -> (r: Option<&str>)
        ensures
            text_of(r) == self@.fragment,
    {
        match &self.fragment {
            Some(f) => Some(f.as_str()),
            None => None,
        }
    }

    /// The URL as text.
    pub fn to_text(&self) -> (r: String)
        ensures
            r@ == url_text(self@),
    {
        proof {
            reveal_strlit(":");
            reveal_strlit("?");
            reveal_strlit("#");
        }
        let mut out = self.scheme.clone();
        out.append(":");
        out.append(self.location.as_str());
        assert(out@ =~= self@.scheme + seq![':'] + self@.location);
        match &self.query {
            Some(q) => {
                out.append("?");
                out.append(q.as_str());
                assert(out@ =~= self@.scheme + seq![':'] + self@.location + (seq!['?'] + q@));
            },
            None => {
                assert(out@ =~= self@.scheme + seq![':'] + self@.location + Seq::<char>::empty());
            },
        }
        let ghost before = out@;
        match &self.fragment {
            Some(f) => {
                out.append("#");
                out.append(f.as_str());
                assert(out@ =~= before + (seq!['#'] + f@));
            },
            None => {
                assert(out@ =~= before + Seq::<char>::empty());
            },
        }
        out
    }

    /// A copy of this URL.
    pub fn duplicate(&self) -> (r: Url)
        ensures
            r@ == self@,
    {
        proof {
            use_type_invariant(self);
        }
        Url {
            scheme: self.scheme.clone(),
            location: self.location.clone(),
            query: match &self.query {
                Some(q) => Some(q.clone()),
                None => None,
            },
            fragment: match &self.fragment {
                Some(f) => Some(f.clone()),
                None => None,
            },
        }
    }

    /// Whether the two URLs have the same text.
    pub fn same_as(&self, other: &Url) -> (r: bool)
        ensures
            r == (self@ == other@),
    {
        let same_query = same_optional_text(&self.query, &other.query);
        let same_fragment = same_optional_text(&self.fragment, &other.fragment);
        self.scheme == other.scheme && self.location == other.location && same_query
            && same_fragment
    }

    /// This URL without its fragment.
    pub fn without_fragment(self) -> (r: Url)
        ensures
            r@ == fragment_cleared(self@),
            r@.fragment is None,
    {
        proof {
            use_type_invariant(&self);
        }
        let text = self.to_text();
        clear_fragment(text.as_str())
    }

    /// This URL with `query` in place of its query, where `query` is made of
    /// query characters; `None` takes the query away.
    pub(crate) fn with_query(self, query: Option<&str>) -> (r: Url)
        requires
            query matches Some(q) ==> is_query_text(q@),
        ensures
            r@ == query_replaced(self@, text_of(query)),
    {
        proof {
            use_type_invariant(&self);
        }
        let text = self.to_text();
        replace_query(text.as_str(), query)
    }

    /// This URL with its scheme in lower case, which it is already.
    pub fn with_lower_case_scheme(self) -> (r: Url)
        ensures
            r@ == self@,
            r@.scheme == ascii_lower(self@.scheme),
    {
        proof {
            use_type_invariant(&self);
        }
        let text = self.to_text();
        let lowered = crate::text::lower_case(self.scheme.as_str());
        reset_scheme(text.as_str(), lowered.as_str())
    }
}

} // verus!

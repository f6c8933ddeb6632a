use vstd::prelude::*;
use crate::strutil::last_index_of;

verus! {

/// The readable parts of a parsed, canonicalized absolute URL.
pub struct UrlModel {
    /// The whole URL, rendered as a string.
    pub text: Seq<char>,
    /// The host part, or empty when the URL has none.
    pub host: Seq<char>,
    /// The host again when it is a domain name, empty otherwise.
    pub domain: Seq<char>,
    /// The path part.
    pub path: Seq<char>,
}

/// A successfully parsed and canonicalized absolute URL, reduced to the
/// parts this library reads: its rendering, host, domain and path.
pub struct NormalizedUrl {
    pub text: String,
    pub host: String,
    pub domain: String,
    pub path: String,
}

impl View for NormalizedUrl {
    type V = UrlModel;

    open spec fn view(&self) -> UrlModel {
        UrlModel {
            text: self.text@,
            host: self.host@,
            domain: self.domain@,
            path: self.path@,
        }
    }
}

/// What parsing `raw` as an absolute URL and canonicalizing it yields:
/// `None` when `raw` is not a syntactically valid absolute URL, else the
/// rendered URL, host, domain and path. The outcome depends on `raw` alone.
pub uninterp spec fn norm_of(raw: Seq<char>) -> Option<UrlModel>;

/// Relies on `url::Url::parse` and `url_normalizer::normalize`: parsing
/// fails exactly on text that is not an absolute URL, and both the
/// canonical form and the extracted host, domain and path are functions
/// of the input text alone. `host_str` and `domain` return `None` for
/// host-less URLs and non-domain hosts; those become empty strings here.
#[verifier::external_body]
pub fn normalize_url(raw: &str) -> (r: Option<NormalizedUrl>)
    ensures
        r matches Some(u) ==> norm_of(raw@) == Some(u@),
        r is None ==> norm_of(raw@) is None,
{
    let parsed = match url::Url::parse(raw) {
        Ok(u) => u,
        Err(_) => return None,
    };
    let normalized = match url_normalizer::normalize(parsed) {
        Ok(u) => u,
        Err(_) => return None,
    };
    Some(NormalizedUrl {
        text: normalized.as_str().to_string(),
        host: normalized.host_str().unwrap_or("").to_string(),
        domain: normalized.domain().unwrap_or("").to_string(),
        path: normalized.path().to_string(),
    })
}

/// The last `/`-separated segment of a URL path, or `None` when the path
/// does not begin with a slash (a URL that cannot be a base has no
/// segments).
pub open spec fn last_segment(path: Seq<char>) -> Option<Seq<char>> {
    if path.len() > 0 && path[0] == '/' {
        Some(path.subrange(last_index_of(path, '/') + 1, path.len() as int))
    } else {
        None
    }
}

/// The last `/`-separated segment of `path`, when it has segments.
pub fn path_last_segment(path: &str) -> (r: Option<String>)
    ensures
        match r {
            Some(s) => last_segment(path@) == Some(s@),
            None => last_segment(path@) is None,
        },
{
    let n: usize = path.unicode_len();
    if n == 0 || path.get_char(0) != '/' {
        return None;
    }
    let j = match crate::strutil::find_last_char(path, '/') {
        Some(j) => j,
        None => {
            proof {
                // the first character is a slash, so a last slash exists
                crate::strutil::lemma_last_index_of_ge(path@, '/', 0);
            }
            return None;
        },
    };
    proof {
        crate::strutil::lemma_last_index_of_bounds(path@, '/');
    }
    Some(String::from_str(path.substring_char(j + 1, n)))
}

} // verus!

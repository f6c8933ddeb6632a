use vstd::prelude::*;

verus! {

/// The spans a link scan finds in `text`, left to right: each span's
/// characters, paired with whether the span is a URL (as opposed to some
/// other link kind, such as an email address). The outcome depends on
/// `text` alone.
pub uninterp spec fn spans_of(text: Seq<char>) -> Seq<(Seq<char>, bool)>;

/// View of one scanned span.
pub open spec fn span_view(p: (String, bool)) -> (Seq<char>, bool) {
    (p.0@, p.1)
}

/// Relies on `linkify::LinkFinder::links`: it yields the link-like spans
/// of the text in order of appearance, each tagged with its kind; a span
/// is tagged here with whether its kind is `LinkKind::Url`.
#[verifier::external_body]
pub fn scan_links(text: &str) -> (r: Vec<(String, bool)>)
    ensures
        r@.map_values(|p: (String, bool)| span_view(p)) == spans_of(text@),
{
    let finder = linkify::LinkFinder::new();
    finder
        .links(text)
        .map(|l| (l.as_str().to_string(), l.kind() == &linkify::LinkKind::Url))
        .collect()
}

} // verus!

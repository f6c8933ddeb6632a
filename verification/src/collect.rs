use vstd::prelude::*;
use crate::extract::{scan_links, span_view, spans_of};
use crate::urls::{norm_of, NormalizedUrl, UrlModel};

verus! {

/// One archived message: its text, its attachment reference text, and
/// its timestamp, all free text.
pub struct MessageRecord {
    pub contents: String,
    pub attachments: String,
    pub timestamp: String,
}

/// Mathematical view of a message record.
pub struct MessageModel {
    pub contents: Seq<char>,
    pub attachments: Seq<char>,
    pub timestamp: Seq<char>,
}

impl View for MessageRecord {
    type V = MessageModel;

    open spec fn view(&self) -> MessageModel {
        MessageModel {
            contents: self.contents@,
            attachments: self.attachments@,
            timestamp: self.timestamp@,
        }
    }
}

/// A normalized URL found in a message, tagged with that message's
/// timestamp; the extension is unset until classification.
pub struct CandidateLink {
    pub url: NormalizedUrl,
    pub stamp: String,
    pub extension: Option<String>,
}

/// Mathematical view of a candidate link.
pub struct LinkModel {
    pub url: UrlModel,
    pub stamp: Seq<char>,
    pub extension: Option<Seq<char>>,
}

impl View for CandidateLink {
    type V = LinkModel;

    open spec fn view(&self) -> LinkModel {
        LinkModel {
            url: self.url@,
            stamp: self.stamp@,
            extension: match self.extension {
                Some(ref e) => Some(e@),
                None => None,
            },
        }
    }
}

impl CandidateLink {
    /// A copy of this link, equal to it in every part.
    pub fn duplicate(&self) -> (r: CandidateLink)
        ensures
            r@ == self@,
    {
        CandidateLink {
            url: NormalizedUrl {
                text: self.url.text.clone(),
                host: self.url.host.clone(),
                domain: self.url.domain.clone(),
                path: self.url.path.clone(),
            },
            stamp: self.stamp.clone(),
            extension: match self.extension {
                Some(ref e) => Some(e.clone()),
                None => None,
            },
        }
    }
}

/// Views of a vector of links.
pub open spec fn link_views(s: Seq<CandidateLink>) -> Seq<LinkModel> {
    s.map_values(|l: CandidateLink| l@)
}

/// The key under which equivalent URLs collapse: host, then domain, then
/// path of the normalized URL, run together; scheme, query and fragment
/// play no part.
pub open spec fn key_of(l: LinkModel) -> Seq<char> {
    l.url.host + l.url.domain + l.url.path
}

/// The candidate links one URL-scan span contributes: a span that is a
/// URL and parses becomes one link with the message's timestamp; any
/// other span contributes nothing.
pub open spec fn span_links(p: (Seq<char>, bool), stamp: Seq<char>) -> Seq<LinkModel> {
    if p.1 {
        match norm_of(p.0) {
            Some(u) => seq![LinkModel { url: u, stamp: stamp, extension: None }],
            None => Seq::empty(),
        }
    } else {
        Seq::empty()
    }
}

/// The candidate links of a sequence of spans, in order.
pub open spec fn spans_links(spans: Seq<(Seq<char>, bool)>, stamp: Seq<char>) -> Seq<LinkModel>
    decreases spans.len(),
{
    if spans.len() == 0 {
        Seq::empty()
    } else {
        spans_links(spans.drop_last(), stamp) + span_links(spans.last(), stamp)
    }
}

/// The candidate links scanned out of one text field.
pub open spec fn text_links(text: Seq<char>, stamp: Seq<char>) -> Seq<LinkModel> {
    spans_links(spans_of(text), stamp)
}

/// All candidate links of the archive, in scan order: message by
/// message, the content field before the attachment field.
pub open spec fn collected_links(msgs: Seq<MessageModel>) -> Seq<LinkModel>
    decreases msgs.len(),
{
    if msgs.len() == 0 {
        Seq::empty()
    } else {
        collected_links(msgs.drop_last()) + text_links(msgs.last().contents, msgs.last().timestamp)
            + text_links(msgs.last().attachments, msgs.last().timestamp)
    }
}

/// Last-write-wins deduplication by key: scanning left to right, a link
/// whose key was already seen overwrites the earlier link in place; a
/// fresh key is appended.
pub open spec fn dedup_spec(s: Seq<LinkModel>) -> Seq<LinkModel>
    decreases s.len(),
{
    if s.len() == 0 {
        Seq::empty()
    } else {
        let prev = dedup_spec(s.drop_last());
        let l = s.last();
        if exists|i: int| 0 <= i < prev.len() && key_of(#[trigger] prev[i]) == key_of(l) {
            prev.update(choose|i: int| 0 <= i < prev.len() && key_of(#[trigger] prev[i]) == key_of(l), l)
        } else {
            prev.push(l)
        }
    }
}

/// Deduplicated sequences never carry two links with one key.
pub proof fn lemma_dedup_distinct_keys(s: Seq<LinkModel>)
    ensures
        forall|i: int, j: int|
            0 <= i < j < dedup_spec(s).len() ==> key_of(#[trigger] dedup_spec(s)[i]) != key_of(
                #[trigger] dedup_spec(s)[j],
            ),
    decreases s.len(),
{
    if s.len() > 0 {
        let t = s.drop_last();
        let prev = dedup_spec(t);
        let l = s.last();
        let d = dedup_spec(s);
        lemma_dedup_distinct_keys(t);
        if exists|i: int| 0 <= i < prev.len() && key_of(#[trigger] prev[i]) == key_of(l) {
            let i0 = choose|i: int| 0 <= i < prev.len() && key_of(#[trigger] prev[i]) == key_of(l);
            assert forall|i: int, j: int| 0 <= i < j < d.len() implies key_of(#[trigger] d[i])
                != key_of(#[trigger] d[j]) by {
                assert(key_of(d[i]) == key_of(prev[i]));
                assert(key_of(d[j]) == key_of(prev[j]));
            }
        } else {
            assert forall|i: int, j: int| 0 <= i < j < d.len() implies key_of(#[trigger] d[i])
                != key_of(#[trigger] d[j]) by {
                if j < prev.len() {
                    assert(d[i] == prev[i] && d[j] == prev[j]);
                } else {
                    assert(d[j] == l && d[i] == prev[i]);
                }
            }
        }
    }
}

/// `k` is the position of the last link in `s` that shares its key.
pub open spec fn is_last_occurrence(s: Seq<LinkModel>, k: int) -> bool {
    0 <= k < s.len() && forall|m: int| k < m < s.len() ==> key_of(#[trigger] s[m]) != key_of(s[k])
}

/// Deduplication correctness: every surviving link is the last scanned
/// occurrence of its key, so it carries that occurrence's timestamp, and
/// every scanned link is represented by exactly one survivor of its key.
pub proof fn lemma_dedup_last_write_wins(s: Seq<LinkModel>)
    ensures
        forall|j: int|
            0 <= j < dedup_spec(s).len() ==> exists|k: int|
                is_last_occurrence(s, k) && s[k] == #[trigger] dedup_spec(s)[j],
        forall|k: int| #![trigger s[k]]
            0 <= k < s.len() ==> exists|j: int|
                0 <= j < dedup_spec(s).len() && key_of(#[trigger] dedup_spec(s)[j]) == key_of(s[k]),
    decreases s.len(),
{
    if s.len() > 0 {
        let t = s.drop_last();
        let l = s.last();
        let prev = dedup_spec(t);
        let d = dedup_spec(s);
        lemma_dedup_last_write_wins(t);
        lemma_dedup_distinct_keys(t);
        let hit = exists|i: int| 0 <= i < prev.len() && key_of(#[trigger] prev[i]) == key_of(l);
        let i0: int = if hit {
            choose|i: int| 0 <= i < prev.len() && key_of(#[trigger] prev[i]) == key_of(l)
        } else {
            prev.len() as int
        };
        assert(d == prev.update(i0, l) || d == prev.push(l));
        assert(d[i0] == l);
        assert forall|j: int| 0 <= j < d.len() && j != i0 implies d[j] == prev[j] by {}
        assert forall|j: int| 0 <= j < d.len() implies exists|k: int|
            is_last_occurrence(s, k) && s[k] == #[trigger] d[j] by {
            if j == i0 {
                assert forall|m: int| s.len() - 1 < m < s.len() implies key_of(#[trigger] s[m])
                    != key_of(s[s.len() - 1]) by {}
                assert(is_last_occurrence(s, s.len() - 1));
                assert(s[s.len() - 1] == l);
                assert(s[s.len() - 1] == d[j]);
            } else {
                assert(d[j] == prev[j]);
                let k = choose|k: int| is_last_occurrence(t, k) && t[k] == #[trigger] prev[j];
                assert(is_last_occurrence(t, k) && t[k] == prev[j]);
                // d[j] survived beside l, so their keys differ
                assert(key_of(prev[j]) != key_of(l));
                assert(s[k] == t[k]);
                assert forall|m: int| k < m < s.len() implies key_of(#[trigger] s[m]) != key_of(
                    s[k],
                ) by {
                    if m < s.len() - 1 {
                        assert(s[m] == t[m]);
                    } else {
                        assert(s[m] == l);
                    }
                }
                assert(is_last_occurrence(s, k));
            }
        }
        assert forall|k: int| #![trigger s[k]] 0 <= k < s.len() implies exists|j: int|
            0 <= j < d.len() && key_of(#[trigger] d[j]) == key_of(s[k]) by {
            if k == s.len() - 1 {
                assert(key_of(d[i0]) == key_of(s[k]));
            } else {
                assert(s[k] == t[k]);
                let j = choose|j: int|
                    0 <= j < prev.len() && key_of(#[trigger] prev[j]) == key_of(t[k]);
                if j == i0 {
                    assert(key_of(prev[i0]) == key_of(l));
                    assert(key_of(d[i0]) == key_of(s[k]));
                } else {
                    assert(d[j] == prev[j]);
                    assert(key_of(d[j]) == key_of(s[k]));
                }
            }
        }
    }
}

/// The key of `l`, as a string.
fn key_string(l: &CandidateLink) -> (r: String)
    ensures
        r@ == key_of(l@),
{
    let mut r = l.url.host.clone();
    r.append(l.url.domain.as_str());
    r.append(l.url.path.as_str());
    r
}

/// Collapse links that share a key, the later scanned link overwriting
/// the earlier one in place.
pub fn dedup_links(links: Vec<CandidateLink>) -> (r: Vec<CandidateLink>)
    ensures
        link_views(r@) == dedup_spec(link_views(links@)),
{
    let ghost all = link_views(links@);
    let mut out: Vec<CandidateLink> = Vec::new();
    let mut idx: usize = 0;
    while idx < links.len()
        invariant
            idx <= links@.len(),
            all == link_views(links@),
            link_views(out@) == dedup_spec(all.take(idx as int)),
        decreases links@.len() - idx,
    {
        let ghost taken = all.take(idx as int);
        let ghost prev = dedup_spec(taken);
        proof {
            assert(all.take(idx + 1).drop_last() =~= taken);
            assert(all.take(idx + 1).last() == links@[idx as int]@);
            lemma_dedup_distinct_keys(taken);
        }
        let link = links[idx].duplicate();
        proof {
            assert(all[idx as int] == links@[idx as int]@);
        }
        let key = key_string(&link);
        let mut j: usize = 0;
        let mut found: bool = false;
        while j < out.len() && !found
            invariant
                j <= out@.len(),
                link_views(out@) == prev,
                key@ == key_of(link@),
                idx < links@.len(),
                all == link_views(links@),
                link@ == all[idx as int],
                !found ==> forall|i: int| 0 <= i < j ==> key_of(#[trigger] prev[i]) != key_of(
                    link@,
                ),
                found ==> j < out@.len() && key_of(prev[j as int]) == key_of(link@),
            decreases out@.len() - j + (if found {
                0int
            } else {
                1int
            }),
        {
            if key_string(&out[j]) == key {
                found = true;
            } else {
                j = j + 1;
            }
        }
        if found {
            proof {
                let w = choose|i: int| 0 <= i < prev.len() && key_of(#[trigger] prev[i]) == key_of(
                    link@,
                );
                assert(w == j as int);
            }
            out.set(j, link);
        } else {
            assert(forall|i: int|
                0 <= i < prev.len() ==> key_of(#[trigger] prev[i]) != key_of(link@));
            out.push(link);
        }
        proof {
            assert(link_views(out@) =~= dedup_spec(all.take(idx + 1)));
        }
        idx = idx + 1;
    }
    proof {
        assert(all.take(links@.len() as int) =~= all);
    }
    out
}

/// Scan one text field: push a candidate link for every span that is a
/// URL and parses as one, tagged with `stamp`; drop the rest silently.
fn collect_from_text(acc: &mut Vec<CandidateLink>, text: &str, stamp: &String)
    ensures
        link_views(final(acc)@) == link_views(old(acc)@) + text_links(text@, stamp@),
{
    let spans = scan_links(text);
    let ghost spanviews = spans@.map_values(|p: (String, bool)| span_view(p));
    let mut si: usize = 0;
    while si < spans.len()
        invariant
            si <= spans@.len(),
            spanviews == spans@.map_values(|p: (String, bool)| span_view(p)),
            spanviews == spans_of(text@),
            link_views(acc@) == link_views(old(acc)@) + spans_links(
                spanviews.take(si as int),
                stamp@,
            ),
        decreases spans@.len() - si,
    {
        proof {
            assert(spanviews.take(si + 1).drop_last() =~= spanviews.take(si as int));
            assert(spanviews.take(si + 1).last() == spanviews[si as int]);
            assert(spanviews[si as int] == span_view(spans@[si as int]));
        }
        let ghost pre = acc@;
        let ghost span_part = span_links(spanviews[si as int], stamp@);
        if spans[si].1 {
            match crate::urls::normalize_url(spans[si].0.as_str()) {
                Some(u) => {
                    let l = CandidateLink { url: u, stamp: stamp.clone(), extension: None };
                    proof {
                        assert(span_part =~= seq![
                            LinkModel { url: u@, stamp: stamp@, extension: None },
                        ]);
                    }
                    acc.push(l);
                    proof {
                        assert(link_views(acc@) =~= link_views(pre) + span_part);
                    }
                },
                None => {
                    proof {
                        assert(link_views(acc@) =~= link_views(pre) + span_part);
                    }
                },
            }
        } else {
            proof {
                assert(link_views(acc@) =~= link_views(pre) + span_part);
            }
        }
        proof {
            assert(spans_links(spanviews.take(si + 1), stamp@) == spans_links(
                spanviews.take(si as int),
                stamp@,
            ) + span_part);
            assert(link_views(acc@) =~= link_views(old(acc)@) + spans_links(
                spanviews.take(si + 1),
                stamp@,
            ));
        }
        si = si + 1;
    }
    proof {
        assert(spanviews.take(spans@.len() as int) =~= spanviews);
    }
}

/// Views of a vector of messages.
pub open spec fn message_views(s: Seq<MessageRecord>) -> Seq<MessageModel> {
    s.map_values(|m: MessageRecord| m@)
}

/// Scan every message's content and attachment text for URLs, keep the
/// spans that parse as absolute URLs in canonical form, and collapse
/// links that share a (host, domain, path) key, the last scanned
/// occurrence winning. The order of the result carries no meaning.
pub fn find_links(messages: Vec<MessageRecord>) -> (r: Vec<CandidateLink>)
    ensures
        link_views(r@) == dedup_spec(collected_links(message_views(messages@))),
{
    let ghost msgs = message_views(messages@);
    let mut all: Vec<CandidateLink> = Vec::new();
    let mut mi: usize = 0;
    while mi < messages.len()
        invariant
            mi <= messages@.len(),
            msgs == message_views(messages@),
            link_views(all@) == collected_links(msgs.take(mi as int)),
        decreases messages@.len() - mi,
    {
        proof {
            assert(msgs.take(mi + 1).drop_last() =~= msgs.take(mi as int));
            assert(msgs.take(mi + 1).last() == messages@[mi as int]@);
        }
        let msg = &messages[mi];
        collect_from_text(&mut all, msg.contents.as_str(), &msg.timestamp);
        collect_from_text(&mut all, msg.attachments.as_str(), &msg.timestamp);
        proof {
            assert(link_views(all@) =~= collected_links(msgs.take(mi + 1)));
        }
        mi = mi + 1;
    }
    proof {
        assert(msgs.take(messages@.len() as int) =~= msgs);
    }
    dedup_links(all)
}

} // verus!

use vstd::prelude::*;
use crate::collect::{link_views, CandidateLink, LinkModel};
use crate::names::{name_views, spec_unique_name, truncate_spec, unique_filename};
use crate::strutil::{contains_chars, spec_contains, str_chars, underscored};
use crate::urls::last_segment;
use crate::MAX_FILENAME_LENGTH;

verus! {

/// What lossy text decoding of a byte buffer yields; the result depends
/// on the bytes alone.
pub uninterp spec fn lossy_of(b: Seq<u8>) -> Seq<char>;

/// Relies on `String::from_utf8_lossy`: the decoded text is a function
/// of the bytes alone; undecodable byte runs become replacement
/// characters rather than failures.
#[verifier::external_body]
fn decode_lossy(body: &Vec<u8>) -> (r: Vec<char>)
    ensures
        r@ == lossy_of(body@),
{
    String::from_utf8_lossy(body).chars().collect()
}

/// The phrase with which the primary host reports content removed.
pub open spec fn unavailable_marker() -> Seq<char> {
    "This content is no longer available"@
}

/// Whether the response body, read as text, carries the phrase with
/// which the host reports the content removed.
pub fn body_reports_unavailable(body: &Vec<u8>) -> (r: bool)
    ensures
        r == spec_contains(lossy_of(body@), unavailable_marker()),
{
    let text = decode_lossy(body);
    let marker = str_chars("This content is no longer available");
    contains_chars(&text, &marker)
}

/// The substitute URL tried when the primary host reports the content
/// removed: the bypass server address followed by the original URL's
/// path; scheme, host and query of the original are discarded.
pub fn bypass_url(bypass_server: &str, path: &str) -> (r: String)
    ensures
        r@ == bypass_server@ + path@,
{
    let mut r = String::from_str(bypass_server);
    r.append(path);
    r
}

/// The base file name a fetched link is saved under, before truncation:
/// the message timestamp with spaces turned to underscores, an
/// underscore, and the last segment of the URL path, or a placeholder
/// when the URL has no path segments.
pub open spec fn derive_spec(stamp: Seq<char>, path: Seq<char>) -> Seq<char> {
    underscored(stamp) + seq!['_'] + (match last_segment(path) {
        Some(s) => s,
        None => "default_filename"@,
    })
}

/// The base file name for a link fetched from `path` at `stamp`.
pub fn derive_filename(stamp: &str, path: &str) -> (r: String)
    ensures
        r@ == derive_spec(stamp@, path@),
{
    proof {
        reveal_strlit("_");
    }
    let mut r = crate::strutil::underscore_spaces(stamp);
    r.append("_");
    match crate::urls::path_last_segment(path) {
        Some(s) => r.append(s.as_str()),
        None => r.append("default_filename"),
    }
    proof {
        assert(r@ =~= derive_spec(stamp@, path@));
    }
    r
}

/// The file name a link is saved under: the derived base name, cut to
/// the length bound with its extension kept whole.
pub open spec fn save_name_spec(l: LinkModel) -> Seq<char> {
    truncate_spec(derive_spec(l.stamp, l.url.path), MAX_FILENAME_LENGTH as int)
}

/// The file name `link` is saved under.
pub fn save_filename(link: &CandidateLink) -> (r: String)
    ensures
        r@ == save_name_spec(link@),
{
    let base = derive_filename(link.stamp.as_str(), link.url.path.as_str());
    crate::names::truncate_filename(base.as_str(), MAX_FILENAME_LENGTH)
}

/// What one fetch attempt produced: the full response body, or a
/// transport or read failure with its description.
pub enum FetchResult {
    Success(Vec<u8>),
    Failure(String),
}

/// Mathematical view of a fetch attempt.
pub enum FetchModel {
    Success(Seq<u8>),
    Failure(Seq<char>),
}

impl View for FetchResult {
    type V = FetchModel;

    open spec fn view(&self) -> FetchModel {
        match self {
            FetchResult::Success(b) => FetchModel::Success(b@),
            FetchResult::Failure(e) => FetchModel::Failure(e@),
        }
    }
}

/// The per-link download lifecycle: a link starts `Pending`, is fetched
/// (`Fetching`), may retry once through the bypass server (`Retrying`),
/// and ends `Saved` or `Failed`.
#[derive(Clone, Copy, PartialEq, Eq, Structural, Debug)]
pub enum DownloadPhase {
    Pending,
    Fetching,
    Retrying,
    Saved,
    Failed,
}

/// What the engine does next with a link after a fetch attempt.
pub enum LinkStep {
    /// Fetch once more, from the bypass server.
    Retry { url: String },
    /// Persist this body.
    Store { body: Vec<u8> },
    /// Give the link up; the batch continues.
    Abort,
}

/// Mathematical view of an engine step.
pub enum StepModel {
    Retry { url: Seq<char> },
    Store { body: Seq<u8> },
    Abort,
}

impl View for LinkStep {
    type V = StepModel;

    open spec fn view(&self) -> StepModel {
        match self {
            LinkStep::Retry { url } => StepModel::Retry { url: url@ },
            LinkStep::Store { body } => StepModel::Store { body: body@ },
            LinkStep::Abort => StepModel::Abort,
        }
    }
}

/// Start on a link: enter `Fetching` and fetch its URL.
pub fn start_link(link: &CandidateLink) -> (r: (DownloadPhase, String))
    ensures
        r.0 is Fetching,
        r.1@ == link@.url.text,
{
    (DownloadPhase::Fetching, link.url.text.clone())
}

/// The phase and step that follow one fetch attempt: a failure ends the
/// link; a body carrying the removed-content phrase on the primary
/// attempt moves the link to `Retrying` with the bypass URL; any other
/// body is stored — after the bypass attempt the phrase is not checked
/// again.
pub open spec fn fetch_step_spec(
    phase: DownloadPhase,
    l: LinkModel,
    bypass: Seq<char>,
    result: FetchModel,
) -> (DownloadPhase, StepModel) {
    match result {
        FetchModel::Failure(_) => (DownloadPhase::Failed, StepModel::Abort),
        FetchModel::Success(b) => if phase is Fetching && spec_contains(
            lossy_of(b),
            unavailable_marker(),
        ) {
            (DownloadPhase::Retrying, StepModel::Retry { url: bypass + l.url.path })
        } else {
            (phase, StepModel::Store { body: b })
        },
    }
}

/// Drive one link one step onward from a fetch attempt's result.
pub fn fetch_transition(
    phase: DownloadPhase,
    link: &CandidateLink,
    bypass_server: &str,
    result: FetchResult,
) -> (r: (DownloadPhase, LinkStep))
    requires
        phase is Fetching || phase is Retrying,
    ensures
        r.0 == fetch_step_spec(phase, link@, bypass_server@, result@).0,
        r.1@ == fetch_step_spec(phase, link@, bypass_server@, result@).1,
{
    match result {
        FetchResult::Failure(_) => (DownloadPhase::Failed, LinkStep::Abort),
        FetchResult::Success(body) => {
            let primary = match phase {
                DownloadPhase::Fetching => true,
                _ => false,
            };
            if primary && body_reports_unavailable(&body) {
                (
                    DownloadPhase::Retrying,
                    LinkStep::Retry {
                        url: bypass_url(bypass_server, link.url.path.as_str()),
                    },
                )
            } else {
                (phase, LinkStep::Store { body })
            }
        },
    }
}

/// End a link after its body was persisted, or failed to be.
pub fn persist_transition(phase: DownloadPhase, wrote: bool) -> (r: DownloadPhase)
    requires
        phase is Fetching || phase is Retrying,
    ensures
        r == if wrote {
            DownloadPhase::Saved
        } else {
            DownloadPhase::Failed
        },
{
    if wrote {
        DownloadPhase::Saved
    } else {
        DownloadPhase::Failed
    }
}

/// How one link ends when its body is stored against the names already
/// written: saved under the first free candidate of its save name.
pub open spec fn store_spec(l: LinkModel, body: Seq<u8>, ex: Seq<Seq<char>>) -> OutcomeModel {
    match spec_unique_name(save_name_spec(l), ex) {
        Some(c) => OutcomeModel::Saved { filename: c, body: body },
        None => OutcomeModel::Failed,
    }
}

/// How one link ends, given what its primary fetch and (if consulted)
/// its bypass fetch produce.
pub open spec fn outcome_spec(
    l: LinkModel,
    bypass: Seq<char>,
    primary: FetchModel,
    on_bypass: FetchModel,
    ex: Seq<Seq<char>>,
) -> OutcomeModel {
    match primary {
        FetchModel::Failure(_) => OutcomeModel::Failed,
        FetchModel::Success(b) => if spec_contains(lossy_of(b), unavailable_marker()) {
            match on_bypass {
                FetchModel::Failure(_) => OutcomeModel::Failed,
                FetchModel::Success(b2) => store_spec(l, b2, ex),
            }
        } else {
            store_spec(l, b, ex)
        },
    }
}

/// How one link of the batch ended: saved under a file name with its
/// body, or failed.
pub enum LinkOutcome {
    Saved { filename: String, body: Vec<u8> },
    Failed,
}

/// Mathematical view of a link's outcome.
pub enum OutcomeModel {
    Saved { filename: Seq<char>, body: Seq<u8> },
    Failed,
}

impl View for LinkOutcome {
    type V = OutcomeModel;

    open spec fn view(&self) -> OutcomeModel {
        match self {
            LinkOutcome::Saved { filename, body } => OutcomeModel::Saved {
                filename: filename@,
                body: body@,
            },
            LinkOutcome::Failed => OutcomeModel::Failed,
        }
    }
}

/// Store `body` for `link` under a collision-free name.
fn store_link(link: &CandidateLink, body: Vec<u8>, existing: &Vec<String>) -> (r: LinkOutcome)
    ensures
        r@ == store_spec(link@, body@, name_views(existing@)),
{
    let name = save_filename(link);
    match unique_filename(name.as_str(), existing) {
        Some(c) => LinkOutcome::Saved { filename: c, body },
        None => LinkOutcome::Failed,
    }
}

/// Run one link through the whole lifecycle, its fetch attempts'
/// results given: primary fetch, removed-content check, at most one
/// bypass retry, then a collision-free name for the body kept.
pub fn process_link(
    link: &CandidateLink,
    bypass_server: &str,
    primary: FetchResult,
    on_bypass: FetchResult,
    existing: &Vec<String>,
) -> (r: LinkOutcome)
    ensures
        r@ == outcome_spec(link@, bypass_server@, primary@, on_bypass@, name_views(existing@)),
{
    let (phase, step) = fetch_transition(DownloadPhase::Fetching, link, bypass_server, primary);
    match step {
        LinkStep::Abort => LinkOutcome::Failed,
        LinkStep::Store { body } => store_link(link, body, existing),
        LinkStep::Retry { url: _ } => {
            let (_phase2, step2) = fetch_transition(phase, link, bypass_server, on_bypass);
            match step2 {
                LinkStep::Abort => LinkOutcome::Failed,
                LinkStep::Store { body } => store_link(link, body, existing),
                LinkStep::Retry { url: _ } => {
                    proof {
                        // a retrying link never retries again
                        assert(false);
                    }
                    LinkOutcome::Failed
                },
            }
        },
    }
}

/// Views of the per-link fetch results handed to a batch.
pub open spec fn outcome_pair_views(s: Seq<(FetchResult, FetchResult)>) -> Seq<
    (FetchModel, FetchModel),
> {
    s.map_values(|p: (FetchResult, FetchResult)| (p.0@, p.1@))
}

/// How a whole batch ends, link by link in order, each link's saved
/// name joining the set of names the next links must avoid.
pub open spec fn batch_spec(
    ls: Seq<LinkModel>,
    bypass: Seq<char>,
    os: Seq<(FetchModel, FetchModel)>,
    ex: Seq<Seq<char>>,
) -> Seq<OutcomeModel>
    decreases ls.len(),
{
    if ls.len() == 0 {
        Seq::empty()
    } else {
        let o = outcome_spec(ls[0], bypass, os[0].0, os[0].1, ex);
        seq![o] + batch_spec(
            ls.drop_first(),
            bypass,
            os.drop_first(),
            match o {
                OutcomeModel::Saved { filename, .. } => ex.push(filename),
                OutcomeModel::Failed => ex,
            },
        )
    }
}

/// Batch resilience: however the fetches go, a batch yields exactly one
/// outcome per link — no link's failure stops the links after it.
pub proof fn lemma_batch_yields_one_outcome_per_link(
    ls: Seq<LinkModel>,
    bypass: Seq<char>,
    os: Seq<(FetchModel, FetchModel)>,
    ex: Seq<Seq<char>>,
)
    requires
        os.len() == ls.len(),
    ensures
        batch_spec(ls, bypass, os, ex).len() == ls.len(),
    decreases ls.len(),
{
    if ls.len() > 0 {
        let o = outcome_spec(ls[0], bypass, os[0].0, os[0].1, ex);
        lemma_batch_yields_one_outcome_per_link(
            ls.drop_first(),
            bypass,
            os.drop_first(),
            match o {
                OutcomeModel::Saved { filename, .. } => ex.push(filename),
                OutcomeModel::Failed => ex,
            },
        );
    }
}

/// Process every link of a classified batch, one at a time, in order;
/// one link's failure never stops the others, so the batch yields
/// exactly one outcome per link.
pub fn process_batch(
    links: Vec<CandidateLink>,
    bypass_server: &str,
    outcomes: Vec<(FetchResult, FetchResult)>,
    existing: Vec<String>,
) -> (r: Vec<LinkOutcome>)
    requires
        outcomes@.len() == links@.len(),
    ensures
        r@.len() == links@.len(),
        r@.map_values(|o: LinkOutcome| o@) == batch_spec(
            link_views(links@),
            bypass_server@,
            outcome_pair_views(outcomes@),
            name_views(existing@),
        ),
{
    let ghost ls0 = link_views(links@);
    let ghost os0 = outcome_pair_views(outcomes@);
    let ghost ex0 = name_views(existing@);
    let mut links = links;
    let mut outcomes = outcomes;
    let mut written = existing;
    let mut results: Vec<LinkOutcome> = Vec::new();
    let ghost total = links@.len();
    while links.len() > 0
        invariant
            outcomes@.len() == links@.len(),
            results@.len() + links@.len() == total,
            batch_spec(ls0, bypass_server@, os0, ex0) == results@.map_values(|o: LinkOutcome| o@)
                + batch_spec(
                link_views(links@),
                bypass_server@,
                outcome_pair_views(outcomes@),
                name_views(written@),
            ),
        decreases links@.len(),
    {
        let ghost pre_links = link_views(links@);
        let ghost pre_os = outcome_pair_views(outcomes@);
        let ghost pre_ex = name_views(written@);
        let link = links.remove(0);
        let (primary, on_bypass) = outcomes.remove(0);
        proof {
            assert(link_views(links@) =~= pre_links.drop_first());
            assert(outcome_pair_views(outcomes@) =~= pre_os.drop_first());
            assert(link@ == pre_links[0]);
            assert(primary@ == pre_os[0].0 && on_bypass@ == pre_os[0].1);
        }
        let out = process_link(&link, bypass_server, primary, on_bypass, &written);
        match &out {
            LinkOutcome::Saved { filename, body: _ } => {
                written.push(filename.clone());
                proof {
                    assert(name_views(written@) =~= pre_ex.push(filename@));
                }
            },
            LinkOutcome::Failed => {},
        }
        results.push(out);
        proof {
            assert(results@.map_values(|o: LinkOutcome| o@) =~= results@.map_values(
                |o: LinkOutcome| o@,
            ));
            assert(batch_spec(pre_links, bypass_server@, pre_os, pre_ex) == seq![out@]
                + batch_spec(
                link_views(links@),
                bypass_server@,
                outcome_pair_views(outcomes@),
                name_views(written@),
            ));
            assert(results@.map_values(|o: LinkOutcome| o@) =~= results@.drop_last().map_values(
                |o: LinkOutcome| o@,
            ).push(out@));
            assert(batch_spec(ls0, bypass_server@, os0, ex0) =~= results@.map_values(
                |o: LinkOutcome| o@,
            ) + batch_spec(
                link_views(links@),
                bypass_server@,
                outcome_pair_views(outcomes@),
                name_views(written@),
            ));
        }
    }
    proof {
        assert(batch_spec(link_views(links@), bypass_server@, outcome_pair_views(outcomes@),
            name_views(written@)) =~= Seq::<OutcomeModel>::empty());
        assert(results@.map_values(|o: LinkOutcome| o@) =~= batch_spec(
            ls0,
            bypass_server@,
            os0,
            ex0,
        ));
    }
    results
}

} // verus!

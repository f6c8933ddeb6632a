use media_exporter::collect::CandidateLink;
use media_exporter::engine::{
    body_reports_unavailable, bypass_url, derive_filename, fetch_transition, persist_transition,
    process_batch, process_link, save_filename, start_link, DownloadPhase, FetchResult,
    LinkOutcome, LinkStep,
};
use media_exporter::names::{candidate_name, truncate_filename, unique_filename};
use media_exporter::urls::normalize_url;
use media_exporter::MAX_FILENAME_LENGTH;

fn link(raw: &str, stamp: &str) -> CandidateLink {
    CandidateLink {
        url: normalize_url(raw).expect("valid url"),
        stamp: stamp.to_string(),
        extension: None,
    }
}

const MARKER: &str = "This content is no longer available";

#[test]
fn truncation_leaves_short_names_alone() {
    assert_eq!(truncate_filename("photo.png", 100), "photo.png");
    assert_eq!(truncate_filename("a", 100), "a");
    assert_eq!(truncate_filename("", 100), "");
}

#[test]
fn truncation_cuts_base_and_keeps_extension() {
    let base = "x".repeat(150);
    let name = format!("{base}.png");
    let out = truncate_filename(&name, 100);
    assert_eq!(out.len(), 100);
    assert!(out.ends_with(".png"));
    assert_eq!(&out[..95], &base[..95]);
}

#[test]
fn truncation_exact_value() {
    let name = format!("{}.gif", "a".repeat(20));
    let out = truncate_filename(&name, 10);
    assert_eq!(out, "aaaaaa.gif");
    assert_eq!(out.len(), 10);
}

#[test]
fn truncation_with_no_extension_appends_dot() {
    let name = "b".repeat(150);
    let out = truncate_filename(&name, 100);
    assert_eq!(out.len(), 100);
    assert_eq!(out, format!("{}.", "b".repeat(99)));
}

#[test]
fn truncation_fires_on_whole_name_length() {
    // 102 characters in all, base 98: the whole name exceeds the
    // bound, so the base is cut until the name fills it exactly
    let name = format!("{}.png", "x".repeat(98));
    let out = truncate_filename(&name, 100);
    assert_eq!(out.len(), 100);
    assert_eq!(out, format!("{}.png", "x".repeat(96)));
}

#[test]
fn truncation_never_cuts_the_extension() {
    // the extension is kept whole even when it alone exceeds the
    // bound; only then may the result overrun it
    let name = format!("a.{}", "e".repeat(150));
    let out = truncate_filename(&name, 100);
    assert_eq!(out, format!(".{}", "e".repeat(150)));
}

#[test]
fn candidate_names_number_before_extension() {
    assert_eq!(candidate_name("photo.png", 0), "photo.png");
    assert_eq!(candidate_name("photo.png", 1), "photo_1.png");
    assert_eq!(candidate_name("photo.png", 12), "photo_12.png");
    assert_eq!(candidate_name("noext", 1), "noext_1.");
}

#[test]
fn unique_filename_prefers_the_plain_name() {
    let existing: Vec<String> = vec![];
    assert_eq!(unique_filename("photo.png", &existing), Some("photo.png".to_string()));
}

#[test]
fn collision_takes_suffix_one() {
    let existing = vec!["photo.png".to_string()];
    assert_eq!(unique_filename("photo.png", &existing), Some("photo_1.png".to_string()));
    let existing2 = vec!["photo.png".to_string(), "photo_1.png".to_string()];
    assert_eq!(unique_filename("photo.png", &existing2), Some("photo_2.png".to_string()));
}

#[test]
fn derive_filename_joins_stamp_and_last_segment() {
    assert_eq!(
        derive_filename("2023-01-01 10:00", "/a/photo.png"),
        "2023-01-01_10:00_photo.png"
    );
    assert_eq!(derive_filename("t", "nonslash"), "t_default_filename");
    assert_eq!(derive_filename("a b c", "/x/y.png"), "a_b_c_y.png");
}

#[test]
fn save_filename_truncates_to_bound() {
    let long = format!("/a/{}.png", "y".repeat(200));
    let l = link(&format!("http://cdn.example.com{long}"), "2023-01-01 10:00");
    let name = save_filename(&l);
    assert_eq!(name.len(), MAX_FILENAME_LENGTH);
    assert!(name.ends_with(".png"));
    assert!(name.starts_with("2023-01-01_10:00_"));
}

#[test]
fn marker_is_detected_in_bytes() {
    let body = format!("<html>{MARKER}</html>").into_bytes();
    assert!(body_reports_unavailable(&body));
    let clean = b"all good here".to_vec();
    assert!(!body_reports_unavailable(&clean));
}

#[test]
fn marker_survives_invalid_bytes_around_it() {
    let mut body = vec![0xffu8, 0xfe];
    body.extend_from_slice(MARKER.as_bytes());
    body.push(0xff);
    assert!(body_reports_unavailable(&body));
}

#[test]
fn bypass_url_is_server_plus_path() {
    assert_eq!(
        bypass_url("https://proxy.example.org", "/abc/image.gif"),
        "https://proxy.example.org/abc/image.gif"
    );
}

#[test]
fn bypass_substitution_scenario() {
    let l = link("https://media.example.com/abc/image.gif", "t");
    let (phase, step) = fetch_transition(
        DownloadPhase::Fetching,
        &l,
        "https://proxy.example.org",
        FetchResult::Success(MARKER.as_bytes().to_vec()),
    );
    assert_eq!(phase, DownloadPhase::Retrying);
    match step {
        LinkStep::Retry { url } => {
            assert_eq!(url, "https://proxy.example.org/abc/image.gif");
        },
        _ => panic!("expected a retry step"),
    }
}

#[test]
fn retry_happens_at_most_once() {
    let l = link("https://media.example.com/abc/image.gif", "t");
    // the bypass response still carries the marker; it is stored anyway
    let (_, step) = fetch_transition(
        DownloadPhase::Retrying,
        &l,
        "https://proxy.example.org",
        FetchResult::Success(MARKER.as_bytes().to_vec()),
    );
    assert!(matches!(step, LinkStep::Store { .. }));
}

#[test]
fn fetch_failure_ends_the_link() {
    let l = link("http://cdn.example.com/a/x.png", "t");
    let (phase, step) = fetch_transition(
        DownloadPhase::Fetching,
        &l,
        "http://proxy.example.org",
        FetchResult::Failure("connection refused".to_string()),
    );
    assert_eq!(phase, DownloadPhase::Failed);
    assert!(matches!(step, LinkStep::Abort));
}

#[test]
fn phases_walk_the_state_machine() {
    let l = link("http://cdn.example.com/a/x.png", "t");
    let (phase, url) = start_link(&l);
    assert_eq!(phase, DownloadPhase::Fetching);
    assert_eq!(url, l.url.text);
    let (phase2, _) = fetch_transition(
        phase,
        &l,
        "http://proxy.example.org",
        FetchResult::Success(b"bytes".to_vec()),
    );
    assert_eq!(phase2, DownloadPhase::Fetching);
    assert_eq!(persist_transition(phase2, true), DownloadPhase::Saved);
    assert_eq!(persist_transition(phase2, false), DownloadPhase::Failed);
}

#[test]
fn process_link_saves_clean_body() {
    let l = link("http://cdn.example.com/a/x.png", "2023-01-01 10:00");
    let out = process_link(
        &l,
        "http://proxy.example.org",
        FetchResult::Success(b"data".to_vec()),
        FetchResult::Failure("unused".to_string()),
        &vec![],
    );
    match out {
        LinkOutcome::Saved { filename, body } => {
            assert_eq!(filename, "2023-01-01_10:00_x.png");
            assert_eq!(body, b"data".to_vec());
        },
        LinkOutcome::Failed => panic!("expected a save"),
    }
}

#[test]
fn batch_resilience_scenario() {
    // first link fails to fetch, second recovers through the bypass,
    // third downloads normally: two saved files, one failure, all three
    // processed
    let links = vec![
        link("http://cdn.example.com/a/one.png", "t1"),
        link("http://cdn.example.com/b/two.gif", "t2"),
        link("http://cdn.example.com/c/three.jpg", "t3"),
    ];
    let outcomes = vec![
        (
            FetchResult::Failure("connection reset".to_string()),
            FetchResult::Failure("unused".to_string()),
        ),
        (
            FetchResult::Success(MARKER.as_bytes().to_vec()),
            FetchResult::Success(b"real gif bytes".to_vec()),
        ),
        (
            FetchResult::Success(b"jpg bytes".to_vec()),
            FetchResult::Failure("unused".to_string()),
        ),
    ];
    let results = process_batch(links, "http://proxy.example.org", outcomes, vec![]);
    assert_eq!(results.len(), 3);
    assert!(matches!(results[0], LinkOutcome::Failed));
    match &results[1] {
        LinkOutcome::Saved { filename, body } => {
            assert_eq!(filename, "t2_two.gif");
            assert_eq!(body, &b"real gif bytes".to_vec());
        },
        LinkOutcome::Failed => panic!("second link should be saved via bypass"),
    }
    match &results[2] {
        LinkOutcome::Saved { filename, .. } => assert_eq!(filename, "t3_three.jpg"),
        LinkOutcome::Failed => panic!("third link should be saved"),
    }
}

#[test]
fn batch_avoids_name_collisions_between_links() {
    // two different links that derive the same file name: the second
    // gets the _1 suffix
    let links = vec![
        link("http://a.example.com/x/same.png", "t"),
        link("http://b.example.com/y/same.png", "t"),
    ];
    let outcomes = vec![
        (
            FetchResult::Success(b"one".to_vec()),
            FetchResult::Failure("unused".to_string()),
        ),
        (
            FetchResult::Success(b"two".to_vec()),
            FetchResult::Failure("unused".to_string()),
        ),
    ];
    let results = process_batch(links, "http://proxy.example.org", outcomes, vec![]);
    let names: Vec<String> = results
        .iter()
        .map(|r| match r {
            LinkOutcome::Saved { filename, .. } => filename.clone(),
            LinkOutcome::Failed => panic!("both links should be saved"),
        })
        .collect();
    assert_eq!(names[0], "t_same.png");
    assert_eq!(names[1], "t_same_1.png");
    assert_ne!(names[0], names[1]);
}

use media_exporter::classify::{filter_media_links, is_media_file, media_extensions};
use media_exporter::collect::{dedup_links, find_links, CandidateLink, MessageRecord};
use media_exporter::report::{extension_distribution, get_channel_type, host_distribution,
    sort_counts_desc, tally_counts};
use media_exporter::urls::{normalize_url, NormalizedUrl};

fn msg(contents: &str, attachments: &str, timestamp: &str) -> MessageRecord {
    MessageRecord {
        contents: contents.to_string(),
        attachments: attachments.to_string(),
        timestamp: timestamp.to_string(),
    }
}

fn link(raw: &str, stamp: &str) -> CandidateLink {
    CandidateLink {
        url: normalize_url(raw).expect("valid url"),
        stamp: stamp.to_string(),
        extension: None,
    }
}

#[test]
fn normalization_is_idempotent_on_plain_url() {
    let once = normalize_url("https://CDN.Example.com/a/photo.png?b=2&a=1").expect("parses");
    let twice = normalize_url(&once.text).expect("still parses");
    assert_eq!(once.text, twice.text);
    assert_eq!(once.host, twice.host);
    assert_eq!(once.path, twice.path);
}

#[test]
fn normalization_lowercases_host() {
    let u = normalize_url("http://CDN.Example.com/a/Photo.PNG").expect("parses");
    assert_eq!(u.host, "cdn.example.com");
    assert_eq!(u.path, "/a/Photo.PNG");
}

#[test]
fn normalization_rejects_non_urls() {
    assert!(normalize_url("not a url at all").is_none());
}

#[test]
fn collector_finds_urls_in_contents_and_attachments() {
    let messages = vec![
        msg(
            "look at http://cdn.example.com/a/one.png now",
            "http://cdn.example.com/b/two.jpg",
            "2023-01-01 10:00",
        ),
    ];
    let links = find_links(messages);
    assert_eq!(links.len(), 2);
}

#[test]
fn collector_drops_email_addresses() {
    let messages = vec![msg("write to someone@example.com please", "", "t")];
    let links = find_links(messages);
    assert_eq!(links.len(), 0);
}

#[test]
fn dedup_keeps_later_timestamp() {
    let messages = vec![
        msg("http://cdn.example.com/a/photo.png", "", "2023-01-01 10:00"),
        msg("http://cdn.example.com/a/photo.png", "", "2023-01-02 11:00"),
    ];
    let links = find_links(messages);
    assert_eq!(links.len(), 1);
    assert_eq!(links[0].stamp, "2023-01-02 11:00");
}

#[test]
fn dedup_ignores_scheme_and_query() {
    let messages = vec![
        msg("https://cdn.example.com/a/photo.png?x=1", "", "t1"),
        msg("http://cdn.example.com/a/photo.png?y=2", "", "t2"),
    ];
    let links = find_links(messages);
    assert_eq!(links.len(), 1);
    assert_eq!(links[0].stamp, "t2");
}

#[test]
fn dedup_key_is_case_sensitive_in_path() {
    // the key keeps the raw normalized path, so a casing difference in
    // the path keeps both links apart; only classification lowercases
    let messages = vec![
        msg(
            "check this out http://cdn.example.com/a/photo.PNG and also http://cdn.example.com/a/photo.png",
            "",
            "t",
        ),
    ];
    let links = find_links(messages);
    assert_eq!(links.len(), 2);
}

#[test]
fn dedup_links_collapses_equal_keys_directly() {
    let a = link("http://cdn.example.com/a/x.png", "early");
    let b = link("http://cdn.example.com/a/x.png", "late");
    let c = link("http://other.example.com/a/x.png", "t");
    let out = dedup_links(vec![a, b, c]);
    assert_eq!(out.len(), 2);
    let kept: Vec<&str> = out.iter().map(|l| l.stamp.as_str()).collect();
    assert!(kept.contains(&"late"));
    assert!(!kept.contains(&"early"));
}

#[test]
fn classification_matches_known_extensions() {
    for raw in [
        "http://cdn.example.com/a/a.png",
        "http://cdn.example.com/a/b.jpg",
        "http://cdn.example.com/a/c.gif",
        "http://cdn.example.com/a/d.mp4",
        "http://cdn.example.com/a/e.flac",
        "http://cdn.example.com/a/f.blend",
        "http://cdn.example.com/a/g.svg",
        "http://cdn.example.com/a/h.dwg",
    ] {
        let out = filter_media_links(vec![link(raw, "t")]);
        assert_eq!(out.len(), 1, "{raw} should classify");
    }
}

#[test]
fn classification_records_matched_extension() {
    let out = filter_media_links(vec![link("http://cdn.example.com/a/photo.png", "t")]);
    assert_eq!(out[0].extension.as_deref(), Some("png"));
}

#[test]
fn classification_lowercases_path_before_matching() {
    let out = filter_media_links(vec![link("http://cdn.example.com/a/Photo.PNG", "t")]);
    assert_eq!(out.len(), 1);
    assert_eq!(out[0].extension.as_deref(), Some("png"));
}

#[test]
fn classification_excludes_near_misses() {
    for raw in [
        "http://cdn.example.com/a/a.pngx",
        "http://cdn.example.com/a/noextension",
        "http://cdn.example.com/a/b.txt",
        "http://cdn.example.com/a/png",
    ] {
        let out = filter_media_links(vec![link(raw, "t")]);
        assert_eq!(out.len(), 0, "{raw} should be excluded");
    }
}

#[test]
fn is_media_file_is_exact_suffix_match() {
    let exts = media_extensions();
    assert!(is_media_file("/a/photo.png", &exts));
    assert!(is_media_file("/a/archive.tar.gif", &exts));
    assert!(!is_media_file("/a/photo.pngx", &exts));
    assert!(!is_media_file("/a/photopng", &exts));
    assert!(!is_media_file("png", &exts));
}

#[test]
fn extension_set_has_all_groups() {
    let exts = media_extensions();
    assert_eq!(exts.len(), 55);
    for e in ["mp3", "mp4", "obj", "png", "svg", "stl"] {
        assert!(exts.contains(&e), "{e} missing");
    }
    assert!(!exts.contains(&"txt"));
}

#[test]
fn distributions_count_hosts_and_extensions() {
    let links = filter_media_links(vec![
        link("http://a.example.com/x/1.png", "t"),
        link("http://a.example.com/x/2.png", "t"),
        link("http://b.example.com/x/3.gif", "t"),
    ]);
    let hosts = host_distribution(&links);
    let mut host_pairs: Vec<(String, usize)> = hosts.clone();
    host_pairs.sort();
    assert_eq!(
        host_pairs,
        vec![("a.example.com".to_string(), 2), ("b.example.com".to_string(), 1)]
    );
    let exts = extension_distribution(&links);
    let mut ext_pairs: Vec<(String, usize)> = exts.clone();
    ext_pairs.sort();
    assert_eq!(ext_pairs, vec![("gif".to_string(), 1), ("png".to_string(), 2)]);
}

#[test]
fn host_distribution_skips_hostless_links() {
    let mut links = vec![link("http://a.example.com/x/1.png", "t")];
    links.push(CandidateLink {
        url: NormalizedUrl {
            text: "data:text/plain,hi".to_string(),
            host: String::new(),
            domain: String::new(),
            path: "text/plain,hi".to_string(),
        },
        stamp: "t".to_string(),
        extension: None,
    });
    let hosts = host_distribution(&links);
    assert_eq!(hosts, vec![("a.example.com".to_string(), 1)]);
}

#[test]
fn sort_counts_orders_descending() {
    let counts = vec![
        ("one".to_string(), 1usize),
        ("three".to_string(), 3usize),
        ("two".to_string(), 2usize),
    ];
    let sorted = sort_counts_desc(counts);
    let just_counts: Vec<usize> = sorted.iter().map(|p| p.1).collect();
    assert_eq!(just_counts, vec![3, 2, 1]);
    assert_eq!(sorted[0].0, "three");
}

#[test]
fn tally_counts_each_key_once() {
    let keys = vec!["a".to_string(), "b".to_string(), "a".to_string()];
    let mut tally = tally_counts(keys);
    tally.sort();
    assert_eq!(tally, vec![("a".to_string(), 2), ("b".to_string(), 1)]);
}

#[test]
fn channel_type_table() {
    assert_eq!(get_channel_type(0), "GuildTextChat");
    assert_eq!(get_channel_type(1), "DirectTextChat");
    assert_eq!(get_channel_type(2), "GuildVoiceChat");
    assert_eq!(get_channel_type(3), "DirectGroupTextChat");
    assert_eq!(get_channel_type(4), "GuildCategory");
    assert_eq!(get_channel_type(5), "GuildNews");
    assert_eq!(get_channel_type(10), "GuildNewsThread");
    assert_eq!(get_channel_type(11), "GuildPublicThread");
    assert_eq!(get_channel_type(12), "GuildPrivateThread");
    assert_eq!(get_channel_type(13), "GuildStageVoice");
    assert_eq!(get_channel_type(14), "GuildDirectory");
    assert_eq!(get_channel_type(15), "GuildForum");
    assert_eq!(get_channel_type(6), "Unknown");
    assert_eq!(get_channel_type(999), "Unknown");
}

#[test]
fn normalized_url_parts_are_consistent() {
    let u: NormalizedUrl = normalize_url("http://cdn.example.com/a/b/c.png").expect("parses");
    assert_eq!(u.host, "cdn.example.com");
    assert_eq!(u.domain, "cdn.example.com");
    assert_eq!(u.path, "/a/b/c.png");
    assert!(u.text.contains("cdn.example.com"));
}

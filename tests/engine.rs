use wget::batch::{batch_urls, BatchSummary};
use wget::error::DownloadError;
use wget::filename::{
    candidate_path, choose_file_name, file_name_for, place_file, FetchMode,
};
use wget::links::extract_links;
use wget::mirror::{mirror_targets, FilterCriteria};
use wget::rate::{parse_rate_limit, rate_from_text, RateLimiter};
use wget::request::DownloadRequest;
use wget::text::{collapse_double_slashes, ends_with, join_path, split_last_segment, starts_with};

fn s(x: &str) -> String {
    x.to_string()
}

fn no_filters() -> FilterCriteria {
    FilterCriteria { reject_suffixes: None, exclude_path_prefixes: None }
}

/// Drives a limiter as a writer would, taking each chunk whole.
fn run_limiter(total: usize, rate: Option<u64>) -> (Vec<usize>, Vec<u64>) {
    let mut lim = RateLimiter::new(total, rate);
    let mut chunks = Vec::new();
    let mut pauses = Vec::new();
    while !lim.is_done() {
        let (a, b) = lim.next_chunk();
        chunks.push(b - a);
        pauses.push(lim.advance(b - a));
    }
    (chunks, pauses)
}

#[test]
fn rate_plain_number() {
    assert_eq!(parse_rate_limit("500"), Some(500));
}

#[test]
fn rate_kibibytes_and_mebibytes() {
    assert_eq!(parse_rate_limit("20k"), Some(20 * 1024));
    assert_eq!(parse_rate_limit("20K"), Some(20 * 1024));
    assert_eq!(parse_rate_limit(" 2M "), Some(2 * 1024 * 1024));
    assert_eq!(parse_rate_limit("3m"), Some(3 * 1024 * 1024));
}

#[test]
fn rate_unreadable_sets_no_limit() {
    assert_eq!(parse_rate_limit("fast"), None);
    assert_eq!(parse_rate_limit("10x"), None);
    assert_eq!(parse_rate_limit("k"), None);
    assert_eq!(parse_rate_limit(""), None);
    assert_eq!(parse_rate_limit("-5"), None);
    assert_eq!(parse_rate_limit("0"), None);
    assert_eq!(parse_rate_limit("4294967296"), None);
}

#[test]
fn rate_edge_values() {
    assert_eq!(parse_rate_limit("+7"), Some(7));
    assert_eq!(parse_rate_limit("4294967295"), Some(4294967295));
    assert_eq!(rate_from_text("4294967295m"), Some(4294967295u64 * 1024 * 1024));
}

#[test]
fn limiter_ten_thousand_bytes_at_two_thousand() {
    let (chunks, pauses) = run_limiter(10000, Some(2000));
    assert_eq!(chunks, vec![2000, 2000, 2000, 2000, 2000]);
    assert_eq!(pauses, vec![1_000_000_000, 1_000_000_000, 1_000_000_000, 1_000_000_000, 0]);
}

#[test]
fn limiter_unlimited_writes_once_without_pause() {
    let (chunks, pauses) = run_limiter(10000, None);
    assert_eq!(chunks, vec![10000]);
    assert_eq!(pauses, vec![0]);
}

#[test]
fn limiter_partial_last_chunk() {
    let (chunks, pauses) = run_limiter(2500, Some(1000));
    assert_eq!(chunks, vec![1000, 1000, 500]);
    assert_eq!(pauses, vec![1_000_000_000, 1_000_000_000, 0]);
}

#[test]
fn limiter_short_write_pauses_in_proportion() {
    let mut lim = RateLimiter::new(4000, Some(2000));
    assert_eq!(lim.next_chunk(), (0, 2000));
    assert_eq!(lim.advance(500), 250_000_000);
    assert_eq!(lim.progress(), (500, 4000));
    assert_eq!(lim.next_chunk(), (500, 2500));
}

#[test]
fn limiter_empty_body() {
    let lim = RateLimiter::new(0, Some(10));
    assert!(lim.is_done());
}

#[test]
fn name_from_last_segment() {
    assert_eq!(choose_file_name("http://example.test/files/a.zip", &None, &None, FetchMode::Single), Ok(s("a.zip")));
    assert_eq!(
        file_name_for("http://example.test/files/a.zip?x=1", &None, &None, FetchMode::Single),
        Ok(s("a.zip?x=1"))
    );
}

#[test]
fn name_for_directory_url_is_default() {
    assert_eq!(choose_file_name("http://example.test/dir/", &None, &None, FetchMode::Single), Ok(s("default")));
}

#[test]
fn name_explicit_wins() {
    let header = Some(s("attachment; filename=\"server.bin\""));
    assert_eq!(
        file_name_for("http://example.test/dir/", &Some(s("mine.txt")), &header, FetchMode::Single),
        Ok(s("mine.txt"))
    );
    assert_eq!(file_name_for("", &Some(s("mine.txt")), &None, FetchMode::Single), Ok(s("mine.txt")));
}

#[test]
fn name_from_content_disposition() {
    let header = Some(s("attachment; filename=\"report.pdf\""));
    assert_eq!(file_name_for("http://example.test/get", &None, &header, FetchMode::Single), Ok(s("report.pdf")));
}

#[test]
fn name_disposition_without_filename_falls_back() {
    let header = Some(s("inline"));
    assert_eq!(file_name_for("http://example.test/get", &None, &header, FetchMode::Single), Ok(s("get")));
}

#[test]
fn name_without_segment_fails() {
    assert_eq!(file_name_for("", &None, &None, FetchMode::Single), Err(DownloadError::PathResolution));
}

#[test]
fn name_of_url_without_slash_is_whole_url() {
    assert_eq!(choose_file_name("mailto:someone", &None, &None, FetchMode::Single), Ok(s("mailto:someone")));
    assert_eq!(file_name_for("report", &None, &None, FetchMode::Single), Ok(s("report")));
    assert_eq!(place_file("target", "report", true), s("target/report_file"));
}

#[test]
fn path_joins_directory_and_name() {
    assert_eq!(candidate_path("outdir", "a.html"), s("outdir/a.html"));
    assert_eq!(place_file("outdir", "a.html", false), s("outdir/a.html"));
}

#[test]
fn path_collision_with_directory_adds_suffix() {
    assert_eq!(place_file("target", "report", true), s("target/report_file"));
}

#[test]
fn mirror_name_of_directory_url() {
    let name = file_name_for("http://example.test/dir/", &None, &None, FetchMode::Mirror).unwrap();
    assert_eq!(name, s("index.html"));
    assert_eq!(place_file("out", &name, false), s("out/index.html"));
    assert_eq!(file_name_for("http://example.test/a.html", &None, &None, FetchMode::Mirror), Ok(s("a.html")));
}

#[test]
fn collapse_slashes_left_to_right() {
    assert_eq!(collapse_double_slashes("a//b///c"), s("a/b//c"));
    assert_eq!(collapse_double_slashes("//cdn.test/x.js"), s("/cdn.test/x.js"));
    assert_eq!(collapse_double_slashes(""), s(""));
}

#[test]
fn text_helpers() {
    assert!(ends_with("photo.jpg", ".jpg"));
    assert!(!ends_with("jpg", "photo.jpg"));
    assert!(starts_with("/private/x", "/private"));
    assert!(!starts_with("/pub", "/private"));
    assert_eq!(split_last_segment("a/b/c"), s("c"));
    assert_eq!(split_last_segment("abc"), s("abc"));
}

#[test]
fn links_resolved_against_origin() {
    let html = "<html><body><a href=\"/a.html\">a</a><img src=\"b.png\"></body></html>";
    let links = extract_links(html, "http://example.test/");
    assert_eq!(links, vec![s("http://example.test/a.html"), s("http://example.test/b.png")]);
}

#[test]
fn links_deduplicated_and_href_first() {
    let html = "<a href=\"/x\"></a><a href=\"/x\"></a><link href=\"/style.css\" src=\"/ignored\"><img src=\"/i.png\"><p href=\"/no\"></p>";
    let links = extract_links(html, "http://example.test/start");
    assert_eq!(
        links,
        vec![s("http://example.test/x"), s("http://example.test/style.css"), s("http://example.test/i.png")]
    );
}

#[test]
fn links_keep_base_origin() {
    let html = "<a href=\"http://other.test//deep//path\"></a>";
    let links = extract_links(html, "https://example.test/page");
    assert_eq!(links.len(), 1);
    assert!(links[0].starts_with("https://example.test/"));
}

#[test]
fn links_extraction_idempotent() {
    let html = "<a href=\"/a\"></a><img src=\"/b.png\"><a href=\"/a\"></a>";
    let first = extract_links(html, "http://example.test/");
    let second = extract_links(html, "http://example.test/");
    assert_eq!(first, second);
    assert_eq!(first.len(), 2);
}

#[test]
fn links_invalid_base_gives_none() {
    assert!(extract_links("<a href=\"/a\"></a>", "not a url").is_empty());
}

#[test]
fn filter_rejects_suffix_case_insensitive() {
    for suffix in ["jpg", "JPG"] {
        let c = FilterCriteria { reject_suffixes: Some(vec![s(suffix)]), exclude_path_prefixes: None };
        assert!(!c.keeps_url("http://example.test/pic.jpg"));
        assert!(!c.keeps_url("http://example.test/PIC.JPG"));
        assert!(c.keeps_url("http://example.test/page.html"));
    }
}

#[test]
fn filter_excludes_path_prefix() {
    let c = FilterCriteria { reject_suffixes: None, exclude_path_prefixes: Some(vec![s("/private")]) };
    assert!(!c.keeps_url("http://example.test/private/x"));
    assert!(!c.keeps_url("http://example.test/Private/y"));
    assert!(c.keeps_url("http://example.test/public/private"));
}

#[test]
fn filter_both_lists_apply() {
    let c = FilterCriteria {
        reject_suffixes: Some(vec![s(".png")]),
        exclude_path_prefixes: Some(vec![s("/tmp")]),
    };
    let links = vec![s("http://e.test/a.png"), s("http://e.test/tmp/b"), s("http://e.test/c.html")];
    assert_eq!(c.select_targets(&links), vec![s("http://e.test/c.html")]);
    assert_eq!(no_filters().select_targets(&links), links);
}

#[test]
fn mirror_seed_page_end_to_end() {
    let html = "<html><body><a href=\"/a.html\">A</a><img src=\"b.png\"></body></html>";
    let seed = "http://example.test/";
    let targets = mirror_targets(html, seed, &no_filters());
    assert_eq!(targets.len(), 2);
    let mut paths = Vec::new();
    for url in &targets {
        let name = file_name_for(url, &None, &None, FetchMode::Mirror).unwrap();
        paths.push(place_file("outdir", &name, false));
    }
    assert_eq!(paths, vec![s("outdir/a.html"), s("outdir/b.png")]);
}

#[test]
fn batch_lines() {
    assert_eq!(
        batch_urls("http://a.test/1\r\nhttp://a.test/2\nhttp://a.test/3\n"),
        vec![s("http://a.test/1"), s("http://a.test/2"), s("http://a.test/3")]
    );
    assert_eq!(batch_urls("x\n\ny"), vec![s("x"), s(""), s("y")]);
    assert!(batch_urls("").is_empty());
}

#[test]
fn batch_one_failure_leaves_others_counted() {
    let urls = batch_urls("http://a.test/1\nhttp://a.test/2\nhttp://a.test/3");
    assert_eq!(urls.len(), 3);
    let outcomes = vec![None, Some(DownloadError::Fetch), None];
    let summary = BatchSummary::of(&outcomes);
    assert_eq!(summary.succeeded, 2);
    assert_eq!(summary.failed, 1);
}

#[test]
fn request_checks_url_and_defaults() {
    assert!(matches!(DownloadRequest::new(s("not a url"), None, None, None), Err(DownloadError::Fetch)));
    let q = DownloadRequest::new(s("http://example.test/f.bin"), None, None, Some(s("2k"))).unwrap();
    assert_eq!(q.target_directory, s("."));
    assert_eq!(q.rate_limit, Some(2048));
    assert_eq!(q.file_name(&None), Ok(s("f.bin")));
    let lim = q.limiter(5000);
    assert_eq!(lim.next_chunk(), (0, 2048));
}

#[test]
fn request_unreadable_rate_is_unlimited() {
    let q = DownloadRequest::new(s("http://example.test/f.bin"), Some(s("x")), Some(s("d")), Some(s("lots"))).unwrap();
    assert_eq!(q.rate_limit, None);
    assert_eq!(q.target_directory, s("d"));
    assert_eq!(q.file_name(&Some(s("attachment; filename=\"y\""))), Ok(s("x")));
}

#[test]
fn join_handles_separators() {
    assert_eq!(join_path("d", "a"), s("d/a"));
    assert_eq!(join_path("d/", "a"), s("d/a"));
    assert_eq!(join_path("", "a"), s("a"));
    assert_eq!(join_path("d", "/abs"), s("/abs"));
    assert_eq!(join_path(".", "f.bin"), s("./f.bin"));
}

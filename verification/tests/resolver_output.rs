use rusty_cov::resolver::{
    classify_direct_output, direct_args, parse_covit_output, query_args, ResolveOutcome,
    ResolverPhase, ResolverSession, QUERY_COUNTRY, QUERY_SOURCES, REMOTE_AGENT,
};

#[test]
fn listening_only_with_empty_stderr_is_declined() {
    let r = classify_direct_output("Listening: 51243\n", "");
    assert!(matches!(r, ResolveOutcome::Declined));
}

#[test]
fn listening_only_with_noisy_stderr_is_not_declined() {
    let r = classify_direct_output("Listening: 51243\n", "boom");
    assert!(matches!(r, ResolveOutcome::NotFound));
}

#[test]
fn empty_output_is_declined() {
    // No lines at all: every line vacuously a listening notice.
    let r = classify_direct_output("", "   \n");
    assert!(matches!(r, ResolveOutcome::Declined));
}

#[test]
fn listening_line_needs_a_number() {
    // The declining shape is `Listening: <number>`, nothing looser.
    let r = classify_direct_output("Listening: soon\n", "");
    assert!(matches!(r, ResolveOutcome::NotFound));
    let r = classify_direct_output("Listening:\n", "");
    assert!(matches!(r, ResolveOutcome::NotFound));
    let r = classify_direct_output("Listening: \n", "");
    assert!(matches!(r, ResolveOutcome::NotFound));
}

#[test]
fn empty_cover_url_is_never_acted_upon() {
    // A record without a cover URL is equivalent to no cover found.
    let r = classify_direct_output("Picked: {}\n", "");
    assert!(matches!(r, ResolveOutcome::NotFound));
}

#[test]
fn empty_cover_url_triggers_fallback() {
    let mut s = ResolverSession::start();
    s.feed_direct("Picked: {\"bigCoverUrl\":\"\"}\n", "", "Artist - Title");
    assert_eq!(s.phase, ResolverPhase::AwaitingFallback);
    assert!(s.result.is_none());
    s.feed_fallback("Picked: {}\n");
    assert_eq!(s.phase, ResolverPhase::Finished);
    assert!(s.result.is_none());
}

#[test]
fn picked_line_yields_result_with_url() {
    let stdout = "Listening: 1\nPicked: {\"bigCoverUrl\":\"http://x/img.png\",\"releaseInfo\":{\"title\":\"T\",\"artist\":\"A\",\"date\":\"2001\",\"tracks\":12},\"coverInfo\":{\"format\":\"png\",\"width\":600,\"height\":500,\"size\":12345}}\n";
    let p = parse_covit_output(stdout).expect("a record was picked");
    assert_eq!(p.big_cover_url, "http://x/img.png");
    assert_eq!(p.release_info.title, "T");
    assert_eq!(p.release_info.artist, "A");
    assert_eq!(p.release_info.date, "2001");
    assert_eq!(p.release_info.tracks, Some(12));
    assert_eq!(p.cover_info.format, "png");
    assert_eq!(p.cover_info.width, 600);
    assert_eq!(p.cover_info.height, 500);
    assert_eq!(p.cover_info.size, 12345);
}

#[test]
fn picked_missing_fields_take_defaults() {
    let p = parse_covit_output("Picked: {}").expect("an empty record still parses");
    assert_eq!(p.big_cover_url, "");
    assert_eq!(p.release_info.title, "Unknown Title");
    assert_eq!(p.release_info.artist, "Unknown Artist");
    assert_eq!(p.release_info.date, "Unknown Date");
    assert_eq!(p.release_info.tracks, None);
    assert_eq!(p.cover_info.format, "Unknown Format");
    assert_eq!(p.cover_info.width, 0);
    assert_eq!(p.cover_info.height, 0);
    assert_eq!(p.cover_info.size, 0);
}

#[test]
fn first_parseable_picked_line_wins() {
    let stdout = "Picked: {\"bigCoverUrl\":\"http://first\"}\nPicked: {\"bigCoverUrl\":\"http://second\"}\n";
    let p = parse_covit_output(stdout).expect("first record");
    assert_eq!(p.big_cover_url, "http://first");
}

#[test]
fn unparseable_picked_line_is_skipped() {
    let stdout = "Picked: not json\nPicked: {\"bigCoverUrl\":\"http://ok\"}\n";
    let p = parse_covit_output(stdout).expect("second record parses");
    assert_eq!(p.big_cover_url, "http://ok");
}

#[test]
fn no_picked_line_yields_nothing() {
    assert!(parse_covit_output("Listening: 1\nsomething else\n").is_none());
}

#[test]
fn declined_session_is_never_retried() {
    let mut s = ResolverSession::start();
    s.feed_direct("Listening: 51243\n", "", "Artist - Title");
    assert_eq!(s.phase, ResolverPhase::Finished);
    assert!(s.result.is_none());
    assert!(s.fallback_title.is_none());
}

#[test]
fn not_found_triggers_filename_fallback() {
    let mut s = ResolverSession::start();
    s.feed_direct("garbage\n", "", "Artist - Title");
    assert_eq!(s.phase, ResolverPhase::AwaitingFallback);
    assert_eq!(s.fallback_title, Some("Title".to_string()));
    assert_eq!(s.fallback_artist, Some("Artist".to_string()));
    s.feed_fallback("Picked: {\"bigCoverUrl\":\"http://y\"}\n");
    assert_eq!(s.phase, ResolverPhase::Finished);
    assert_eq!(s.result.expect("fallback found one").big_cover_url, "http://y");
}

#[test]
fn not_found_without_title_finishes_empty() {
    let mut s = ResolverSession::start();
    s.feed_direct("garbage\n", "", "   ");
    assert_eq!(s.phase, ResolverPhase::Finished);
    assert!(s.result.is_none());
}

#[test]
fn fallback_without_answer_finishes_empty() {
    let mut s = ResolverSession::start();
    s.feed_direct("garbage\n", "", "OnlyTitle");
    assert_eq!(s.phase, ResolverPhase::AwaitingFallback);
    assert_eq!(s.fallback_title, Some("OnlyTitle".to_string()));
    assert_eq!(s.fallback_artist, None);
    s.feed_fallback("Listening: 2\n");
    assert_eq!(s.phase, ResolverPhase::Finished);
    assert!(s.result.is_none());
}

#[test]
fn direct_found_session_finishes_with_result() {
    let mut s = ResolverSession::start();
    s.feed_direct("Picked: {\"bigCoverUrl\":\"http://z\"}\n", "", "ignored");
    assert_eq!(s.phase, ResolverPhase::Finished);
    assert_eq!(s.result.expect("found").big_cover_url, "http://z");
}

#[test]
fn direct_args_layout() {
    let args = direct_args("http://site", "/music/song.mp3");
    assert_eq!(
        args,
        vec![
            "--address",
            "http://site",
            "--input",
            "/music/song.mp3",
            "--remote-agent",
            REMOTE_AGENT,
            "--query-sources",
            QUERY_SOURCES,
            "--query-country",
            QUERY_COUNTRY,
        ]
    );
}

#[test]
fn query_args_with_artist() {
    let args = query_args("http://site", "Title", Some("Artist"));
    assert_eq!(
        args,
        vec![
            "--address",
            "http://site",
            "--query-album",
            "Title",
            "--query-artist",
            "Artist",
            "--remote-agent",
            REMOTE_AGENT,
            "--query-sources",
            QUERY_SOURCES,
            "--query-country",
            QUERY_COUNTRY,
        ]
    );
}

#[test]
fn query_args_empty_artist_left_out() {
    let args = query_args("http://site", "Title", Some(""));
    assert_eq!(args.len(), 10);
    assert!(!args.contains(&"--query-artist"));
}

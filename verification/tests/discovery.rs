use rusty_cov::deps::DependencyPaths;
use rusty_cov::orchestrate::{art_file_name, select_mode, summary_count, RunMode};
use rusty_cov::structs::{add_file_to_map, sort_groups, DirGroup, FileFormat, RustyCov};

#[test]
fn classification_by_extension() {
    assert_eq!(FileFormat::from_path("a/song.mp3"), FileFormat::Mp3);
    assert_eq!(FileFormat::from_path("a/song.m4a"), FileFormat::M4a);
    assert_eq!(FileFormat::from_path("a/song.flac"), FileFormat::Flac);
    assert_eq!(FileFormat::from_path("a/song.aac"), FileFormat::Aac);
    assert_eq!(FileFormat::from_path("a/song.opus"), FileFormat::Opus);
    assert_eq!(FileFormat::from_path("a/song.ogg"), FileFormat::Ogg);
    assert_eq!(FileFormat::from_path("a/song.wma"), FileFormat::Wma);
    assert_eq!(FileFormat::from_path("a/song.wav"), FileFormat::Wav);
    assert_eq!(FileFormat::from_path("a/song.aiff"), FileFormat::Aiff);
    assert_eq!(FileFormat::from_path("a/song.alac"), FileFormat::Alac);
    assert_eq!(FileFormat::from_path("a/song.ape"), FileFormat::Ape);
    assert_eq!(FileFormat::from_path("a/video.flv"), FileFormat::Flv);
    assert_eq!(FileFormat::from_path("a/video.webm"), FileFormat::Webm);
}

#[test]
fn classification_is_case_insensitive() {
    assert_eq!(FileFormat::from_path("a/SONG.MP3"), FileFormat::Mp3);
    assert_eq!(FileFormat::from_path("a/Song.FlAc"), FileFormat::Flac);
}

#[test]
fn classification_unknown() {
    assert_eq!(FileFormat::from_path("a/readme.txt"), FileFormat::Unknown);
    assert_eq!(FileFormat::from_path("a/noextension"), FileFormat::Unknown);
    assert_eq!(FileFormat::from_path("a/.hidden"), FileFormat::Unknown);
    assert_eq!(FileFormat::from_path("a/trailingdot."), FileFormat::Unknown);
    assert!(!FileFormat::from_path("a/readme.txt").is_known());
    assert!(FileFormat::from_path("a/b.ogg").is_known());
}

#[test]
fn grouping_keeps_only_known_formats() {
    let mut groups: Vec<DirGroup> = Vec::new();
    add_file_to_map(&mut groups, "album/2 - b.mp3");
    add_file_to_map(&mut groups, "album/1 - a.flac");
    add_file_to_map(&mut groups, "album/notes.txt");
    add_file_to_map(&mut groups, "other/3 - c.ogg");
    assert_eq!(groups.len(), 2);
    assert_eq!(groups[0].dir, "album");
    assert_eq!(groups[0].files.len(), 2);
    assert_eq!(groups[1].dir, "other");
    assert_eq!(groups[1].files, vec!["other/3 - c.ogg".to_string()]);
}

#[test]
fn grouping_bare_file_gets_empty_parent() {
    let mut groups: Vec<DirGroup> = Vec::new();
    add_file_to_map(&mut groups, "solo.mp3");
    assert_eq!(groups.len(), 1);
    assert_eq!(groups[0].dir, "");
}

#[test]
fn end_to_end_discovery_and_summary() {
    // A directory of three classified files and one unsupported file
    // yields one group of exactly three, and a summary of three finished
    // jobs when every resolver call succeeds.
    let mut groups: Vec<DirGroup> = Vec::new();
    add_file_to_map(&mut groups, "album/10 - z.mp3");
    add_file_to_map(&mut groups, "album/2 - y.flac");
    add_file_to_map(&mut groups, "album/1 - x.m4a");
    add_file_to_map(&mut groups, "album/cover-notes.txt");
    assert_eq!(groups.len(), 1);
    assert_eq!(groups[0].files.len(), 3);
    sort_groups(&mut groups);
    assert_eq!(
        groups[0].files,
        vec![
            "album/1 - x.m4a".to_string(),
            "album/2 - y.flac".to_string(),
            "album/10 - z.mp3".to_string(),
        ]
    );
    let results = vec![true, true, true];
    assert_eq!(summary_count(&results), 3);
}

#[test]
fn summary_counts_only_finished_jobs() {
    assert_eq!(summary_count(&vec![true, false, true, false]), 2);
    assert_eq!(summary_count(&Vec::new()), 0);
}

#[test]
fn mode_selection() {
    assert_eq!(select_mode(&Some("cover".to_string())), RunMode::AlbumFolder);
    assert_eq!(select_mode(&None), RunMode::PerFile);
}

#[test]
fn art_file_names() {
    assert_eq!(art_file_name("cover", "jpg"), "cover.jpg");
    assert_eq!(art_file_name("cover", "png"), "cover.png");
}

#[test]
fn fresh_state_defaults() {
    let s = RustyCov::new();
    assert!(s.files.is_none());
    assert!(s.deps.is_none());
    assert_eq!(s.cov_address, Some("https://covers.musichoarders.xyz".to_string()));
}

#[test]
fn empty_discovery_leaves_state_untouched() {
    let mut s = RustyCov::new();
    s.store_discovered(Vec::new());
    assert!(s.files.is_none());
    let mut groups: Vec<DirGroup> = Vec::new();
    add_file_to_map(&mut groups, "album/1.mp3");
    s.store_discovered(groups);
    let stored = s.files.expect("one group was stored");
    assert_eq!(stored.len(), 1);
    assert_eq!(stored[0].files, vec!["album/1.mp3".to_string()]);
}

#[test]
fn dependency_paths_accessors() {
    let d = DependencyPaths {
        ffmpeg: "/bin/ffmpeg".to_string(),
        ffprobe: "/bin/ffprobe".to_string(),
        covit: "/bin/covit".to_string(),
    };
    assert_eq!(d.ffmpeg(), "/bin/ffmpeg");
    assert_eq!(d.ffprobe(), "/bin/ffprobe");
    assert_eq!(d.covit(), "/bin/covit");
}

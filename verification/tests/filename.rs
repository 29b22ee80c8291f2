use rusty_cov::resolver::parse_file_name;

#[test]
fn fallback_parse_dash() {
    let (artist, title) = parse_file_name("Artist - Title");
    assert_eq!(artist, Some("Artist".to_string()));
    assert_eq!(title, Some("Title".to_string()));
}

#[test]
fn fallback_parse_no_delimiter() {
    let (artist, title) = parse_file_name("JustATitle");
    assert_eq!(artist, None);
    assert_eq!(title, Some("JustATitle".to_string()));
}

#[test]
fn fallback_parse_en_dash() {
    let (artist, title) = parse_file_name("Some One \u{2013} A Song");
    assert_eq!(artist, Some("Some One".to_string()));
    assert_eq!(title, Some("A Song".to_string()));
}

#[test]
fn fallback_parse_em_dash() {
    let (artist, title) = parse_file_name("Band \u{2014} Tune");
    assert_eq!(artist, Some("Band".to_string()));
    assert_eq!(title, Some("Tune".to_string()));
}

#[test]
fn fallback_parse_underscore() {
    let (artist, title) = parse_file_name("Band _ Tune");
    assert_eq!(artist, Some("Band".to_string()));
    assert_eq!(title, Some("Tune".to_string()));
}

#[test]
fn fallback_parse_colon() {
    let (artist, title) = parse_file_name("Band: Tune");
    assert_eq!(artist, Some("Band".to_string()));
    assert_eq!(title, Some("Tune".to_string()));
}

#[test]
fn fallback_parse_pipe() {
    let (artist, title) = parse_file_name("Band | Tune");
    assert_eq!(artist, Some("Band".to_string()));
    assert_eq!(title, Some("Tune".to_string()));
}

#[test]
fn fallback_parse_delimiter_order_over_position() {
    // The dash delimiter is tried before the colon even though the colon
    // comes earlier in the name.
    let (artist, title) = parse_file_name("a: b - c");
    assert_eq!(artist, Some("a: b".to_string()));
    assert_eq!(title, Some("c".to_string()));
}

#[test]
fn fallback_parse_trims_both_sides() {
    let (artist, title) = parse_file_name("  Spacey   -   Tune  ");
    assert_eq!(artist, Some("Spacey".to_string()));
    assert_eq!(title, Some("Tune".to_string()));
}

#[test]
fn fallback_parse_whole_name_trimmed() {
    let (artist, title) = parse_file_name("   OnlyTitle   ");
    assert_eq!(artist, None);
    assert_eq!(title, Some("OnlyTitle".to_string()));
}

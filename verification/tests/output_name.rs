use jianpu::output_name::output_stem_name;

#[test]
fn output_name_without_tracks_is_the_stem() {
    assert_eq!(output_stem_name("hymn", &vec![]), "hymn");
}

#[test]
fn output_name_with_one_track() {
    assert_eq!(output_stem_name("hymn", &vec!["S".to_string()]), "hymn - S");
}

#[test]
fn output_name_joins_tracks_with_ampersand() {
    let tracks = vec!["S".to_string(), "A".to_string(), "T".to_string()];
    assert_eq!(output_stem_name("hymn", &tracks), "hymn - S&A&T");
}

use series_renamer::{
    file_name_of, format_target_name, keep_flagged, parse_u32, plan_name, sanitize_title,
    Episode, LocalFile,
};

fn episode(title: &str, label: &str) -> Episode {
    Episode::new(title, label, "tt0000001")
}

#[test]
fn name_for_numeric_label_is_padded() {
    let name = plan_name(
        &episode("The Beginning: Part One!", "3"),
        &LocalFile::new("/shows/x/file.mkv"),
        1,
    );
    assert_eq!(name.as_deref(), Some("S01E03 - The Beginning Part One.mkv"));
}

#[test]
fn name_for_non_numeric_label_keeps_label() {
    let name = plan_name(&episode("Special", "A"), &LocalFile::new("clip.mp4"), 2);
    assert_eq!(name.as_deref(), Some("S02EA - Special.mp4"));
}

#[test]
fn name_without_extension_is_refused() {
    assert_eq!(plan_name(&episode("Pilot", "1"), &LocalFile::new("/tv/pilot"), 1), None);
    assert_eq!(plan_name(&episode("Pilot", "1"), &LocalFile::new("/tv/.hidden"), 1), None);
    assert_eq!(plan_name(&episode("Pilot", "1"), &LocalFile::new("/tv.d/pilot"), 1), None);
}

#[test]
fn extension_is_taken_after_the_last_dot() {
    let name = plan_name(&episode("Pilot", "1"), &LocalFile::new("/tv/a.b.720p.mkv"), 1);
    assert_eq!(name.as_deref(), Some("S01E01 - Pilot.mkv"));
    assert_eq!(LocalFile::new("/tv/a.tar.gz").extension().as_deref(), Some("gz"));
    assert_eq!(LocalFile::new("/tv/a.").extension().as_deref(), Some(""));
}

#[test]
fn wide_numbers_are_not_truncated() {
    assert_eq!(format_target_name(12, "123", "Long Run", "avi"), "S12E123 - Long Run.avi");
    assert_eq!(format_target_name(0, "0", "Zero", "mkv"), "S00E00 - Zero.mkv");
    assert_eq!(format_target_name(7, "+7", "Plus", "mkv"), "S07E07 - Plus.mkv");
    assert_eq!(format_target_name(7, "007", "Lead", "mkv"), "S07E07 - Lead.mkv");
}

#[test]
fn title_is_passed_through_as_given() {
    assert_eq!(format_target_name(1, "2", "a:b", "mkv"), "S01E02 - a:b.mkv");
}

#[test]
fn empty_title_after_sanitizing() {
    assert_eq!(sanitize_title("!!!"), "");
    let name = plan_name(&episode("?!", "4"), &LocalFile::new("x.mkv"), 3);
    assert_eq!(name.as_deref(), Some("S03E04 - .mkv"));
}

#[test]
fn sanitize_keeps_letters_digits_and_space() {
    assert_eq!(sanitize_title("Ünïcode: 2/3 — ok"), "Ünïcode 23  ok");
    assert_eq!(sanitize_title("tab\there"), "tab\there");
}

#[test]
fn parse_follows_standard_notation() {
    assert_eq!(parse_u32("0"), Some(0));
    assert_eq!(parse_u32("42"), Some(42));
    assert_eq!(parse_u32("+42"), Some(42));
    assert_eq!(parse_u32("4294967295"), Some(u32::MAX));
    assert_eq!(parse_u32("4294967296"), None);
    assert_eq!(parse_u32("99999999999"), None);
    assert_eq!(parse_u32(""), None);
    assert_eq!(parse_u32("+"), None);
    assert_eq!(parse_u32("-1"), None);
    assert_eq!(parse_u32(" 1"), None);
    assert_eq!(parse_u32("1a"), None);
    for s in ["0", "7", "+13", "0042", "4294967295", "4294967296", "x", "", "٣"] {
        assert_eq!(parse_u32(s), s.parse::<u32>().ok(), "input {s:?}");
    }
}

#[test]
fn file_name_and_sibling() {
    let f = LocalFile::new("/media/show/ep1.mkv");
    assert_eq!(f.file_name(), "ep1.mkv");
    assert_eq!(f.sibling("new.mkv"), "/media/show/new.mkv");
    let g = LocalFile::new("ep1.mkv");
    assert_eq!(g.file_name(), "ep1.mkv");
    assert_eq!(g.sibling("new.mkv"), "new.mkv");
}

#[test]
fn flagged_characters_are_kept_in_order() {
    assert_eq!(keep_flagged("a:b!", &vec![true, false, true, false]), "ab");
    assert_eq!(keep_flagged("abc", &vec![false, true]), "b");
    assert_eq!(keep_flagged("", &vec![true]), "");
}

#[test]
fn paths_split_on_slash_only() {
    assert_eq!(file_name_of("/d/S01E01 - Pilot.mkv"), "S01E01 - Pilot.mkv");
    assert_eq!(file_name_of("plain.mkv"), "plain.mkv");
    assert_eq!(file_name_of("/d/"), "");
    let f = LocalFile::new("/d/odd\\name.mkv");
    assert_eq!(f.file_name(), "odd\\name.mkv");
    assert_eq!(f.sibling("x.mkv"), "/d/x.mkv");
}

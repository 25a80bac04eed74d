use std::io::Write;

use stellaris_hunter_scan::clausewitz::ParseError;
use stellaris_hunter_scan::save::{parse_save_bytes, read_entry_text, SaveError};
use zip::write::SimpleFileOptions;
use zip::{CompressionMethod, ZipWriter};

const META: &str = r#"version="Cetus v4.3.7"
name="Synthetic Run"
date="2532.01.26"
required_dlcs={ "dlc_alpha" "dlc_beta" }
ironman=yes
"#;

const GAMESTATE: &str = r#"version="Cetus v4.3.7"
date="2532.01.26"
cheated_on_save=yes
player={ { name="unknown" country=42 } }
country={
    42={
        government={
            type="gov_cyber_democracy_individualist"
            authority="auth_democratic"
            origin="origin_default"
            civics={ "civic_beacon_of_liberty" "civic_meritocracy" }
        }
        ethos={ ethic="ethic_fanatic_egalitarian" ethic="ethic_xenophile" }
        founder_species_ref=99
    }
}
species_db={
    99={ class="HUM" portrait="human" traits={ trait="trait_adaptive" trait="trait_nomadic" } }
}
"#;

fn archive(entries: &[(&str, &[u8])]) -> Vec<u8> {
    let mut zip = ZipWriter::new(std::io::Cursor::new(Vec::new()));
    let options = SimpleFileOptions::default().compression_method(CompressionMethod::Deflated);
    for (name, bytes) in entries {
        zip.start_file(*name, options).unwrap();
        zip.write_all(bytes).unwrap();
    }
    zip.finish().unwrap().into_inner()
}

#[test]
fn parses_synthetic_save_zip() {
    let bytes = archive(&[("meta", META.as_bytes()), ("gamestate", GAMESTATE.as_bytes())]);
    let summary = parse_save_bytes(&bytes).expect("save should parse");

    assert_eq!(summary.version.as_deref(), Some("Cetus v4.3.7"));
    assert_eq!(summary.date.as_deref(), Some("2532.01.26"));
    assert_eq!(summary.name.as_deref(), Some("Synthetic Run"));
    assert_eq!(summary.required_dlcs, vec!["dlc_alpha", "dlc_beta"]);
    assert_eq!(summary.ironman, Some(true));
    assert_eq!(summary.cheated_on_save, Some(true));
    assert_eq!(summary.player_country.as_deref(), Some("42"));
    assert_eq!(summary.authority.as_deref(), Some("auth_democratic"));
    assert_eq!(
        summary.government_type.as_deref(),
        Some("gov_cyber_democracy_individualist")
    );
    assert_eq!(summary.origin.as_deref(), Some("origin_default"));
    assert_eq!(summary.ethics, vec!["ethic_fanatic_egalitarian", "ethic_xenophile"]);
    assert_eq!(summary.civics, vec!["civic_beacon_of_liberty", "civic_meritocracy"]);
    assert_eq!(summary.founder_species_ref.as_deref(), Some("99"));
    assert_eq!(summary.founder_species_class.as_deref(), Some("HUM"));
    assert_eq!(summary.founder_species_portrait.as_deref(), Some("human"));
    assert_eq!(summary.founder_species_traits, vec!["trait_adaptive", "trait_nomadic"]);
    assert!(summary.discovery.is_some());
    assert!(summary.progression.is_some());
    assert!(summary.actions.is_some());
}

#[test]
fn save_without_player_country_has_no_empire_facts() {
    let bytes = archive(&[("meta", META.as_bytes()), ("gamestate", b"date=\"2200.01.01\"\n")]);
    let summary = parse_save_bytes(&bytes).expect("save should parse");
    assert_eq!(summary.player_country, None);
    assert_eq!(summary.authority, None);
    assert!(summary.ethics.is_empty());
    assert!(summary.discovery.is_none());
    assert!(summary.progression.is_none());
    assert!(summary.actions.is_none());
    assert_eq!(summary.cheated_on_save, None);
}

#[test]
fn save_that_is_not_an_archive_is_a_zip_error() {
    match parse_save_bytes(b"definitely not a zip archive") {
        Err(SaveError::Zip(message)) => assert!(!message.is_empty()),
        other => panic!("unexpected result: {other:?}"),
    }
}

#[test]
fn save_without_gamestate_is_a_zip_error() {
    let bytes = archive(&[("meta", META.as_bytes())]);
    assert!(matches!(parse_save_bytes(&bytes), Err(SaveError::Zip(_))));
}

#[test]
fn save_with_binary_meta_is_not_utf8() {
    let bytes = archive(&[("meta", &[0xff, 0xfe, 0x00]), ("gamestate", GAMESTATE.as_bytes())]);
    match parse_save_bytes(&bytes) {
        Err(SaveError::NotUtf8 { name }) => assert_eq!(name, "meta"),
        other => panic!("unexpected result: {other:?}"),
    }
}

#[test]
fn save_with_broken_gamestate_is_a_parse_error() {
    let bytes = archive(&[("meta", META.as_bytes()), ("gamestate", b"country = { 1 = { a = b }")]);
    match parse_save_bytes(&bytes) {
        Err(SaveError::Parse(e)) => assert_eq!(e, ParseError::MissingClosingBrace),
        other => panic!("unexpected result: {other:?}"),
    }
    let bytes = archive(&[("meta", b"a = b }"), ("gamestate", GAMESTATE.as_bytes())]);
    match parse_save_bytes(&bytes) {
        Err(SaveError::Parse(e)) => assert_eq!(e, ParseError::UnexpectedClosingBrace),
        other => panic!("unexpected result: {other:?}"),
    }
}

#[test]
fn entry_above_its_limit_is_refused() {
    let bytes = archive(&[("meta", META.as_bytes())]);
    match read_entry_text(&bytes, "meta", 3) {
        Err(SaveError::EntryTooLarge { name, size, limit }) => {
            assert_eq!(name, "meta");
            assert_eq!(size, META.len() as u64);
            assert_eq!(limit, 3);
        }
        other => panic!("unexpected result: {other:?}"),
    }
    let text = read_entry_text(&bytes, "meta", META.len() as u64).expect("fits exactly");
    assert_eq!(text, META);
}

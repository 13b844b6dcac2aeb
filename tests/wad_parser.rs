use doom_launcher::dehacked::parse_dehacked;
use doom_launcher::extract::{extract_level_names, find_lump};
use doom_launcher::mapinfo::{parse_mapinfo, parse_umapinfo};
use doom_launcher::names::LevelNames;
use doom_launcher::wad::{open_and_index, WadError};

/// Builds an archive: header, then the lumps' bytes, then the directory.
fn build_wad(sig: &[u8; 4], lumps: &[(&[u8], &[u8])]) -> Vec<u8> {
    let mut data: Vec<u8> = Vec::new();
    let mut dir: Vec<u8> = Vec::new();
    let mut offset = 12u32;
    for (name, content) in lumps {
        data.extend_from_slice(content);
        dir.extend_from_slice(&offset.to_le_bytes());
        dir.extend_from_slice(&(content.len() as u32).to_le_bytes());
        let mut n = [0u8; 8];
        n[..name.len()].copy_from_slice(name);
        dir.extend_from_slice(&n);
        offset += content.len() as u32;
    }
    let mut out = Vec::new();
    out.extend_from_slice(sig);
    out.extend_from_slice(&(lumps.len() as u32).to_le_bytes());
    out.extend_from_slice(&offset.to_le_bytes());
    out.extend_from_slice(&data);
    out.extend_from_slice(&dir);
    out
}

fn name_of(names: &LevelNames, level: &str) -> Option<String> {
    names.get(level).cloned()
}

#[test]
fn test_parse_mapinfo_simple() {
    let content = r#"
map MAP01 "Entryway"
map MAP02 "Underhalls"
map E1M1 "Hangar"
"#;
    let mut names = LevelNames::new();
    parse_mapinfo(content, &mut names);

    assert_eq!(names.get("MAP01"), Some(&"Entryway".to_string()));
    assert_eq!(names.get("MAP02"), Some(&"Underhalls".to_string()));
    assert_eq!(names.get("E1M1"), Some(&"Hangar".to_string()));
}

#[test]
fn test_parse_mapinfo_block() {
    let content = r#"
map MAP01 {
    levelname = "Test Level"
    music = "D_RUNNIN"
}
"#;
    let mut names = LevelNames::new();
    parse_mapinfo(content, &mut names);

    assert_eq!(names.get("MAP01"), Some(&"Test Level".to_string()));
}

#[test]
fn block_ignores_other_keys() {
    let content = "map MAP01 { levelname = \"Test Level\" music = \"D_RUNNIN\" }";
    let mut names = LevelNames::new();
    parse_mapinfo(content, &mut names);
    assert_eq!(names.len(), 1);
    assert_eq!(name_of(&names, "MAP01"), Some("Test Level".to_string()));
}

#[test]
fn inline_is_case_insensitive_and_upper_cases_level() {
    let mut names = LevelNames::new();
    parse_mapinfo("  MAP map07 \"Refueling Base\"\n\tMap e2m3 \"Pandemonium\"", &mut names);
    assert_eq!(name_of(&names, "MAP07"), Some("Refueling Base".to_string()));
    assert_eq!(name_of(&names, "E2M3"), Some("Pandemonium".to_string()));
    assert_eq!(names.get("map07"), None);
}

#[test]
fn inline_needs_whitespace_and_a_name() {
    let mut names = LevelNames::new();
    parse_mapinfo("mapMAP01 \"A\"\nmap MAP02\"B\"\nmap MAP03 \"\"\nmap MAPX \"C\"\nmap MAP04 \"open", &mut names);
    assert_eq!(names.len(), 0);
}

#[test]
fn inline_skips_references() {
    let mut names = LevelNames::new();
    parse_mapinfo("map MAP01 \"HUSTR_1\"\nmap MAP02 \"$HUSTR_2\"\nmap MAP03 \"Hustr ok\"", &mut names);
    assert_eq!(names.get("MAP01"), None);
    assert_eq!(names.get("MAP02"), None);
    assert_eq!(name_of(&names, "MAP03"), Some("Hustr ok".to_string()));
}

#[test]
fn inline_reference_left_for_block_form() {
    let mut names = LevelNames::new();
    parse_mapinfo("map MAP01 \"$LEVEL1\" { levelname = \"Not A Block\" }", &mut names);
    assert_eq!(names.get("MAP01"), None);
    parse_mapinfo("map MAP01 \"$LEVEL1\"\nmap MAP01 { levelname = \"Real Name\" }", &mut names);
    assert_eq!(name_of(&names, "MAP01"), Some("Real Name".to_string()));
}

#[test]
fn first_inline_name_wins() {
    let mut names = LevelNames::new();
    parse_mapinfo("map MAP01 \"First\"\nmap MAP01 \"Second\"", &mut names);
    assert_eq!(name_of(&names, "MAP01"), Some("First".to_string()));
    assert_eq!(names.len(), 1);
}

#[test]
fn block_takes_first_levelname_and_rejects_dollar() {
    let mut names = LevelNames::new();
    parse_mapinfo(
        "map MAP01 { LevelName=\"One\" levelname = \"Two\" }\nmap MAP02 { levelname = \"$Two\" }\nmap E1M2 {}",
        &mut names,
    );
    assert_eq!(name_of(&names, "MAP01"), Some("One".to_string()));
    assert_eq!(names.get("MAP02"), None);
    assert_eq!(names.get("E1M2"), None);
}

#[test]
fn umapinfo_rejects_dollar_names() {
    let mut names = LevelNames::new();
    parse_umapinfo(
        "MAP MAP05 {\n levelname = \"$Five\"\n}\nmap e1m9{levelname=\"Secret\"}\nmap MAP06 { levelname = \"HUSTR_6\" }",
        &mut names,
    );
    assert_eq!(names.get("MAP05"), None);
    assert_eq!(name_of(&names, "E1M9"), Some("Secret".to_string()));
    assert_eq!(name_of(&names, "MAP06"), Some("HUSTR_6".to_string()));
    let mut hustr = LevelNames::new();
    parse_umapinfo("MAP MAP01 { levelname = \"$HUSTR_1\" }\n", &mut hustr);
    assert_eq!(hustr.len(), 0);
}

#[test]
fn block_without_closing_brace_gives_nothing() {
    let mut names = LevelNames::new();
    parse_umapinfo("map MAP01 { levelname = \"Lost\"", &mut names);
    assert_eq!(names.len(), 0);
}

#[test]
fn dehacked_inside_strings_section() {
    let mut names = LevelNames::new();
    parse_dehacked("[STRINGS]\nHUSTR_1 = Entryway\n", &mut names);
    assert_eq!(name_of(&names, "MAP01"), Some("Entryway".to_string()));
}

#[test]
fn dehacked_outside_strings_section() {
    let mut names = LevelNames::new();
    parse_dehacked("[STRINGS]\n[MISC]\nHUSTR_1 = Entryway\n", &mut names);
    assert_eq!(names.get("MAP01"), None);
    let mut before = LevelNames::new();
    parse_dehacked("HUSTR_1 = Entryway\n[STRINGS]\n", &mut before);
    assert_eq!(before.len(), 0);
}

#[test]
fn dehacked_numbers_and_episodes() {
    let mut names = LevelNames::new();
    parse_dehacked(
        "  [strings]  \r\n  hustr_32=  Last Call  \r\nHUSTR_33 = Too Far\nHUSTR_0 = Zero\nHUSTR_E1M1 = Hangar\nhustr_e4m2 = Perfect Hatred\nHUSTR_7 =\n",
        &mut names,
    );
    assert_eq!(name_of(&names, "MAP32"), Some("Last Call".to_string()));
    assert_eq!(name_of(&names, "E1M1"), Some("Hangar".to_string()));
    assert_eq!(name_of(&names, "E4M2"), Some("Perfect Hatred".to_string()));
    assert_eq!(names.get("MAP33"), None);
    assert_eq!(names.get("MAP00"), None);
    assert_eq!(names.get("MAP07"), None);
    assert_eq!(names.len(), 3);
}

#[test]
fn dehacked_pads_map_numbers() {
    let mut names = LevelNames::new();
    parse_dehacked("[STRINGS]\nHUSTR_007 = The Crusher\n", &mut names);
    assert_eq!(name_of(&names, "MAP07"), Some("The Crusher".to_string()));
}

#[test]
fn truncated_header() {
    assert_eq!(open_and_index(b"IWAD\x00\x00").unwrap_err(), WadError::TruncatedHeader);
    assert_eq!(extract_level_names(b"").err(), Some(WadError::TruncatedHeader));
}

#[test]
fn invalid_signature_rejected_before_directory() {
    let mut wad = build_wad(b"XWAD", &[]);
    assert_eq!(open_and_index(&wad).unwrap_err(), WadError::InvalidSignature);
    // A directory that could not be read does not change the answer.
    wad[4] = 0xff;
    wad[8] = 0xff;
    assert_eq!(open_and_index(&wad).unwrap_err(), WadError::InvalidSignature);
    assert_eq!(open_and_index(b"iwad\x00\x00\x00\x00\x0c\x00\x00\x00").unwrap_err(), WadError::InvalidSignature);
}

#[test]
fn truncated_directory() {
    let mut wad = build_wad(b"PWAD", &[(b"MAPINFO", b"x")]);
    assert!(open_and_index(&wad).is_ok());
    wad[4] = 2;
    assert_eq!(open_and_index(&wad).unwrap_err(), WadError::TruncatedDirectory);
    let far = b"IWAD\x01\x00\x00\x00\xff\x00\x00\x00";
    assert_eq!(open_and_index(far).unwrap_err(), WadError::TruncatedDirectory);
    let empty_far = b"IWAD\x00\x00\x00\x00\xff\x00\x00\x00";
    assert!(open_and_index(empty_far).is_ok());
}

#[test]
fn directory_names_are_trimmed_and_upper_cased() {
    let wad = build_wad(b"IWAD", &[(b"zmapinfo", b"a"), (b"E1M1", b""), (b"umapinfo", b"b")]);
    let ix = open_and_index(&wad).unwrap();
    assert_eq!(ix.signature, b"IWAD".to_vec());
    assert_eq!(ix.lumps.len(), 3);
    assert_eq!(ix.lumps[0].name, b"ZMAPINFO".to_vec());
    assert_eq!(ix.lumps[1].name, b"E1M1".to_vec());
    assert_eq!(ix.lumps[0].offset, 12);
    assert_eq!(ix.lumps[0].size, 1);
    assert_eq!(ix.lumps[2].offset, 13);
    assert_eq!(find_lump(&wad, &ix, b"UMAPINFO"), Some(2));
    assert_eq!(find_lump(&wad, &ix, b"MAPINFO"), None);
}

#[test]
fn extract_inline_declarations() {
    let wad = build_wad(
        b"PWAD",
        &[(b"MAPINFO", b"map MAP01 \"Entryway\"\nmap MAP02 \"Underhalls\"\nmap E1M1 \"Hangar\"\n")],
    );
    let names = extract_level_names(&wad).unwrap();
    assert_eq!(names.len(), 3);
    assert_eq!(name_of(&names, "MAP01"), Some("Entryway".to_string()));
    assert_eq!(name_of(&names, "MAP02"), Some("Underhalls".to_string()));
    assert_eq!(name_of(&names, "E1M1"), Some("Hangar".to_string()));
}

#[test]
fn extract_without_metadata_is_empty() {
    let wad = build_wad(b"IWAD", &[(b"E1M1", b"data"), (b"PLAYPAL", b"xyz")]);
    assert_eq!(extract_level_names(&wad).unwrap().len(), 0);
}

#[test]
fn extended_metadata_wins_over_base() {
    let wad = build_wad(
        b"PWAD",
        &[(b"MAPINFO", b"map MAP01 \"Base\"\nmap MAP02 \"Only Base\""), (b"ZMAPINFO", b"map MAP01 \"Extended\"")],
    );
    let names = extract_level_names(&wad).unwrap();
    assert_eq!(name_of(&names, "MAP01"), Some("Extended".to_string()));
    assert_eq!(name_of(&names, "MAP02"), Some("Only Base".to_string()));
}

#[test]
fn stage_order_and_reference_fallback() {
    let wad = build_wad(
        b"PWAD",
        &[
            (b"DEHACKED", b"[STRINGS]\nHUSTR_1 = From Strings\nHUSTR_2 = Strings Two\nHUSTR_3 = Strings Three"),
            (b"MAPINFO", b"map MAP01 \"HUSTR_1\"\nmap MAP02 \"Base Two\""),
            (b"UMAPINFO", b"map MAP02 { levelname = \"Universal Two\" }"),
        ],
    );
    let names = extract_level_names(&wad).unwrap();
    assert_eq!(name_of(&names, "MAP01"), Some("From Strings".to_string()));
    assert_eq!(name_of(&names, "MAP02"), Some("Universal Two".to_string()));
    assert_eq!(name_of(&names, "MAP03"), Some("Strings Three".to_string()));
}

#[test]
fn first_of_duplicate_lumps_is_read() {
    let wad = build_wad(
        b"PWAD",
        &[(b"MAPINFO", b"map MAP01 \"First\""), (b"MAPINFO", b"map MAP02 \"Second\"")],
    );
    let names = extract_level_names(&wad).unwrap();
    assert_eq!(name_of(&names, "MAP01"), Some("First".to_string()));
    assert_eq!(names.get("MAP02"), None);
}

#[test]
fn extraction_is_repeatable() {
    let wad = build_wad(
        b"PWAD",
        &[(b"ZMAPINFO", b"map MAP01 \"A\""), (b"DEHACKED", b"[STRINGS]\nHUSTR_2 = B")],
    );
    let first = extract_level_names(&wad).unwrap();
    let second = extract_level_names(&wad).unwrap();
    assert_eq!(first.pairs(), second.pairs());
    assert_eq!(first.len(), 2);
}

#[test]
fn lump_past_end_is_io_error() {
    let mut wad = build_wad(b"PWAD", &[(b"MAPINFO", b"map MAP01 \"A\"")]);
    let size_at = wad.len() - 12;
    wad[size_at] = 200;
    assert_eq!(extract_level_names(&wad).err(), Some(WadError::IoError));
}

#[test]
fn invalid_utf8_becomes_replacement_character() {
    let wad = build_wad(b"PWAD", &[(b"MAPINFO", b"map MAP01 \"Caf\xff\"")]);
    let names = extract_level_names(&wad).unwrap();
    assert_eq!(name_of(&names, "MAP01"), Some("Caf\u{FFFD}".to_string()));
}

#[test]
fn level_names_keep_first_insert() {
    let mut names = LevelNames::new();
    names.insert_if_absent("MAP01".to_string(), "One".to_string());
    names.insert_if_absent("MAP01".to_string(), "Uno".to_string());
    names.insert_if_absent("E1M1".to_string(), "Hangar".to_string());
    assert_eq!(names.len(), 2);
    assert_eq!(names.pairs()[0], ("MAP01".to_string(), "One".to_string()));
    assert_eq!(names.pairs()[1], ("E1M1".to_string(), "Hangar".to_string()));
}

#[test]
fn rejected_extended_name_filled_by_string_table() {
    let wad = build_wad(
        b"PWAD",
        &[(b"ZMAPINFO", b"map MAP01 \"$HUSTR_1\"\n"), (b"DEHACKED", b"[STRINGS]\nHUSTR_1 = Entryway\n")],
    );
    let names = extract_level_names(&wad).unwrap();
    assert_eq!(names.len(), 1);
    assert_eq!(name_of(&names, "MAP01"), Some("Entryway".to_string()));
}

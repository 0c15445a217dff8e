use alfatch_vmc::{
    contains_text, extract_game_id_from_save, game_title_for, is_shown_suffix,
    search_title_entries, split_suffix, title_entry_matches, TitleEntry,
};

fn row(id: &str, title: &str) -> TitleEntry {
    TitleEntry {
        id: id.to_string(),
        title: title.to_string(),
        ..TitleEntry::default()
    }
}

#[test]
fn lower_case_names_are_upper_cased() {
    let r = extract_game_id_from_save("besles-55673save");
    assert_eq!(r.id, "BESLES-55673");
    assert_eq!(r.suffix, "SAVE");
}

#[test]
fn every_suffix_splits_back() {
    let suffixes = [
        "2014OPT", "2014000", "SAVEDATA", "GAMEDATA", "DAT0", "DAT1", "DAT2", "BEMU5YYY", "TCNYC",
        "000", "001", "002", "003", "004", "005", "006", "007", "008", "009", "DATA", "SAVE",
        "SYS", "SYSTEM", "CONFIG", "OPT",
    ];
    for s in suffixes {
        let name = format!("BASLUS-21050{s}");
        let r = split_suffix(&name);
        assert_eq!(r.id, "BASLUS-21050", "{s}");
        assert_eq!(r.suffix, s);
    }
}

#[test]
fn longer_suffix_wins() {
    let r = split_suffix("X2014OPT");
    assert_eq!(r.id, "X");
    assert_eq!(r.suffix, "2014OPT");
    let r = split_suffix("ABCSAVEDATA");
    assert_eq!(r.suffix, "SAVEDATA");
    let r = split_suffix("");
    assert_eq!(r.id, "");
    assert_eq!(r.suffix, "");
}

#[test]
fn outside_title_is_decorated() {
    let e = extract_game_id_from_save("SLUS-20002DAT0");
    assert_eq!(
        game_title_for(&e, "SLUS-20002DAT0", Some("Custom")),
        "Custom (DAT0)"
    );
    let e = extract_game_id_from_save("SLUS-20002SAVE");
    assert_eq!(game_title_for(&e, "SLUS-20002SAVE", Some("Custom")), "Custom");
    assert_eq!(
        game_title_for(&e, "SLUS-20002SAVE", None),
        "Unknown Game (SLUS-20002SAVE)"
    );
}

#[test]
fn built_in_table_matches_prefixes() {
    let e = extract_game_id_from_save("BASLUS-21846");
    assert_eq!(game_title_for(&e, "BASLUS-21846", None), "Sonic Unleashed");
    let e = extract_game_id_from_save("BISLPS-2591");
    assert_eq!(
        game_title_for(&e, "BISLPS-2591", None),
        "Soul Eater: Battle Resonance"
    );
    let e = extract_game_id_from_save("BASLUS-21106XYZ");
    assert_eq!(
        game_title_for(&e, "BASLUS-21106XYZ", None),
        "True Crime: New York City"
    );
}

#[test]
fn shown_suffixes() {
    for s in ["2014OPT", "2014000", "DAT0", "BEMU5YYY", "TCNYC"] {
        assert!(is_shown_suffix(s));
    }
    for s in ["SAVEDATA", "DAT1", "", "dat0"] {
        assert!(!is_shown_suffix(s));
    }
}

#[test]
fn text_search() {
    assert!(contains_text("Gran Turismo 4", "Turismo"));
    assert!(contains_text("abc", ""));
    assert!(!contains_text("abc", "abcd"));
    assert!(!contains_text("Gran Turismo", "turismo"));
}

#[test]
fn catalogue_search_ignores_case() {
    let rows = vec![
        row("SLUS-20002", "Ridge Racer V"),
        row("SCUS-97328", "Gran Turismo 4"),
        row("SLES-50330", "Gran Turismo Concept"),
    ];
    assert!(title_entry_matches(&rows[1], "gran TURISMO"));
    assert!(title_entry_matches(&rows[0], "slus"));
    assert!(!title_entry_matches(&rows[0], "turismo"));
    let found = search_title_entries(&rows, "TURISMO");
    let ids: Vec<&str> = found.iter().map(|r| r.id.as_str()).collect();
    assert_eq!(ids, vec!["SCUS-97328", "SLES-50330"]);
    assert!(search_title_entries(&rows, "zzz").is_empty());
}

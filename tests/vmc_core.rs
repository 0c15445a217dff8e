use alfatch_vmc::{extract_game_id_from_save, get_game_title, ExtractedId};

#[test]
fn test_extract_game_id_from_save() {
    let test_cases = vec![
        (
            "BESLES55673SAVEDATA",
            ExtractedId {
                id: "BESLES55673".to_string(),
                suffix: "SAVEDATA".to_string(),
            },
        ),
        (
            "BASLUS21050DAT0",
            ExtractedId {
                id: "BASLUS21050".to_string(),
                suffix: "DAT0".to_string(),
            },
        ),
        (
            "BASCUS97436",
            ExtractedId {
                id: "BASCUS97436".to_string(),
                suffix: "".to_string(),
            },
        ),
        (
            "UNKNOWN_FORMAT",
            ExtractedId {
                id: "UNKNOWN_FORMAT".to_string(),
                suffix: "".to_string(),
            },
        ),
    ];

    for (input, expected) in test_cases {
        let result = extract_game_id_from_save(input);
        assert_eq!(result.id, expected.id);
        assert_eq!(result.suffix, expected.suffix);
    }
}

#[test]
fn test_extract_game_id_with_hyphens() {
    let result = extract_game_id_from_save("BESLES-55673SAVEDATA");
    assert_eq!(result.id, "BESLES-55673");
    assert_eq!(result.suffix, "SAVEDATA");
}

#[test]
fn test_get_game_title_with_fallback() {
    let test_cases = vec![
        ("BESLES-55673SAVEDATA", "PES 2014: Pro Evolution Soccer"),
        ("BASLUS-21050DAT0", "Burnout 3: Takedown (DAT0)"),
        ("BASCUS-97436", "Gran Turismo 4"),
        ("UNKNOWN_ID", "Unknown Game (UNKNOWN_ID)"),
        (
            "BESLES-556732014OPT",
            "PES 2014: Pro Evolution Soccer (2014OPT)",
        ),
        (
            "BESLES-556732014000",
            "PES 2014: Pro Evolution Soccer (2014000)",
        ),
        (
            "BESLES-55673BEMU5YYY",
            "PES 2014: Pro Evolution Soccer (BEMU5YYY)",
        ),
        (
            "BESLES-55673TCNYC",
            "PES 2014: Pro Evolution Soccer (TCNYC)",
        ),
    ];

    for (input, expected) in test_cases {
        let result = get_game_title(input);
        assert_eq!(result, expected, "Failed for input: {input}");
    }
}

#[test]
fn test_suffix_extraction_logic() {
    let test_cases = vec![
        ("BESLES-55673SAVEDATA", ""),
        ("BASLUS-21050DAT0", "DAT0"),
        ("BESLES-556732014OPT", "2014OPT"),
        ("BESLES-556732014000", "2014000"),
        ("BESLES-55673BEMU5YYY", "BEMU5YYY"),
        ("BESLES-55673TCNYC", "TCNYC"),
    ];

    for (input, expected_suffix) in test_cases {
        let extracted = extract_game_id_from_save(input);
        let show_suffix = matches!(
            extracted.suffix.as_str(),
            "2014OPT" | "2014000" | "DAT0" | "BEMU5YYY" | "TCNYC"
        );

        if show_suffix {
            assert_eq!(
                extracted.suffix, expected_suffix,
                "Suffix should be shown for: {input}"
            );
        } else {
            assert!(
                expected_suffix.is_empty(),
                "Suffix should not be shown for: {input}"
            );
        }
    }
}

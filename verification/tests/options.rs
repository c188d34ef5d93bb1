use zkedit::cli::{parse_options, parse_u32, CliError, Zkedit};

fn words(items: &[&str]) -> Vec<String> {
    items.iter().map(|s| s.to_string()).collect()
}

#[test]
fn prove_with_all_flags() {
    let r = parse_options(&words(&["prove", "-i", "img.png", "-x", "4", "-y", "7", "-w", "10", "-h", "20"]));
    match r {
        Ok(Zkedit::Prove { orig_img_path, crop_x, crop_y, crop_w, crop_h }) => {
            assert_eq!(orig_img_path, "img.png");
            assert_eq!((crop_x, crop_y, crop_w, crop_h), (4, 7, 10, 20));
        },
        other => panic!("unexpected: {:?}", other),
    }
}

#[test]
fn prove_flags_in_any_order() {
    let r = parse_options(&words(&["prove", "-w", "10", "-i", "img.png"]));
    match r {
        Ok(Zkedit::Prove { orig_img_path, crop_x, crop_y, crop_w, crop_h }) => {
            assert_eq!(orig_img_path, "img.png");
            assert_eq!((crop_x, crop_y, crop_w, crop_h), (55, 30, 10, 361));
        },
        other => panic!("unexpected: {:?}", other),
    }
}

#[test]
fn prove_defaults_match_the_documented_rectangle() {
    let r = parse_options(&words(&["prove", "-i", "a"]));
    match r {
        Ok(Zkedit::Prove { crop_x, crop_y, crop_w, crop_h, .. }) => {
            assert_eq!((crop_x, crop_y, crop_w, crop_h), (55, 30, 446, 361));
        },
        other => panic!("unexpected: {:?}", other),
    }
}

#[test]
fn verify_needs_both_paths() {
    let r = parse_options(&words(&["verify", "-e", "edited.png", "-m", "meta.bin"]));
    match r {
        Ok(Zkedit::Verify { edited_image_path, metadata_path }) => {
            assert_eq!(edited_image_path, "edited.png");
            assert_eq!(metadata_path, "meta.bin");
        },
        other => panic!("unexpected: {:?}", other),
    }
    let r = parse_options(&words(&["verify", "-e", "edited.png"]));
    assert!(matches!(r, Err(CliError::MissingRequired)));
}

#[test]
fn empty_invocation_is_missing_command() {
    assert!(matches!(parse_options(&words(&[])), Err(CliError::MissingCommand)));
}

#[test]
fn unknown_command_is_rejected() {
    assert!(matches!(parse_options(&words(&["frobnicate"])), Err(CliError::UnknownCommand)));
}

#[test]
fn unknown_flag_is_malformed() {
    let r = parse_options(&words(&["prove", "-i", "a", "-q", "3"]));
    assert!(matches!(r, Err(CliError::MalformedFlags)));
}

#[test]
fn dangling_flag_is_malformed() {
    let r = parse_options(&words(&["prove", "-i", "a", "-x"]));
    assert!(matches!(r, Err(CliError::MalformedFlags)));
}

#[test]
fn missing_image_path_is_missing_required() {
    let r = parse_options(&words(&["prove", "-x", "3", "-y", "4"]));
    assert!(matches!(r, Err(CliError::MissingRequired)));
}

#[test]
fn non_numeric_rectangle_is_invalid_number() {
    let r = parse_options(&words(&["prove", "-i", "a", "-x", "two"]));
    assert!(matches!(r, Err(CliError::InvalidNumber)));
}

#[test]
fn oversized_rectangle_value_is_invalid_number() {
    let r = parse_options(&words(&["prove", "-i", "a", "-w", "4294967296"]));
    assert!(matches!(r, Err(CliError::InvalidNumber)));
}

#[test]
fn repeated_flag_keeps_the_first_value() {
    let r = parse_options(&words(&["prove", "-i", "a", "-x", "1", "-x", "2"]));
    match r {
        Ok(Zkedit::Prove { crop_x, .. }) => assert_eq!(crop_x, 1),
        other => panic!("unexpected: {:?}", other),
    }
}

#[test]
fn parse_u32_accepts_decimals_and_rejects_the_rest() {
    assert_eq!(parse_u32(&"0".to_string()), Some(0));
    assert_eq!(parse_u32(&"4294967295".to_string()), Some(u32::MAX));
    assert_eq!(parse_u32(&"4294967296".to_string()), None);
    assert_eq!(parse_u32(&"".to_string()), None);
    assert_eq!(parse_u32(&"12a".to_string()), None);
    assert_eq!(parse_u32(&"-3".to_string()), None);
}

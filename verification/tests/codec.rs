use weightlifting_core::json::decode_muscle_groups;
use weightlifting_core::json::encode_muscle_groups;

fn strings(items: &[&str]) -> Vec<String> {
    items.iter().map(|s| s.to_string()).collect()
}

fn sample_lists() -> Vec<Vec<String>> {
    vec![
        strings(&[]),
        strings(&["Chest"]),
        strings(&["Chest", "Triceps"]),
        strings(&["Quadriceps", "Glutes", "Hamstrings"]),
        strings(&["with \"quotes\"", "back\\slash"]),
        strings(&["line\nbreak", "tab\there", "carriage\rreturn"]),
        strings(&["\u{8}backspace", "\u{c}formfeed"]),
        strings(&["low controls \u{1}\u{b}\u{1f}"]),
        strings(&["café", "Übungen", "广背肌", "💪"]),
        strings(&["", "", ""]),
    ]
}

#[test]
fn encode_matches_the_reference_encoder() {
    for list in sample_lists() {
        let ours = encode_muscle_groups(&list);
        let reference = serde_json::to_string(&list).expect("reference encoding failed");
        assert_eq!(ours, reference, "encoding of {list:?}");
    }
}

#[test]
fn decode_inverts_encode() {
    for list in sample_lists() {
        let encoded = encode_muscle_groups(&list);
        assert_eq!(decode_muscle_groups(&encoded), Some(list));
    }
}

#[test]
fn decode_accepts_the_reference_encoder() {
    for list in sample_lists() {
        let reference = serde_json::to_string(&list).expect("reference encoding failed");
        assert_eq!(decode_muscle_groups(&reference), Some(list));
    }
}

#[test]
fn encode_simple_list_is_the_expected_text() {
    assert_eq!(encode_muscle_groups(&strings(&[])), "[]");
    assert_eq!(
        encode_muscle_groups(&strings(&["Chest", "Triceps"])),
        "[\"Chest\",\"Triceps\"]"
    );
    assert_eq!(
        encode_muscle_groups(&strings(&["a\"b\\c\n"])),
        "[\"a\\\"b\\\\c\\n\"]"
    );
    assert_eq!(encode_muscle_groups(&strings(&["\u{1f}"])), "[\"\\u001f\"]");
}

#[test]
fn decode_rejects_corrupt_values() {
    for bad in [
        "",
        "not json",
        "{}",
        "[1,2]",
        "[\"unterminated",
        "[\"a\",]",
        "[\"a\"",
        "\"a\"",
        "[\"bad escape \\x\"]",
        "[\"a\"]extra",
    ] {
        assert_eq!(decode_muscle_groups(bad), None, "decoding {bad:?}");
    }
}

#[test]
fn decode_is_strict_about_canonical_form() {
    // The decoder accepts exactly what the encoder writes: no white space
    // between tokens, and no escapes the encoder would not produce.
    assert_eq!(decode_muscle_groups("[ \"a\" ]"), None);
    assert_eq!(decode_muscle_groups("[\"a\", \"b\"]"), None);
    assert_eq!(decode_muscle_groups("[\"\\u0041\"]"), None);
    // A tab is always written "\t", never "\u0009".
    assert_eq!(decode_muscle_groups("[\"\\u0009\"]"), None);
    assert_eq!(decode_muscle_groups("[\"\\t\"]"), Some(vec!["\t".to_string()]));
}

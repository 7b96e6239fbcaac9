use jb_reset::{check_has_eval_keys, clean_xml_content};

#[test]
fn test_clean_xml() {
    let input = r#"
{
  "keyToString": {
    "RunOnceActivity.TerminalFontSettingsService": "true",
    "evlsprt.252": "199a2010580",
    "evlsprt3.251": "7",
    "evlsprt3.252": "6",
    "trial.state.last.state": "ALERT",
    "experimental.ui.used.version": "252.26199.169"
  }
}
"#;

    let result = clean_xml_content(input);

    assert!(!result.contains("evlsprt"));
    assert!(!result.contains("trial.state"));
    assert!(result.contains("experimental.ui.used.version"));
}

#[test]
fn sanitizer_preserves_other_lines_verbatim_and_in_order() {
    let input = "first\n  \"evlsprt3.251\": \"7\",\nsecond\nthird";
    assert_eq!(clean_xml_content(input), "first\nsecond\nthird");
}

#[test]
fn sanitizer_removes_one_trailing_separator_line() {
    let input = "a\n\"evlsprt.1\": \"x\"\n,\n,\nb";
    assert_eq!(clean_xml_content(input), "a\n,\nb");
    let input = "a\n\"evlsprt.1\": \"x\"\n\nb";
    assert_eq!(clean_xml_content(input), "a\nb");
}

#[test]
fn sanitizer_matches_trial_availability_pairs() {
    let input = "keep\n\"trial.x.availability\": 1\nkeep2";
    assert_eq!(clean_xml_content(input), "keep\nkeep2");
}

#[test]
fn sanitizer_is_idempotent_on_its_output() {
    let inputs = [
        "first\n  \"evlsprt3.251\": \"7\",\nsecond\nthird",
        "a\n\"evlsprt.1\": \"x\"\n,\n,\nb",
        "nothing to remove at all",
        "\"trial.state\": \"ACTIVE\"\n,\ntail",
    ];
    for input in inputs {
        let once = clean_xml_content(input);
        let twice = clean_xml_content(&once);
        assert_eq!(twice, once);
    }
}

#[test]
fn eval_key_check_sees_each_marker() {
    assert!(check_has_eval_keys("x evlsprt y"));
    assert!(check_has_eval_keys("x trial.state y"));
    assert!(check_has_eval_keys("x trial.availability y"));
    assert!(!check_has_eval_keys("x trial availability y"));
    assert!(!check_has_eval_keys("clean"));
}

use jb_reset::{build_install, detect_trial_status, extract_trial_days, JetBrainsProduct, TrialStatus};

#[test]
fn license_marker_wins_over_eval_marker() {
    let content = "{ \"license\": true, \"evlsprt3.251\": \"7\" }";
    assert_eq!(detect_trial_status(content), TrialStatus::Licensed);
    let content = "Licensed evlsprt trial.state";
    assert_eq!(detect_trial_status(content), TrialStatus::Licensed);
}

#[test]
fn eval_counter_zero_means_expired() {
    let content = "evlsprt3.251: \"0\"";
    assert_eq!(detect_trial_status(content), TrialStatus::Expired);
}

#[test]
fn eval_counter_value_means_active() {
    let content = "evlsprt3.251: \"7\"";
    assert_eq!(
        detect_trial_status(content),
        TrialStatus::Active { days_remaining: 7 }
    );
}

#[test]
fn eval_marker_without_counter_defaults_to_thirty() {
    let content = "evlsprt.252: 199a2010580";
    assert_eq!(
        detect_trial_status(content),
        TrialStatus::Active { days_remaining: 30 }
    );
}

#[test]
fn no_marker_means_unknown() {
    let content = "nothing interesting here";
    assert_eq!(detect_trial_status(content), TrialStatus::Unknown);
}

#[test]
fn trial_state_strings_decide() {
    let content = "trial.state.last: \"EXPIRED\"";
    assert_eq!(detect_trial_status(content), TrialStatus::Expired);
    let content = "trial.state.last: \"ACTIVE\"";
    assert_eq!(
        detect_trial_status(content),
        TrialStatus::Active { days_remaining: 30 }
    );
    let content = "trial.state.last: \"ALERT\"";
    assert_eq!(detect_trial_status(content), TrialStatus::Unknown);
}

#[test]
fn day_counter_strips_quotes_commas_and_space() {
    assert_eq!(extract_trial_days("evlsprt3.1: \"12\""), Some(12));
    assert_eq!(extract_trial_days("evlsprt3.1: 12,"), Some(12));
    assert_eq!(extract_trial_days("evlsprt3.1:  25 "), Some(25));
    assert_eq!(extract_trial_days("evlsprt3.1: \"x\"\nevlsprt3.2: \"4\""), Some(4));
    assert_eq!(extract_trial_days("no counter anywhere"), Some(30));
    assert_eq!(extract_trial_days("evlsprt3 has no colon"), Some(30));
    // the quotes are stripped before the comma, so a quoted value with a
    // trailing comma does not parse and the fallback applies
    assert_eq!(extract_trial_days("evlsprt3.1: \"12\","), Some(30));
}

#[test]
fn build_install_fills_every_field() {
    let inst = build_install(
        "PyCharm2024.3",
        "/cfg/JetBrains",
        "/data/JetBrains",
        Some("evlsprt3.251: \"7\""),
    )
    .unwrap();
    assert_eq!(inst.product, JetBrainsProduct::PyCharm);
    assert_eq!(inst.version, "2024.3");
    assert_eq!(inst.config_path, "/cfg/JetBrains/PyCharm2024.3");
    assert_eq!(inst.data_path, "/data/JetBrains/PyCharm2024.3");
    assert_eq!(inst.trial_status, TrialStatus::Active { days_remaining: 7 });
}

#[test]
fn build_install_missing_options_file_is_not_started() {
    let inst = build_install("Fleet", "/cfg/JetBrains", "/data/JetBrains", None).unwrap();
    assert_eq!(inst.trial_status, TrialStatus::NotStarted);
    assert_eq!(inst.version, "");
}

#[test]
fn build_install_skips_unknown_directories() {
    assert!(build_install("NotAnIde2024.1", "/cfg/JetBrains", "/data/JetBrains", None).is_none());
}

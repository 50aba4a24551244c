use tucknotes::errors::AppError;
use tucknotes::models::licensing::{LicenseRecord, LicenseStatus, LicenseStorage};
use tucknotes::services::licensing::{
    apply_revalidation, apply_validation_outcome, classify_activate_error,
    classify_validate_body, classify_validate_failure, compute_status, device_label,
    activate_error_for, plan_activation, polar_error_detail, require_paid_entitlement,
    usable_detail_of, validate_failure_for, verdict_of_status, ActivationPlan,
    ValidationOutcome,
};

#[test]
fn fresh_storage_is_in_trial() {
    let now = 1_000_000_i64;
    let storage = LicenseStorage::fresh(now);
    let status = compute_status(&storage, now);
    match status {
        LicenseStatus::Trial { days_remaining } => assert_eq!(days_remaining, 14),
        other => panic!("expected Trial, got {other:?}"),
    }
}

#[test]
fn trial_decrements_over_time() {
    let now = 1_000_000_i64;
    let storage = LicenseStorage::fresh(now);
    let status = compute_status(&storage, now + (3 * 86_400));
    match status {
        LicenseStatus::Trial { days_remaining } => assert_eq!(days_remaining, 11),
        other => panic!("expected Trial, got {other:?}"),
    }
}

#[test]
fn trial_expires_after_14_days() {
    let now = 1_000_000_i64;
    let storage = LicenseStorage::fresh(now);
    let status = compute_status(&storage, now + (15 * 86_400));
    assert_eq!(status, LicenseStatus::TrialExpired);
}

#[test]
fn licensed_status_within_grace() {
    let mut storage = LicenseStorage::fresh(0);
    storage.license = Some(LicenseRecord {
        key: "key".into(),
        activation_id: "act".into(),
        last_validated_at: 1_000_000,
    });
    let status = compute_status(&storage, 1_000_000 + (3 * 86_400));
    assert!(matches!(status, LicenseStatus::Licensed { .. }));
    assert!(status.allows_paid_features());
}

#[test]
fn licensed_status_after_grace_is_invalid() {
    let mut storage = LicenseStorage::fresh(0);
    storage.license = Some(LicenseRecord {
        key: "key".into(),
        activation_id: "act".into(),
        last_validated_at: 1_000_000,
    });
    let status = compute_status(&storage, 1_000_000 + (8 * 86_400));
    assert!(matches!(status, LicenseStatus::LicenseInvalid { .. }));
    assert!(!status.allows_paid_features());
}

fn error_message(err: AppError) -> String {
    match err {
        AppError::LicenseValidationFailed(msg) => msg,
        other => panic!("expected LicenseValidationFailed, got {other:?}"),
    }
}

#[test]
fn activate_403_means_activation_limit_not_missing_key() {
    let msg = error_message(classify_activate_error(403, ""));
    assert!(msg.contains("activation limit"), "got: {msg}");
    assert!(!msg.contains("wasn't found"), "got: {msg}");
}

#[test]
fn activate_403_includes_polar_detail() {
    let body = r#"{"error":"NotPermitted","detail":"License key activation limit already reached"}"#;
    let msg = error_message(classify_activate_error(403, body));
    assert!(msg.contains("limit already reached"), "got: {msg}");
}

#[test]
fn activate_404_means_key_not_found() {
    let msg = error_message(classify_activate_error(404, ""));
    assert!(msg.contains("wasn't found"), "got: {msg}");
}

#[test]
fn activate_500_is_generic() {
    let msg = error_message(classify_activate_error(500, ""));
    assert!(msg.contains("try again"), "got: {msg}");
    assert!(!msg.contains("wasn't found"), "got: {msg}");
}

#[test]
fn validate_body_granted_is_valid() {
    assert_eq!(
        classify_validate_body(r#"{"status":"granted"}"#),
        ValidationOutcome::Valid
    );
}

#[test]
fn validate_body_revoked_and_disabled_are_rejected() {
    assert!(matches!(
        classify_validate_body(r#"{"status":"revoked"}"#),
        ValidationOutcome::Rejected(_)
    ));
    assert!(matches!(
        classify_validate_body(r#"{"status":"disabled"}"#),
        ValidationOutcome::Rejected(_)
    ));
}

#[test]
fn validate_body_ambiguous_never_rejects() {
    // Missing status, unknown status, or garbage must never clear a license.
    assert_eq!(classify_validate_body("{}"), ValidationOutcome::Valid);
    assert_eq!(
        classify_validate_body(r#"{"status":"something-new"}"#),
        ValidationOutcome::Valid
    );
    assert_eq!(classify_validate_body("not json"), ValidationOutcome::Valid);
}

#[test]
fn validate_404_is_definitive_rejection() {
    let outcome = classify_validate_failure(404, "").unwrap();
    assert!(matches!(outcome, ValidationOutcome::Rejected(_)));
}

#[test]
fn validate_transient_statuses_are_errors_not_rejections() {
    for status in [403u16, 429, 500, 503] {
        assert!(
            classify_validate_failure(status, "").is_err(),
            "HTTP {status} must be transient"
        );
    }
}

fn record(last_validated_at: i64) -> LicenseRecord {
    LicenseRecord {
        key: "key".into(),
        activation_id: "act".into(),
        last_validated_at,
    }
}

#[test]
fn apply_valid_refreshes_grace_window() {
    let mut storage = LicenseStorage::fresh(0);
    storage.license = Some(record(1_000));
    let status = apply_validation_outcome(&mut storage, record(1_000), ValidationOutcome::Valid, 2_000);
    assert_eq!(storage.license.as_ref().unwrap().last_validated_at, 2_000);
    assert!(matches!(status, LicenseStatus::Licensed { .. }));
}

#[test]
fn apply_rejected_clears_license() {
    let mut storage = LicenseStorage::fresh(0);
    storage.license = Some(record(1_000));
    let status = apply_validation_outcome(
        &mut storage,
        record(1_000),
        ValidationOutcome::Rejected("revoked".into()),
        2_000,
    );
    assert!(storage.license.is_none());
    assert!(matches!(status, LicenseStatus::LicenseInvalid { .. }));
}

#[test]
fn validate_failure_messages() {
    match classify_validate_failure(500, "") {
        Err(AppError::LicenseValidationFailed(m)) => {
            assert_eq!(m, "License validation failed (HTTP 500). Will retry later.")
        }
        _ => panic!("expected a transient error"),
    }
    match classify_validate_failure(404, r#"{"detail":"Activation gone"}"#) {
        Ok(ValidationOutcome::Rejected(m)) => assert_eq!(m, "Activation gone"),
        _ => panic!("expected a rejection"),
    }
    match classify_validate_failure(404, r#"{"detail":""}"#) {
        Ok(ValidationOutcome::Rejected(m)) => {
            assert_eq!(m, "License key or activation no longer exists.")
        }
        _ => panic!("expected a rejection"),
    }
}

#[test]
fn error_detail_must_be_a_nonempty_string() {
    assert_eq!(polar_error_detail(r#"{"detail":"x"}"#), Some("x".to_string()));
    assert_eq!(polar_error_detail(r#"{"detail":""}"#), None);
    assert_eq!(polar_error_detail(r#"{"detail":5}"#), None);
    assert_eq!(polar_error_detail("garbage"), None);
}

#[test]
fn grace_window_lasts_seven_days_after_validation() {
    let mut storage = LicenseStorage::fresh(0);
    storage.license = Some(record(1_000));
    match compute_status(&storage, 1_000 + 7 * 86_400) {
        LicenseStatus::Licensed { last_validated_at, expires_grace_at } => {
            assert_eq!(last_validated_at, 1_000);
            assert_eq!(expires_grace_at, 1_000 + 7 * 86_400);
        }
        other => panic!("expected Licensed, got {other:?}"),
    }
    assert!(matches!(
        compute_status(&storage, 1_000 + 7 * 86_400 + 1),
        LicenseStatus::LicenseInvalid { .. }
    ));
}

#[test]
fn transient_revalidation_keeps_license() {
    let mut storage = LicenseStorage::fresh(0);
    storage.license = Some(record(1_000));
    let status = apply_revalidation(
        &mut storage,
        record(1_000),
        Err(AppError::LicenseValidationFailed("HTTP 500".into())),
        2_000,
    );
    assert_eq!(storage.license.as_ref().unwrap().last_validated_at, 1_000);
    assert!(matches!(status, LicenseStatus::Licensed { .. }));
}

#[test]
fn activation_plans() {
    match plan_activation("   ", None) {
        Err(AppError::LicenseValidationFailed(m)) => assert!(m.contains("empty")),
        _ => panic!("expected the empty key to be refused"),
    }
    assert!(matches!(plan_activation(" key ", Some(record(1))), Ok(ActivationPlan::Revalidate(_))));
    match plan_activation("other", Some(record(1))) {
        Ok(ActivationPlan::Replace { old, key }) => {
            assert_eq!(old.key, "key");
            assert_eq!(key, "other");
        }
        _ => panic!("expected a replacement"),
    }
    assert!(matches!(plan_activation("new", None), Ok(ActivationPlan::Activate(k)) if k == "new"));
}

#[test]
fn paid_features_need_trial_or_license() {
    let storage = LicenseStorage::fresh(0);
    assert!(require_paid_entitlement(&storage, 86_400).is_ok());
    assert!(matches!(
        require_paid_entitlement(&storage, 15 * 86_400),
        Err(AppError::LicenseRequired(_))
    ));
}

#[test]
fn device_label_falls_back() {
    assert_eq!(device_label(Some("  Mac Studio ".into())), "Mac Studio");
    assert_eq!(device_label(Some("   ".into())), "Unknown device");
    assert_eq!(device_label(None), "Unknown device");
}

#[test]
fn verdicts_from_member_values() {
    match activate_error_for(403, Some("3 of 3 used".to_string())) {
        AppError::LicenseValidationFailed(m) => assert_eq!(
            m,
            "This license key has reached its activation limit. Deactivate it on another device and try again. (3 of 3 used)"
        ),
        other => panic!("unexpected {other:?}"),
    }
    match activate_error_for(403, Some(String::new())) {
        AppError::LicenseValidationFailed(m) => assert!(m.ends_with("try again.")),
        other => panic!("unexpected {other:?}"),
    }
    assert!(matches!(verdict_of_status(Some("revoked".to_string())), ValidationOutcome::Rejected(m) if m == "This license key has been revoked."));
    assert!(matches!(verdict_of_status(Some("granted".to_string())), ValidationOutcome::Valid));
    assert!(matches!(verdict_of_status(None), ValidationOutcome::Valid));
    assert!(matches!(validate_failure_for(404, None), Ok(ValidationOutcome::Rejected(m)) if m == "License key or activation no longer exists."));
    assert!(matches!(validate_failure_for(500, Some("x".to_string())), Err(AppError::LicenseValidationFailed(m)) if m == "License validation failed (HTTP 500). Will retry later."));
    assert_eq!(usable_detail_of(Some(String::new())), None);
    assert_eq!(usable_detail_of(Some("d".to_string())), Some("d".to_string()));
}

#[test]
fn device_label_trims_unicode_whitespace() {
    assert_eq!(device_label(Some("\u{3000}studio-mac\u{85}\t".to_string())), "studio-mac");
    assert_eq!(device_label(Some("\u{2009}\u{a0}".to_string())), "Unknown device");
}

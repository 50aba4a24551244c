//! Licensing: the trial clock, the offline grace period of an activated
//! license, and the handling of the license server's answers. Requests to
//! the server, the clock, and the license file are the application's edge;
//! these functions take what they produced.
use vstd::prelude::*;

use crate::errors::AppError;
use crate::models::licensing::{
    LicenseRecord, LicenseRecordView, LicenseStatus, LicenseStatusView, LicenseStorage,
    LicenseStorageView, OFFLINE_GRACE_SECS, TRIAL_SECS,
};
use crate::services::json::{json_member, member, JsonField, JsonFieldView};
use crate::text::{append_str, decimal, decimal_string, opt_view, owned, str_eq, trim, trim_str};

verus! {

/// How often a stored license is re-validated (seconds); well inside the
/// offline grace period.
pub const REVALIDATE_INTERVAL_SECS: u64 = 6 * 60 * 60;

/// `a + b`, clamped to `i64`.
pub open spec fn sat_add(a: int, b: int) -> i64 {
    if a + b > i64::MAX {
        i64::MAX
    } else if a + b < i64::MIN {
        i64::MIN
    } else {
        (a + b) as i64
    }
}

/// The message of a license whose offline grace period is over.
pub open spec fn grace_expired_reason() -> Seq<char> {
    "Offline grace period expired. Reconnect to re-validate license."@
}

/// The status of `storage` at `now`: a license is usable until its grace
/// period after the last validation ends, then invalid; without a license
/// the trial runs for [`TRIAL_SECS`] from the first launch, its remaining
/// days rounded up.
pub open spec fn status_at(storage: LicenseStorageView, now: i64) -> LicenseStatusView {
    match storage.license {
        Some(l) => {
            let grace_end = sat_add(l.last_validated_at as int, OFFLINE_GRACE_SECS as int);
            if now <= grace_end {
                LicenseStatusView::Licensed { last_validated_at: l.last_validated_at, expires_grace_at: grace_end }
            } else {
                LicenseStatusView::LicenseInvalid { reason: grace_expired_reason() }
            }
        },
        None => {
            let elapsed = sat_add(now as int, -(storage.first_launch_at as int));
            if elapsed < 0 || elapsed >= TRIAL_SECS {
                LicenseStatusView::TrialExpired
            } else {
                LicenseStatusView::Trial {
                    days_remaining: ((TRIAL_SECS - elapsed + 86_399) / 86_400) as u32,
                }
            }
        },
    }
}

/// The status of `storage` at the instant `now_unix_secs`.
pub fn compute_status(storage: &LicenseStorage, now_unix_secs: i64) -> (r: LicenseStatus)
    ensures
        r@ == status_at(storage@, now_unix_secs),
{
    match &storage.license {
        Some(license) => {
            let grace: i64 = OFFLINE_GRACE_SECS as i64;
            let grace_end = if license.last_validated_at > i64::MAX - grace {
                i64::MAX
            } else {
                license.last_validated_at + grace
            };
            if now_unix_secs <= grace_end {
                LicenseStatus::Licensed {
                    last_validated_at: license.last_validated_at,
                    expires_grace_at: grace_end,
                }
            } else {
                LicenseStatus::LicenseInvalid {
                    reason: owned("Offline grace period expired. Reconnect to re-validate license."),
                }
            }
        },
        None => {
            let d: i128 = now_unix_secs as i128 - storage.first_launch_at as i128;
            let elapsed: i64 = if d > i64::MAX as i128 {
                i64::MAX
            } else if d < i64::MIN as i128 {
                i64::MIN
            } else {
                d as i64
            };
            if elapsed < 0 || elapsed as u64 >= TRIAL_SECS {
                LicenseStatus::TrialExpired
            } else {
                let remaining: u64 = TRIAL_SECS - elapsed as u64;
                let days = (remaining + 86_399) / 86_400;
                LicenseStatus::Trial { days_remaining: days as u32 }
            }
        },
    }
}

/// The license server's authoritative answer on a stored license.
#[derive(Debug, PartialEq)]
pub enum ValidationOutcome {
    Valid,
    Rejected(String),
}

/// An error detail from the server, kept when it is not empty.
pub open spec fn usable_detail(detail: Option<Seq<char>>) -> Option<Seq<char>> {
    match detail {
        Some(d) => if d.len() > 0 {
            Some(d)
        } else {
            None
        },
        None => None,
    }
}

/// The string member `key` of a JSON response body (`None` when the body is
/// not a JSON object, lacks the member, or it is not a string).
pub open spec fn string_member(text: Seq<char>, key: Seq<char>) -> Option<Seq<char>> {
    match json_member(text, key) {
        Some(JsonFieldView::Str(s)) => Some(s),
        _ => None,
    }
}

fn string_field(text: &str, key: &str) -> (r: Option<String>)
    ensures
        opt_view(r) == string_member(text@, key@),
{
    match member(text, key) {
        Some(JsonField::Str(s)) => Some(s),
        _ => None,
    }
}

/// The server's error detail when it is a non-empty string.
pub fn usable_detail_of(detail: Option<String>) -> (r: Option<String>)
    ensures
        opt_view(r) == usable_detail(opt_view(detail)),
{
    match detail {
        Some(d) => if d.as_str().is_empty() {
            None
        } else {
            Some(d)
        },
        None => None,
    }
}

/// The non-empty `detail` string of an error body from the license server.
pub fn polar_error_detail(text: &str) -> (r: Option<String>)
    ensures
        opt_view(r) == usable_detail(string_member(text@, "detail"@)),
{
    usable_detail_of(string_field(text, "detail"))
}

/// The message of a refused activation with HTTP status `status` and the
/// server's error detail: 403 is the activation limit, 404 an unknown key,
/// 429 too many attempts.
pub open spec fn activate_error_message(status: u16, detail: Option<Seq<char>>) -> Seq<char> {
    if status == 403 {
        let base = "This license key has reached its activation limit. Deactivate it on another device and try again."@;
        match usable_detail(detail) {
            Some(d) => base + " ("@ + d + ")"@,
            None => base,
        }
    } else if status == 404 {
        "That license key wasn't found. Double-check the key and try again."@
    } else if status == 429 {
        "Too many attempts. Please wait a moment and try again."@
    } else {
        "License request failed. Please try again."@
    }
}

/// The error of a refused activation with HTTP `status`, given the
/// `detail` string member of the server's response (quoted for the
/// activation limit).
pub fn activate_error_for(status: u16, detail: Option<String>) -> (r: AppError)
    ensures
        r matches AppError::LicenseValidationFailed(m) && m@ == activate_error_message(
            status,
            opt_view(detail),
        ),
{
    let msg = if status == 403 {
        let mut base = owned(
            "This license key has reached its activation limit. Deactivate it on another device and try again.",
        );
        match detail {
            Some(d) => {
                if !d.as_str().is_empty() {
                    append_str(&mut base, " (");
                    append_str(&mut base, d.as_str());
                    append_str(&mut base, ")");
                }
            },
            None => {},
        }
        base
    } else if status == 404 {
        owned("That license key wasn't found. Double-check the key and try again.")
    } else if status == 429 {
        owned("Too many attempts. Please wait a moment and try again.")
    } else {
        owned("License request failed. Please try again.")
    };
    AppError::LicenseValidationFailed(msg)
}

/// The error of a refused activation with HTTP `status` and response body
/// `text` (whose `detail` is quoted for the activation limit).
pub fn classify_activate_error(status: u16, text: &str) -> (r: AppError)
    ensures
        r matches AppError::LicenseValidationFailed(m) && m@ == activate_error_message(
            status,
            string_member(text@, "detail"@),
        ),
{
    activate_error_for(status, string_field(text, "detail"))
}

/// A successful validation's verdict from the `status` field of its body:
/// only an explicit `revoked` or `disabled` rejects the key.
pub open spec fn validate_verdict(status: Option<Seq<char>>) -> Option<Seq<char>> {
    match status {
        Some(s) => if s == "revoked"@ {
            Some("This license key has been revoked."@)
        } else if s == "disabled"@ {
            Some("This license key has been disabled."@)
        } else {
            None
        },
        None => None,
    }
}

/// The verdict of a successful validation, given the `status` string
/// member of its body. Anything but an explicit rejection counts as valid.
pub fn verdict_of_status(status: Option<String>) -> (r: ValidationOutcome)
    ensures
        match validate_verdict(opt_view(status)) {
            Some(reason) => r matches ValidationOutcome::Rejected(m) && m@ == reason,
            None => r is Valid,
        },
{
    match status {
        Some(s) => {
            if str_eq(s.as_str(), "revoked") {
                ValidationOutcome::Rejected(owned("This license key has been revoked."))
            } else if str_eq(s.as_str(), "disabled") {
                ValidationOutcome::Rejected(owned("This license key has been disabled."))
            } else {
                ValidationOutcome::Valid
            }
        },
        None => ValidationOutcome::Valid,
    }
}

/// The verdict of a successful validation response with body `text`, from
/// its `status` field. Anything but an explicit rejection counts as valid.
pub fn classify_validate_body(text: &str) -> (r: ValidationOutcome)
    ensures
        match validate_verdict(string_member(text@, "status"@)) {
            Some(reason) => r matches ValidationOutcome::Rejected(m) && m@ == reason,
            None => r is Valid,
        },
{
    verdict_of_status(string_field(text, "status"))
}

/// The outcome of a failed validation with HTTP `status`, given the
/// `detail` string member of the response: 404 is a definitive rejection
/// (with the detail, else a default reason); anything else is a transient
/// error.
pub fn validate_failure_for(status: u16, detail: Option<String>) -> (r: Result<
    ValidationOutcome,
    AppError,
>)
    ensures
        status == 404 ==> (r matches Ok(ValidationOutcome::Rejected(m)) && m@ == match usable_detail(
            opt_view(detail),
        ) {
            Some(d) => d,
            None => "License key or activation no longer exists."@,
        }),
        status != 404 ==> (r matches Err(AppError::LicenseValidationFailed(m)) && m@
            == "License validation failed (HTTP "@ + decimal(status as nat)
            + "). Will retry later."@),
{
    if status == 404 {
        let reason = match usable_detail_of(detail) {
            Some(d) => d,
            None => owned("License key or activation no longer exists."),
        };
        return Ok(ValidationOutcome::Rejected(reason));
    }
    let mut m = owned("License validation failed (HTTP ");
    let code = decimal_string(status as u64);
    append_str(&mut m, code.as_str());
    append_str(&mut m, "). Will retry later.");
    Err(AppError::LicenseValidationFailed(m))
}

/// The outcome of a failed validation response with HTTP `status`: 404 is a
/// definitive rejection (with the server's detail, else a default reason);
/// anything else is a transient error.
pub fn classify_validate_failure(status: u16, text: &str) -> (r: Result<
    ValidationOutcome,
    AppError,
>)
    ensures
        status == 404 ==> (r matches Ok(ValidationOutcome::Rejected(m)) && m@ == match usable_detail(
            string_member(text@, "detail"@),
        ) {
            Some(d) => d,
            None => "License key or activation no longer exists."@,
        }),
        status != 404 ==> (r matches Err(AppError::LicenseValidationFailed(m)) && m@
            == "License validation failed (HTTP "@ + decimal(status as nat)
            + "). Will retry later."@),
{
    validate_failure_for(status, string_field(text, "detail"))
}

/// The label of this device in the license portal: the machine's name,
/// trimmed, or `Unknown device` when it has none.
pub fn device_label(hostname: Option<String>) -> (r: String)
    ensures
        r@ == match hostname {
            Some(h) => if trim(h@).len() > 0 {
                trim(h@)
            } else {
                "Unknown device"@
            },
            None => "Unknown device"@,
        },
{
    match hostname {
        Some(h) => {
            let t = trim_str(h.as_str());
            if t.as_str().is_empty() {
                owned("Unknown device")
            } else {
                t
            }
        },
        None => owned("Unknown device"),
    }
}

/// Replaces the stored license with `record`; returns the new status at
/// `now`.
pub fn store_license(storage: &mut LicenseStorage, record: LicenseRecord, now: i64) -> (r:
    LicenseStatus)
    ensures
        final(storage)@ == (LicenseStorageView { license: Some(record@), ..old(storage)@ }),
        r@ == status_at(final(storage)@, now),
{
    storage.license = Some(record);
    compute_status(storage, now)
}

/// Removes the stored license; returns the new status at `now` (the trial's
/// or its end).
pub fn clear_license(storage: &mut LicenseStorage, now: i64) -> (r: LicenseStatus)
    ensures
        final(storage)@ == (LicenseStorageView { license: None, ..old(storage)@ }),
        r@ == status_at(final(storage)@, now),
{
    storage.license = None;
    compute_status(storage, now)
}

/// Applies the server's verdict on `record` at `now`: a valid license is
/// stored with its validation time refreshed; a rejected one is removed and
/// reported invalid with the server's reason.
pub fn apply_validation_outcome(
    storage: &mut LicenseStorage,
    record: LicenseRecord,
    outcome: ValidationOutcome,
    now: i64,
) -> (r: LicenseStatus)
    ensures
        match outcome {
            ValidationOutcome::Valid => {
                &&& final(storage)@ == LicenseStorageView {
                    license: Some(LicenseRecordView { last_validated_at: now, ..record@ }),
                    ..old(storage)@
                }
                &&& r@ == status_at(final(storage)@, now)
            },
            ValidationOutcome::Rejected(reason) => {
                &&& final(storage)@ == LicenseStorageView { license: None, ..old(storage)@ }
                &&& r@ == LicenseStatusView::LicenseInvalid { reason: reason@ }
            },
        },
{
    match outcome {
        ValidationOutcome::Valid => {
            let refreshed = LicenseRecord {
                key: record.key,
                activation_id: record.activation_id,
                last_validated_at: now,
            };
            store_license(storage, refreshed, now)
        },
        ValidationOutcome::Rejected(reason) => {
            let _ = clear_license(storage, now);
            LicenseStatus::LicenseInvalid { reason }
        },
    }
}

/// Records the result of re-validating `record` at `now`: an authoritative
/// verdict is applied; a transient failure leaves the storage as it is and
/// the grace period running.
pub fn apply_revalidation(
    storage: &mut LicenseStorage,
    record: LicenseRecord,
    result: Result<ValidationOutcome, AppError>,
    now: i64,
) -> (r: LicenseStatus)
    ensures
        match result {
            Ok(ValidationOutcome::Valid) => {
                &&& final(storage)@ == LicenseStorageView {
                    license: Some(LicenseRecordView { last_validated_at: now, ..record@ }),
                    ..old(storage)@
                }
                &&& r@ == status_at(final(storage)@, now)
            },
            Ok(ValidationOutcome::Rejected(reason)) => {
                &&& final(storage)@ == LicenseStorageView { license: None, ..old(storage)@ }
                &&& r@ == LicenseStatusView::LicenseInvalid { reason: reason@ }
            },
            Err(_) => final(storage)@ == old(storage)@ && r@ == status_at(old(storage)@, now),
        },
{
    match result {
        Ok(outcome) => apply_validation_outcome(storage, record, outcome, now),
        Err(_) => compute_status(storage, now),
    }
}

/// What activating a key starts with, given the license already stored.
pub enum ActivationPlan {
    /// The same key is stored: re-validate its activation rather than take
    /// a new slot.
    Revalidate(LicenseRecord),
    /// Another key is stored: release its slot, then activate the new key.
    Replace { old: LicenseRecord, key: String },
    /// No key is stored: activate the new key.
    Activate(String),
}

/// The first step of activating `key` (trimmed) with `stored` as the
/// current license; an empty key is refused before any request.
pub fn plan_activation(key: &str, stored: Option<LicenseRecord>) -> (r: Result<
    ActivationPlan,
    AppError,
>)
    ensures
        trim(key@).len() == 0 ==> (r matches Err(AppError::LicenseValidationFailed(m)) && m@
            == "License key is empty."@),
        trim(key@).len() > 0 ==> match stored {
            Some(s) => if s.key@ == trim(key@) {
                r matches Ok(ActivationPlan::Revalidate(x)) && x@ == s@
            } else {
                r matches Ok(ActivationPlan::Replace { old, key: k }) && old@ == s@ && k@ == trim(
                    key@,
                )
            },
            None => r matches Ok(ActivationPlan::Activate(k)) && k@ == trim(key@),
        },
{
    let trimmed = trim_str(key);
    if trimmed.as_str().is_empty() {
        return Err(AppError::LicenseValidationFailed(owned("License key is empty.")));
    }
    match stored {
        Some(s) => {
            if str_eq(s.key.as_str(), trimmed.as_str()) {
                Ok(ActivationPlan::Revalidate(s))
            } else {
                Ok(ActivationPlan::Replace { old: s, key: trimmed })
            }
        },
        None => Ok(ActivationPlan::Activate(trimmed)),
    }
}

/// The message of a refused paid feature.
pub open spec fn license_required_message() -> Seq<char> {
    "Trial expired. Enter a license key in Settings to continue."@
}

/// Refuses paywalled features (recording, summarization) when the status
/// of `storage` at `now` allows none.
pub fn require_paid_entitlement(storage: &LicenseStorage, now: i64) -> (r: Result<(), AppError>)
    ensures
        ({
            let st = status_at(storage@, now);
            if st is Trial || st is Licensed {
                r is Ok
            } else {
                r matches Err(AppError::LicenseRequired(m)) && m@ == license_required_message()
            }
        }),
{
    let status = compute_status(storage, now);
    if status.allows_paid_features() {
        Ok(())
    } else {
        Err(AppError::LicenseRequired(owned("Trial expired. Enter a license key in Settings to continue.")))
    }
}

/// A license is usable exactly until its grace period ends: validated at
/// `t`, it allows paid features at every `now` from `t` up to
/// [`OFFLINE_GRACE_SECS`] later, and at none after.
pub proof fn law_grace_window(storage: LicenseStorageView, now: i64)
    requires
        storage.license is Some,
        storage.license.unwrap().last_validated_at <= i64::MAX - OFFLINE_GRACE_SECS,
    ensures
        (status_at(storage, now) is Licensed) <==> now <= storage.license.unwrap().last_validated_at
            + OFFLINE_GRACE_SECS,
{
}

/// The trial counts down: from a first launch at `t`, the status at `now`
/// is the trial exactly while `now` is within [`TRIAL_SECS`] after `t`, and
/// the days left never exceed the trial's length.
pub proof fn law_trial_window(storage: LicenseStorageView, now: i64)
    requires
        storage.license is None,
    ensures
        (status_at(storage, now) is Trial) <==> (storage.first_launch_at <= now
            && now - storage.first_launch_at < TRIAL_SECS),
        status_at(storage, now) matches LicenseStatusView::Trial { days_remaining } ==> 1
            <= days_remaining <= 14,
{
}

} // verus!

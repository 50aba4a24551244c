//! Licensing model: the trial, the stored license record, and the status
//! shown to the user.
use vstd::prelude::*;

verus! {

/// Trial duration from first launch.
pub const TRIAL_DAYS: u64 = 14;
/// How long a previously validated license stays usable while the
/// validation server is unreachable.
pub const OFFLINE_GRACE_DAYS: u64 = 7;
pub const DAY_SECS: u64 = 24 * 60 * 60;
pub const TRIAL_SECS: u64 = TRIAL_DAYS * DAY_SECS;
pub const OFFLINE_GRACE_SECS: u64 = OFFLINE_GRACE_DAYS * DAY_SECS;

/// The licensing status shown to the user.
#[derive(Debug, Clone, PartialEq)]
pub enum LicenseStatus {
    Trial { days_remaining: u32 },
    TrialExpired,
    Licensed { last_validated_at: i64, expires_grace_at: i64 },
    LicenseInvalid { reason: String },
}

pub enum LicenseStatusView {
    Trial { days_remaining: u32 },
    TrialExpired,
    Licensed { last_validated_at: i64, expires_grace_at: i64 },
    LicenseInvalid { reason: Seq<char> },
}

impl View for LicenseStatus {
    type V = LicenseStatusView;

    open spec fn view(&self) -> LicenseStatusView {
        match self {
            LicenseStatus::Trial { days_remaining } => LicenseStatusView::Trial {
                days_remaining: *days_remaining,
            },
            LicenseStatus::TrialExpired => LicenseStatusView::TrialExpired,
            LicenseStatus::Licensed { last_validated_at, expires_grace_at } =>
                LicenseStatusView::Licensed {
                last_validated_at: *last_validated_at,
                expires_grace_at: *expires_grace_at,
            },
            LicenseStatus::LicenseInvalid { reason } => LicenseStatusView::LicenseInvalid {
                reason: reason@,
            },
        }
    }
}

impl LicenseStatus {
    /// Whether paywalled features (recording, summarization) may be used:
    /// during the trial and with a license.
    pub fn allows_paid_features(&self) -> (r: bool)
        ensures
            r == (self is Trial || self is Licensed),
    {
        match self {
            LicenseStatus::Trial { .. } => true,
            LicenseStatus::Licensed { .. } => true,
            _ => false,
        }
    }
}

/// Stored record of an activated license.
#[derive(Debug, Clone, PartialEq)]
pub struct LicenseRecord {
    pub key: String,
    pub activation_id: String,
    /// Unix seconds of the last successful validation.
    pub last_validated_at: i64,
}

pub struct LicenseRecordView {
    pub key: Seq<char>,
    pub activation_id: Seq<char>,
    pub last_validated_at: i64,
}

impl View for LicenseRecord {
    type V = LicenseRecordView;

    open spec fn view(&self) -> LicenseRecordView {
        LicenseRecordView {
            key: self.key@,
            activation_id: self.activation_id@,
            last_validated_at: self.last_validated_at,
        }
    }
}

/// Stored licensing state: when the app was first launched, and the
/// license, when one is activated.
#[derive(Debug, Clone, PartialEq)]
pub struct LicenseStorage {
    /// Unix seconds of the first launch.
    pub first_launch_at: i64,
    pub license: Option<LicenseRecord>,
}

pub struct LicenseStorageView {
    pub first_launch_at: i64,
    pub license: Option<LicenseRecordView>,
}

impl View for LicenseStorage {
    type V = LicenseStorageView;

    open spec fn view(&self) -> LicenseStorageView {
        LicenseStorageView {
            first_launch_at: self.first_launch_at,
            license: match self.license {
                Some(l) => Some(l@),
                None => None,
            },
        }
    }
}

impl LicenseStorage {
    /// Storage of a first launch at `now_unix_secs`: no license yet.
    pub fn fresh(now_unix_secs: i64) -> (r: LicenseStorage)
        ensures
            r@ == (LicenseStorageView { first_launch_at: now_unix_secs, license: None }),
    {
        LicenseStorage { first_launch_at: now_unix_secs, license: None }
    }
}

} // verus!

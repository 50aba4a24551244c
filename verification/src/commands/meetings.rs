//! A meeting as the detail view shows it, and the rule on deleting one.
use vstd::prelude::*;

use crate::errors::AppError;
use crate::services::database::{MeetingDocumentRow, MeetingRow, SegmentRow};
use crate::text::{owned, str_eq};

verus! {

/// A meeting with its transcript segments and documents.
pub struct MeetingDetail {
    pub meeting: MeetingRow,
    pub segments: Vec<SegmentRow>,
    pub documents: Vec<MeetingDocumentRow>,
}

/// A meeting may be deleted unless it is the one being recorded.
pub fn check_deletable(recording_session: Option<&str>, meeting_id: &str) -> (r: Result<
    (),
    AppError,
>)
    ensures
        match recording_session {
            Some(s) => if s@ == meeting_id@ {
                r matches Err(AppError::CaptureFailed(m)) && m@
                    == "Cannot delete a meeting that is currently being recorded"@
            } else {
                r is Ok
            },
            None => r is Ok,
        },
{
    match recording_session {
        Some(s) => if str_eq(s, meeting_id) {
            Err(
                AppError::CaptureFailed(
                    owned("Cannot delete a meeting that is currently being recorded"),
                ),
            )
        } else {
            Ok(())
        },
        None => Ok(()),
    }
}

} // verus!

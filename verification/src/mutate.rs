//! The mutation engine.
//!
//! Merging an update request into a record is a total, deterministic
//! function: every payload-driven field is overwritten from the request,
//! and the designated side-effect counter is incremented by one (wrapping
//! at the 32-bit boundary) on every application, regardless of the payload.

use vstd::prelude::*;
use crate::payload::{CandidateData, RequestModel, wf_request};
use crate::record::{CandidateAccount, RecordModel, wf_record};

verus! {

/// What one application of an update does to a record.
pub open spec fn spec_apply(c: RecordModel, u: RequestModel) -> RecordModel {
    RecordModel {
        age: if c.age == u32::MAX {
            0
        } else {
            (c.age + 1) as u32
        },
        experience: u.experience,
        first_name: u.first_name,
        last_name: u.last_name,
        qualification: u.qualification,
    }
}

/// Merges `update` into a copy of `current`: the side-effect counter is
/// incremented by one (wrapping), every other field comes from the update.
pub fn apply_update(current: &CandidateAccount, update: &CandidateData) -> (r: CandidateAccount)
    ensures
        r@ == spec_apply(current@, update@),
        wf_request(update@) ==> wf_record(r@),
{
    let age: u32 = if current.age == u32::MAX {
        0
    } else {
        current.age + 1
    };
    let r = CandidateAccount {
        age,
        experience: update.experience,
        first_name: update.first_name.clone(),
        last_name: update.last_name.clone(),
        qualification: update.qualification.clone(),
    };
    proof {
        assert(r@ =~= spec_apply(current@, update@));
    }
    r
}

} // verus!

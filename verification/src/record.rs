//! The persisted record and its mathematical model.

use vstd::prelude::*;
use vstd::utf8::encode_utf8;

verus! {

/// The fixed-layout state persisted in an account buffer: two 32-bit
/// counters followed by three text fields.
///
/// `age` is the designated side-effect counter: every successful invocation
/// increments it by one (wrapping at the 32-bit boundary), regardless of the
/// payload. The remaining fields are overwritten from the update request.
#[derive(Debug, PartialEq, Eq)]
pub struct CandidateAccount {
    pub age: u32,
    pub experience: u32,
    pub first_name: String,
    pub last_name: String,
    pub qualification: String,
}

/// The mathematical model of a [`CandidateAccount`]: the same fields with
/// each text field abstracted to its character sequence.
#[verifier::ext_equal]
pub struct RecordModel {
    pub age: u32,
    pub experience: u32,
    pub first_name: Seq<char>,
    pub last_name: Seq<char>,
    pub qualification: Seq<char>,
}

impl View for CandidateAccount {
    type V = RecordModel;

    open spec fn view(&self) -> RecordModel {
        RecordModel {
            age: self.age,
            experience: self.experience,
            first_name: self.first_name@,
            last_name: self.last_name@,
            qualification: self.qualification@,
        }
    }
}

/// A record is well formed when each text field's UTF-8 encoding fits the
/// 32-bit length prefix used by the storage layout.
pub open spec fn wf_record(r: RecordModel) -> bool {
    &&& encode_utf8(r.first_name).len() <= u32::MAX
    &&& encode_utf8(r.last_name).len() <= u32::MAX
    &&& encode_utf8(r.qualification).len() <= u32::MAX
}

/// The zero-valued record that an account holds before it is first encoded.
pub open spec fn zero_record() -> RecordModel {
    RecordModel {
        age: 0,
        experience: 0,
        first_name: Seq::<char>::empty(),
        last_name: Seq::<char>::empty(),
        qualification: Seq::<char>::empty(),
    }
}

impl CandidateAccount {
    /// Builds the zero-valued record that a never-encoded account decodes to.
    pub fn zeroed() -> (r: CandidateAccount)
        ensures
            r@ =~= zero_record(),
            wf_record(r@),
    {
        CandidateAccount {
            age: 0,
            experience: 0,
            first_name: String::new(),
            last_name: String::new(),
            qualification: String::new(),
        }
    }
}

} // verus!

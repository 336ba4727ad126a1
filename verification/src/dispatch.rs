//! The dispatcher: ownership guard, then decode, mutate and encode.
//!
//! One invocation takes the caller's identity, the account buffers and the
//! raw payload bytes, works on the first buffer, and either succeeds with
//! the buffer re-encoded in place or fails with a [`FailureKind`] and the
//! buffer byte-for-byte unchanged. The guard runs first: an unauthorized
//! call fails before any payload or buffer byte is looked at.

use vstd::prelude::*;
use vstd::utf8::{valid_utf8, decode_utf8};
use crate::FailureKind;
use crate::codec::{decode, encode, spec_decode, spec_encode, lemma_decode_wf, lemma_round_trip};
use crate::mutate::{apply_update, spec_apply};
use crate::payload::{parse_payload, spec_parse_payload, lemma_parse_payload_wf};
use crate::record::wf_record;

verus! {

/// An opaque comparable token naming who owns a buffer or who is invoking.
#[derive(Debug)]
pub struct Identity {
    pub key: Vec<u8>,
}

impl View for Identity {
    type V = Seq<u8>;

    open spec fn view(&self) -> Seq<u8> {
        self.key@
    }
}

impl Identity {
    /// The ownership guard's only primitive: byte-for-byte equality.
    pub fn matches_identity(&self, other: &Identity) -> (r: bool)
        ensures
            r == (self@ == other@),
    {
        if self.key.len() != other.key.len() {
            return false;
        }
        let n = self.key.len();
        let mut i: usize = 0;
        while i < n
            invariant
                i <= n,
                n == self.key@.len(),
                n == other.key@.len(),
                forall|j: int| 0 <= j < i ==> self.key@[j] == other.key@[j],
            decreases n - i,
        {
            if self.key[i] != other.key[i] {
                return false;
            }
            i += 1;
        }
        proof {
            assert(self@ =~= other@);
        }
        true
    }
}

/// A fixed-capacity byte region together with its owner identity. The
/// library only ever changes `data`'s contents, never its length, and
/// never the owner.
#[derive(Debug)]
pub struct AccountBuffer {
    pub owner: Identity,
    pub data: Vec<u8>,
}

/// What one invocation does, as a function from the inputs to the result
/// and the buffer's new contents. The stages run in the fixed order
/// guard, payload decoding, payload parsing, record decoding, mutation,
/// capacity check, encoding; the first failing stage names the failure,
/// and on every failure the buffer keeps its old contents.
pub open spec fn spec_process(
    owner: Seq<u8>,
    invoker: Seq<u8>,
    data: Seq<u8>,
    payload: Seq<u8>,
) -> (Result<(), FailureKind>, Seq<u8>) {
    if owner != invoker {
        (Err::<(), FailureKind>(FailureKind::NotAuthorized), data)
    } else if !valid_utf8(payload) {
        (Err::<(), FailureKind>(FailureKind::InvalidEncoding), data)
    } else {
        match spec_parse_payload(decode_utf8(payload)) {
            None => (Err::<(), FailureKind>(FailureKind::MalformedPayload), data),
            Some(u) => {
                let encoded = spec_encode(spec_apply(spec_decode(data), u));
                if encoded.len() > data.len() {
                    (Err::<(), FailureKind>(FailureKind::CapacityExceeded), data)
                } else {
                    (Ok::<(), FailureKind>(()), encoded + data.skip(encoded.len() as int))
                }
            },
        }
    }
}

/// Law: the ownership gate. When the invoker does not own the buffer, the
/// invocation fails with `NotAuthorized` and the buffer's bytes stay as
/// they were — whatever the payload holds.
pub proof fn lemma_ownership_gate(owner: Seq<u8>, invoker: Seq<u8>, data: Seq<u8>, payload: Seq<u8>)
    requires
        owner != invoker,
    ensures
        spec_process(owner, invoker, data, payload).0 == Err::<(), FailureKind>(
            FailureKind::NotAuthorized,
        ),
        spec_process(owner, invoker, data, payload).1 == data,
{
}

/// Law: what a successful invocation persists. Whenever the dispatcher
/// reports success, the payload was authorized and well formed, and the
/// buffer afterwards decodes to exactly the update applied to the record
/// it held before — the side-effect counter one higher, every other field
/// taken from the payload.
pub proof fn lemma_process_persists(
    owner: Seq<u8>,
    invoker: Seq<u8>,
    data: Seq<u8>,
    payload: Seq<u8>,
)
    requires
        spec_process(owner, invoker, data, payload).0 is Ok,
    ensures
        owner == invoker,
        valid_utf8(payload),
        spec_parse_payload(decode_utf8(payload)) is Some,
        spec_decode(spec_process(owner, invoker, data, payload).1) == spec_apply(
            spec_decode(data),
            spec_parse_payload(decode_utf8(payload))->0,
        ),
{
    let request = spec_parse_payload(decode_utf8(payload))->0;
    let updated = spec_apply(spec_decode(data), request);
    lemma_parse_payload_wf(decode_utf8(payload));
    lemma_decode_wf(data);
    assert(wf_record(updated));
    lemma_round_trip(updated, data.skip(spec_encode(updated).len() as int));
}

/// Runs one invocation against a single account buffer.
pub fn process_account(
    program_id: &Identity,
    account: &mut AccountBuffer,
    instruction_data: &[u8],
) -> (r: Result<(), FailureKind>)
    ensures
        final(account).owner == old(account).owner,
        final(account).data@.len() == old(account).data@.len(),
        r == spec_process(
            old(account).owner@,
            program_id@,
            old(account).data@,
            instruction_data@,
        ).0,
        final(account).data@ == spec_process(
            old(account).owner@,
            program_id@,
            old(account).data@,
            instruction_data@,
        ).1,
{
    if !account.owner.matches_identity(program_id) {
        return Err(FailureKind::NotAuthorized);
    }
    let request = match parse_payload(instruction_data) {
        Err(kind) => {
            return Err(kind);
        },
        Ok(d) => d,
    };
    let current = decode(account.data.as_slice());
    let updated = apply_update(&current, &request);
    encode(&updated, &mut account.data)
}

/// The invocation contract: works on the first of the supplied account
/// buffers. Supplying at least one buffer is the calling runtime's
/// responsibility.
///
/// On success the first buffer holds the re-encoded record; on any failure
/// the reported kind says which stage refused and no buffer byte changed.
/// Buffers past the first, and every owner, stay untouched either way.
pub fn process_instruction(
    program_id: &Identity,
    accounts: &mut Vec<AccountBuffer>,
    instruction_data: &[u8],
) -> (r: Result<(), FailureKind>)
    requires
        old(accounts).len() >= 1,
    ensures
        final(accounts)@.len() == old(accounts)@.len(),
        forall|k: int| 1 <= k < old(accounts)@.len() ==> final(accounts)@[k] == old(accounts)@[k],
        final(accounts)@[0].owner == old(accounts)@[0].owner,
        r == spec_process(
            old(accounts)@[0].owner@,
            program_id@,
            old(accounts)@[0].data@,
            instruction_data@,
        ).0,
        final(accounts)@[0].data@ == spec_process(
            old(accounts)@[0].owner@,
            program_id@,
            old(accounts)@[0].data@,
            instruction_data@,
        ).1,
        old(accounts)@[0].owner@ != program_id@ ==> r == Err::<(), FailureKind>(
            FailureKind::NotAuthorized,
        ) && final(accounts)@[0].data@ == old(accounts)@[0].data@,
{
    let mut first = accounts.remove(0);
    let r = process_account(program_id, &mut first, instruction_data);
    accounts.insert(0, first);
    proof {
        assert(forall|k: int|
            1 <= k < old(accounts)@.len() ==> accounts@[k] == old(accounts)@[k]);
    }
    r
}

} // verus!

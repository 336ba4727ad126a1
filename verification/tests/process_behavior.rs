use candidate_store::codec::decode;
use candidate_store::dispatch::{AccountBuffer, Identity, process_instruction};
use candidate_store::payload::parse_payload;
use candidate_store::FailureKind;

fn identity(bytes: &[u8]) -> Identity {
    Identity { key: bytes.to_vec() }
}

fn fresh_account(owner: &[u8], capacity: usize) -> Vec<AccountBuffer> {
    vec![AccountBuffer { owner: identity(owner), data: vec![0u8; capacity] }]
}

const GOOD_PAYLOAD: &[u8] =
    b"{\"experience\":5,\"first_name\":\"Ada\",\"last_name\":\"Lovelace\",\"qualification\":\"Maths\"}";

#[test]
fn end_to_end_success_updates_the_record() {
    let mut accounts = fresh_account(b"P", 256);
    let before = decode(&accounts[0].data);
    assert_eq!(before.age, 0);
    let result = process_instruction(&identity(b"P"), &mut accounts, GOOD_PAYLOAD);
    assert_eq!(result, Ok(()));
    let after = decode(&accounts[0].data);
    assert_eq!(after.age, before.age + 1);
    assert_eq!(after.experience, 5);
    assert_eq!(after.first_name, "Ada");
    assert_eq!(after.last_name, "Lovelace");
    assert_eq!(after.qualification, "Maths");
}

#[test]
fn each_invocation_increments_the_side_counter_once() {
    let mut accounts = fresh_account(b"P", 256);
    for expected in 1..=3u32 {
        assert_eq!(process_instruction(&identity(b"P"), &mut accounts, GOOD_PAYLOAD), Ok(()));
        assert_eq!(decode(&accounts[0].data).age, expected);
    }
}

#[test]
fn non_matching_identity_is_rejected_before_any_work() {
    let mut accounts = fresh_account(b"P", 256);
    accounts[0].data = vec![0x5Au8; 256];
    let result = process_instruction(&identity(b"Q"), &mut accounts, GOOD_PAYLOAD);
    assert_eq!(result, Err(FailureKind::NotAuthorized));
    assert_eq!(accounts[0].data, vec![0x5Au8; 256]);
}

#[test]
fn malformed_payload_leaves_buffer_unchanged() {
    let mut accounts = fresh_account(b"P", 256);
    accounts[0].data = vec![0x77u8; 256];
    let result = process_instruction(&identity(b"P"), &mut accounts, b"not json");
    assert_eq!(result, Err(FailureKind::MalformedPayload));
    assert_eq!(accounts[0].data, vec![0x77u8; 256]);
}

#[test]
fn non_utf8_payload_is_invalid_encoding() {
    let mut accounts = fresh_account(b"P", 256);
    let result = process_instruction(&identity(b"P"), &mut accounts, &[0xFF, 0xFE, 0x01]);
    assert_eq!(result, Err(FailureKind::InvalidEncoding));
    assert_eq!(accounts[0].data, vec![0u8; 256]);
}

#[test]
fn too_small_account_fails_with_capacity_exceeded() {
    let mut accounts = fresh_account(b"P", 16);
    let result = process_instruction(&identity(b"P"), &mut accounts, GOOD_PAYLOAD);
    assert_eq!(result, Err(FailureKind::CapacityExceeded));
    assert_eq!(accounts[0].data, vec![0u8; 16]);
}

#[test]
fn later_accounts_are_never_touched() {
    let mut accounts = vec![
        AccountBuffer { owner: identity(b"P"), data: vec![0u8; 256] },
        AccountBuffer { owner: identity(b"X"), data: vec![9u8; 8] },
    ];
    assert_eq!(process_instruction(&identity(b"P"), &mut accounts, GOOD_PAYLOAD), Ok(()));
    assert_eq!(accounts.len(), 2);
    assert_eq!(accounts[1].data, vec![9u8; 8]);
    assert_eq!(accounts[1].owner.key, b"X".to_vec());
}

#[test]
fn identity_comparison_is_byte_for_byte() {
    assert!(identity(b"P").matches_identity(&identity(b"P")));
    assert!(!identity(b"P").matches_identity(&identity(b"Q")));
    assert!(!identity(b"P").matches_identity(&identity(b"PP")));
    assert!(identity(b"").matches_identity(&identity(b"")));
}

#[test]
fn payload_fields_may_come_in_any_order_with_blanks() {
    let payload = b" {\n\t\"qualification\" : \"Maths\" ,\r\n \"experience\" : 5 ,\n \"last_name\" : \"Lovelace\" ,\n \"first_name\" : \"Ada\" }\n";
    let request = parse_payload(payload).expect("well-formed document");
    assert_eq!(request.experience, 5);
    assert_eq!(request.first_name, "Ada");
    assert_eq!(request.last_name, "Lovelace");
    assert_eq!(request.qualification, "Maths");
}

#[test]
fn missing_field_is_malformed() {
    let payload = b"{\"experience\":5,\"first_name\":\"Ada\",\"last_name\":\"Lovelace\"}";
    assert_eq!(parse_payload(payload), Err(FailureKind::MalformedPayload));
}

#[test]
fn duplicate_field_is_malformed() {
    let payload = b"{\"experience\":5,\"experience\":6,\"first_name\":\"Ada\",\"last_name\":\"L\",\"qualification\":\"Q\"}";
    assert_eq!(parse_payload(payload), Err(FailureKind::MalformedPayload));
}

#[test]
fn unknown_field_is_malformed() {
    let payload = b"{\"experience\":5,\"first_name\":\"Ada\",\"last_name\":\"L\",\"qualification\":\"Q\",\"age\":9}";
    assert_eq!(parse_payload(payload), Err(FailureKind::MalformedPayload));
}

#[test]
fn empty_document_is_malformed() {
    assert_eq!(parse_payload(b"{}"), Err(FailureKind::MalformedPayload));
    assert_eq!(parse_payload(b""), Err(FailureKind::MalformedPayload));
    assert_eq!(parse_payload(b"   "), Err(FailureKind::MalformedPayload));
}

#[test]
fn trailing_text_after_document_is_malformed() {
    let payload = b"{\"experience\":5,\"first_name\":\"Ada\",\"last_name\":\"L\",\"qualification\":\"Q\"} x";
    assert_eq!(parse_payload(payload), Err(FailureKind::MalformedPayload));
}

#[test]
fn counter_value_must_fit_32_bits() {
    let over = b"{\"experience\":4294967296,\"first_name\":\"A\",\"last_name\":\"B\",\"qualification\":\"C\"}";
    assert_eq!(parse_payload(over), Err(FailureKind::MalformedPayload));
    let max = b"{\"experience\":4294967295,\"first_name\":\"A\",\"last_name\":\"B\",\"qualification\":\"C\"}";
    assert_eq!(parse_payload(max).expect("fits").experience, u32::MAX);
}

#[test]
fn counter_value_must_be_numeric() {
    let payload = b"{\"experience\":\"5\",\"first_name\":\"A\",\"last_name\":\"B\",\"qualification\":\"C\"}";
    assert_eq!(parse_payload(payload), Err(FailureKind::MalformedPayload));
}

#[test]
fn text_with_escape_character_is_malformed() {
    let payload = b"{\"experience\":5,\"first_name\":\"A\\\"da\",\"last_name\":\"B\",\"qualification\":\"C\"}";
    assert_eq!(parse_payload(payload), Err(FailureKind::MalformedPayload));
}

#[test]
fn multi_byte_text_survives_the_whole_flow() {
    let payload = format!(
        "{{\"experience\":2,\"first_name\":\"R\u{e9}my\",\"last_name\":\"\u{39b}\",\"qualification\":\"\u{2113}\"}}"
    );
    let mut accounts = fresh_account(b"P", 256);
    assert_eq!(process_instruction(&identity(b"P"), &mut accounts, payload.as_bytes()), Ok(()));
    let after = decode(&accounts[0].data);
    assert_eq!(after.first_name, "R\u{e9}my");
    assert_eq!(after.last_name, "\u{39b}");
    assert_eq!(after.qualification, "\u{2113}");
}

#[test]
fn parsed_request_matches_the_document() {
    let request = parse_payload(GOOD_PAYLOAD).expect("well-formed document");
    assert_eq!(request.experience, 5);
    assert_eq!(request.first_name, "Ada");
    assert_eq!(request.last_name, "Lovelace");
    assert_eq!(request.qualification, "Maths");
}

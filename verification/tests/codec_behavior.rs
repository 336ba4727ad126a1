use candidate_store::codec::{decode, encode};
use candidate_store::mutate::apply_update;
use candidate_store::payload::CandidateData;
use candidate_store::record::CandidateAccount;
use candidate_store::FailureKind;

fn sample_record() -> CandidateAccount {
    CandidateAccount {
        age: 7,
        experience: 12,
        first_name: String::from("Ada"),
        last_name: String::from("Lovelace"),
        qualification: String::from("Mathematics"),
    }
}

#[test]
fn round_trip_preserves_every_field() {
    let record = sample_record();
    let mut buffer = vec![0u8; 128];
    assert_eq!(encode(&record, &mut buffer), Ok(()));
    let back = decode(&buffer);
    assert_eq!(back.age, 7);
    assert_eq!(back.experience, 12);
    assert_eq!(back.first_name, "Ada");
    assert_eq!(back.last_name, "Lovelace");
    assert_eq!(back.qualification, "Mathematics");
}

#[test]
fn round_trip_of_empty_texts() {
    let record = CandidateAccount {
        age: 0,
        experience: 0,
        first_name: String::new(),
        last_name: String::new(),
        qualification: String::new(),
    };
    let mut buffer = vec![0u8; 20];
    assert_eq!(encode(&record, &mut buffer), Ok(()));
    let back = decode(&buffer);
    assert_eq!(back.age, 0);
    assert_eq!(back.experience, 0);
    assert_eq!(back.first_name, "");
    assert_eq!(back.last_name, "");
    assert_eq!(back.qualification, "");
}

#[test]
fn encoding_layout_is_exact() {
    let record = CandidateAccount {
        age: 1,
        experience: 2,
        first_name: String::from("A"),
        last_name: String::from("B"),
        qualification: String::from("C"),
    };
    let mut buffer = vec![0u8; 23];
    assert_eq!(encode(&record, &mut buffer), Ok(()));
    let expected: Vec<u8> = vec![
        1, 0, 0, 0, // age, little endian
        2, 0, 0, 0, // experience, little endian
        1, 0, 0, 0, b'A', // first_name: length prefix, then UTF-8 bytes
        1, 0, 0, 0, b'B', // last_name
        1, 0, 0, 0, b'C', // qualification
    ];
    assert_eq!(buffer, expected);
}

#[test]
fn encoding_twice_yields_identical_bytes() {
    let record = sample_record();
    let mut buffer_one = vec![0u8; 96];
    let mut buffer_two = vec![0u8; 96];
    assert_eq!(encode(&record, &mut buffer_one), Ok(()));
    assert_eq!(encode(&record, &mut buffer_two), Ok(()));
    assert_eq!(buffer_one, buffer_two);
}

#[test]
fn capacity_guard_leaves_buffer_untouched() {
    let record = sample_record();
    let mut buffer = vec![0xAAu8; 10];
    assert_eq!(encode(&record, &mut buffer), Err(FailureKind::CapacityExceeded));
    assert_eq!(buffer, vec![0xAAu8; 10]);
}

#[test]
fn capacity_boundary_is_tight() {
    let record = CandidateAccount {
        age: 9,
        experience: 9,
        first_name: String::from("xy"),
        last_name: String::new(),
        qualification: String::new(),
    };
    // 8 counter bytes + three 4-byte prefixes + 2 text bytes
    let mut exact = vec![0u8; 22];
    assert_eq!(encode(&record, &mut exact), Ok(()));
    let mut short = vec![0u8; 21];
    assert_eq!(encode(&record, &mut short), Err(FailureKind::CapacityExceeded));
    assert_eq!(short, vec![0u8; 21]);
}

#[test]
fn encode_keeps_trailing_bytes() {
    let record = CandidateAccount {
        age: 1,
        experience: 1,
        first_name: String::new(),
        last_name: String::new(),
        qualification: String::new(),
    };
    let mut buffer = vec![0x55u8; 24];
    assert_eq!(encode(&record, &mut buffer), Ok(()));
    // the encoding takes 20 bytes; the rest is untouched
    assert_eq!(&buffer[20..], &[0x55u8; 4]);
}

#[test]
fn zeroed_buffer_decodes_to_zero_record() {
    let buffer = vec![0u8; 64];
    let record = decode(&buffer);
    assert_eq!(record.age, 0);
    assert_eq!(record.experience, 0);
    assert_eq!(record.first_name, "");
    assert_eq!(record.last_name, "");
    assert_eq!(record.qualification, "");
}

#[test]
fn short_buffer_decodes_to_zero_record() {
    let record = decode(&[1, 2, 3]);
    assert_eq!(record.age, 0);
    assert_eq!(record.first_name, "");
}

#[test]
fn oversized_length_prefix_decodes_to_zero_record() {
    let mut buffer = vec![0u8; 32];
    buffer[0] = 3; // age = 3
    buffer[8] = 0xFF; // first_name claims a huge length
    buffer[9] = 0xFF;
    buffer[10] = 0xFF;
    buffer[11] = 0xFF;
    let record = decode(&buffer);
    assert_eq!(record.age, 0);
    assert_eq!(record.experience, 0);
    assert_eq!(record.first_name, "");
}

#[test]
fn invalid_utf8_in_stored_text_decodes_to_zero_record() {
    let mut buffer = vec![0u8; 32];
    buffer[8] = 1; // first_name has one byte
    buffer[12] = 0xFF; // ... which is not valid UTF-8
    let record = decode(&buffer);
    assert_eq!(record.age, 0);
    assert_eq!(record.first_name, "");
}

#[test]
fn apply_update_overwrites_and_counts() {
    let record = sample_record();
    let update = CandidateData {
        experience: 40,
        first_name: String::from("Grace"),
        last_name: String::from("Hopper"),
        qualification: String::from("PhD"),
    };
    let merged = apply_update(&record, &update);
    assert_eq!(merged.age, 8); // 7 + 1, payload-independent
    assert_eq!(merged.experience, 40);
    assert_eq!(merged.first_name, "Grace");
    assert_eq!(merged.last_name, "Hopper");
    assert_eq!(merged.qualification, "PhD");
}

#[test]
fn side_counter_wraps_at_the_32_bit_boundary() {
    let record = CandidateAccount {
        age: u32::MAX,
        experience: 0,
        first_name: String::new(),
        last_name: String::new(),
        qualification: String::new(),
    };
    let update = CandidateData {
        experience: 1,
        first_name: String::new(),
        last_name: String::new(),
        qualification: String::new(),
    };
    let merged = apply_update(&record, &update);
    assert_eq!(merged.age, 0);
}

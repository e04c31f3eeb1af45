use formana::error::FormanaError;
use formana::instruction::FormInstruction;

fn create_form() -> FormInstruction {
    FormInstruction::CreateForm {
        code: "poll-1".to_string(),
        schema_url: "https://x/schema.json".to_string(),
        encryption_key: vec![0x01, 0x02],
    }
}

fn create_submission() -> FormInstruction {
    FormInstruction::CreateSubmission {
        content_url: "https://x/answer.json".to_string(),
        symmetric_key: vec![0x9a],
    }
}

#[test]
fn create_form_packs_to_tag_and_fields() {
    let mut expected = vec![0u8, 6, 0, 0, 0];
    expected.extend_from_slice(b"poll-1");
    expected.extend_from_slice(&[21, 0, 0, 0]);
    expected.extend_from_slice(b"https://x/schema.json");
    expected.extend_from_slice(&[2, 0, 0, 0, 1, 2]);
    assert_eq!(create_form().pack(), expected);
}

#[test]
fn create_submission_packs_to_tag_and_fields() {
    let mut expected = vec![1u8, 21, 0, 0, 0];
    expected.extend_from_slice(b"https://x/answer.json");
    expected.extend_from_slice(&[1, 0, 0, 0, 0x9a]);
    assert_eq!(create_submission().pack(), expected);
}

#[test]
fn unpack_reads_create_form() {
    let bytes = create_form().pack();
    assert_eq!(FormInstruction::unpack(&bytes), Ok(create_form()));
}

#[test]
fn unpack_reads_create_submission() {
    let bytes = create_submission().pack();
    assert_eq!(FormInstruction::unpack(&bytes), Ok(create_submission()));
}

#[test]
fn commands_round_trip() {
    let commands = vec![
        create_form(),
        create_submission(),
        FormInstruction::CreateForm {
            code: String::new(),
            schema_url: String::new(),
            encryption_key: Vec::new(),
        },
        FormInstruction::CreateSubmission { content_url: String::new(), symmetric_key: Vec::new() },
        FormInstruction::CreateForm {
            code: "\u{1f600} \u{e9}\u{4e2d}".to_string(),
            schema_url: "a".repeat(300),
            encryption_key: (0..=255u8).collect(),
        },
        FormInstruction::CreateSubmission {
            content_url: "\u{0}".to_string(),
            symmetric_key: vec![0; 70_000],
        },
    ];
    for command in commands {
        let bytes = command.pack();
        assert_eq!(FormInstruction::unpack(&bytes), Ok(command));
    }
}

#[test]
fn packing_agrees_with_borsh() {
    let mut expected = vec![0u8];
    expected.extend(
        borsh::to_vec(&("poll-1".to_string(), "https://x/schema.json".to_string(), vec![1u8, 2]))
            .unwrap(),
    );
    assert_eq!(create_form().pack(), expected);

    let mut expected = vec![1u8];
    expected.extend(borsh::to_vec(&("https://x/answer.json".to_string(), vec![0x9au8])).unwrap());
    assert_eq!(create_submission().pack(), expected);
}

#[test]
fn unpacking_agrees_with_borsh() {
    let payload = borsh::to_vec(&("c\u{e9}".to_string(), "u".to_string(), vec![5u8; 40])).unwrap();
    let mut bytes = vec![0u8];
    bytes.extend(payload);
    assert_eq!(
        FormInstruction::unpack(&bytes),
        Ok(FormInstruction::CreateForm {
            code: "c\u{e9}".to_string(),
            schema_url: "u".to_string(),
            encryption_key: vec![5u8; 40],
        })
    );
}

#[test]
fn minimal_commands() {
    assert_eq!(
        FormInstruction::unpack(&[0, 0, 0, 0, 0, 0, 0, 0, 0, 0, 0, 0, 0]),
        Ok(FormInstruction::CreateForm {
            code: String::new(),
            schema_url: String::new(),
            encryption_key: Vec::new(),
        })
    );
    assert_eq!(
        FormInstruction::unpack(&[1, 0, 0, 0, 0, 0, 0, 0, 0]),
        Ok(FormInstruction::CreateSubmission {
            content_url: String::new(),
            symmetric_key: Vec::new(),
        })
    );
}

#[test]
fn empty_input_is_invalid() {
    assert_eq!(FormInstruction::unpack(&[]), Err(FormanaError::InvalidInstruction));
}

#[test]
fn unknown_tag_is_invalid() {
    let mut bytes = create_form().pack();
    for tag in 2..=255u8 {
        bytes[0] = tag;
        assert_eq!(FormInstruction::unpack(&bytes), Err(FormanaError::InvalidInstruction));
    }
    assert_eq!(FormInstruction::unpack(&[2]), Err(FormanaError::InvalidInstruction));
}

#[test]
fn tag_alone_is_invalid() {
    assert_eq!(FormInstruction::unpack(&[0]), Err(FormanaError::InvalidInstruction));
    assert_eq!(FormInstruction::unpack(&[1]), Err(FormanaError::InvalidInstruction));
}

#[test]
fn every_truncation_is_invalid() {
    for command in [create_form(), create_submission()] {
        let bytes = command.pack();
        for cut in 0..bytes.len() {
            assert_eq!(
                FormInstruction::unpack(&bytes[..cut]),
                Err(FormanaError::InvalidInstruction)
            );
        }
    }
}

#[test]
fn trailing_bytes_are_invalid() {
    for command in [create_form(), create_submission()] {
        let mut bytes = command.pack();
        bytes.push(0);
        assert_eq!(FormInstruction::unpack(&bytes), Err(FormanaError::InvalidInstruction));
    }
}

#[test]
fn a_tag_takes_only_its_own_fields() {
    let form = create_form().pack();
    let mut as_submission = form.clone();
    as_submission[0] = 1;
    assert_eq!(FormInstruction::unpack(&as_submission), Err(FormanaError::InvalidInstruction));
    let submission = create_submission().pack();
    let mut as_form = submission.clone();
    as_form[0] = 0;
    assert_eq!(FormInstruction::unpack(&as_form), Err(FormanaError::InvalidInstruction));
}

#[test]
fn length_past_the_end_is_invalid() {
    assert_eq!(
        FormInstruction::unpack(&[1, 0xff, 0xff, 0xff, 0xff, b'a', 0, 0, 0, 0]),
        Err(FormanaError::InvalidInstruction)
    );
    assert_eq!(
        FormInstruction::unpack(&[1, 1, 0, 0, 0, b'a', 2, 0, 0, 0, 7]),
        Err(FormanaError::InvalidInstruction)
    );
}

#[test]
fn text_that_is_not_utf8_is_invalid() {
    assert_eq!(
        FormInstruction::unpack(&[1, 1, 0, 0, 0, 0xff, 0, 0, 0, 0]),
        Err(FormanaError::InvalidInstruction)
    );
    // The same byte is fine in a key.
    assert_eq!(
        FormInstruction::unpack(&[1, 0, 0, 0, 0, 1, 0, 0, 0, 0xff]),
        Ok(FormInstruction::CreateSubmission {
            content_url: String::new(),
            symmetric_key: vec![0xff],
        })
    );
    assert_eq!(
        FormInstruction::unpack(&[0, 0, 0, 0, 0, 2, 0, 0, 0, 0xc3, 0x28, 0, 0, 0, 0]),
        Err(FormanaError::InvalidInstruction)
    );
    // An overlong encoding, a surrogate and a cut-off character are not UTF-8.
    assert_eq!(
        FormInstruction::unpack(&[1, 2, 0, 0, 0, 0xc0, 0x80, 0, 0, 0, 0]),
        Err(FormanaError::InvalidInstruction)
    );
    assert_eq!(
        FormInstruction::unpack(&[1, 3, 0, 0, 0, 0xed, 0xa0, 0x80, 0, 0, 0, 0]),
        Err(FormanaError::InvalidInstruction)
    );
    assert_eq!(
        FormInstruction::unpack(&[1, 1, 0, 0, 0, 0xc3, 0, 0, 0, 0]),
        Err(FormanaError::InvalidInstruction)
    );
}

#[test]
fn text_is_read_as_utf8() {
    assert_eq!(
        FormInstruction::unpack(&[1, 4, 0, 0, 0, b'a', b'b', 0xc3, 0xa9, 0, 0, 0, 0]),
        Ok(FormInstruction::CreateSubmission {
            content_url: "ab\u{e9}".to_string(),
            symmetric_key: Vec::new(),
        })
    );
    assert_eq!(
        FormInstruction::CreateSubmission {
            content_url: "h\u{e9}".to_string(),
            symmetric_key: vec![7],
        }
        .pack(),
        vec![1u8, 3, 0, 0, 0, b'h', 0xc3, 0xa9, 1, 0, 0, 0, 7]
    );
}

#[test]
fn lengths_are_little_endian() {
    let command = FormInstruction::CreateSubmission {
        content_url: "u".repeat(258),
        symmetric_key: vec![0; 65_536 + 3],
    };
    let bytes = command.pack();
    assert_eq!(bytes[1..5].to_vec(), vec![2u8, 1, 0, 0]);
    assert_eq!(bytes[263..267].to_vec(), vec![3u8, 0, 1, 0]);
    assert_eq!(bytes.len(), 1 + 4 + 258 + 4 + 65_539);
    assert_eq!(FormInstruction::unpack(&bytes), Ok(command));
}

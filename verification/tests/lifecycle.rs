use formana::address::{form_address, submission_address};
use formana::error::{FormanaError, ProcessError};
use formana::instruction::FormInstruction;
use formana::ledger::Ledger;
use formana::processor::AccountMeta;
use formana::state::{Form, Submission};

const PROGRAM: [u8; 32] = [7; 32];
const A: [u8; 32] = [0xa1; 32];
const B: [u8; 32] = [0xb2; 32];
const SYSTEM: [u8; 32] = [0; 32];
const PAYER: [u8; 32] = [0xc3; 32];

fn meta(key: [u8; 32], is_signer: bool, is_writable: bool) -> AccountMeta {
    AccountMeta { key, is_signer, is_writable }
}

fn form_request(code: &str) -> Vec<u8> {
    FormInstruction::CreateForm {
        code: code.to_string(),
        schema_url: "https://x/schema.json".to_string(),
        encryption_key: vec![0x01, 0x02],
    }
    .pack()
}

fn submission_request() -> Vec<u8> {
    FormInstruction::CreateSubmission {
        content_url: "https://x/answer.json".to_string(),
        symmetric_key: vec![0x9a],
    }
    .pack()
}

fn form_metas(creator: [u8; 32], code: &str) -> Vec<AccountMeta> {
    let (target, _) = form_address(&creator, code, &PROGRAM).unwrap();
    vec![
        meta(creator, true, false),
        meta(target, false, true),
        meta(SYSTEM, false, false),
        meta(PAYER, true, true),
    ]
}

fn submission_metas(author: [u8; 32], form: [u8; 32], code: &str) -> Vec<AccountMeta> {
    let (target, _) = submission_address(&author, code, &PROGRAM).unwrap();
    vec![
        meta(author, true, false),
        meta(form, false, true),
        meta(target, false, true),
        meta(SYSTEM, false, false),
        meta(PAYER, true, true),
    ]
}

#[test]
fn a_new_ledger_is_empty() {
    let ledger = Ledger::new();
    assert_eq!(ledger.len(), 0);
    assert!(!ledger.contains(&A));
    assert_eq!(ledger.get(&A), None);
}

#[test]
fn form_then_submission() {
    let mut ledger = Ledger::new();
    let (form_key, form_bump) = form_address(&A, "poll-1", &PROGRAM).unwrap();
    assert_eq!(
        ledger.execute(&PROGRAM, &form_metas(A, "poll-1"), &form_request("poll-1"), 1_700_000_000),
        Ok(())
    );
    assert_eq!(ledger.len(), 1);
    let stored = Form::decode(&ledger.get(&form_key).unwrap()).unwrap();
    assert_eq!(
        stored,
        Form {
            creator: A,
            code: "poll-1".to_string(),
            schema_url: "https://x/schema.json".to_string(),
            encryption_key: vec![0x01, 0x02],
            bump: form_bump,
        }
    );
    assert_eq!(ledger.get(&form_key).unwrap().len(), 74);

    let (submission_key, submission_bump) = submission_address(&B, "poll-1", &PROGRAM).unwrap();
    assert_eq!(
        ledger.execute(
            &PROGRAM,
            &submission_metas(B, form_key, "poll-1"),
            &submission_request(),
            1_700_000_123
        ),
        Ok(())
    );
    assert_eq!(ledger.len(), 2);
    let stored = Submission::decode(&ledger.get(&submission_key).unwrap()).unwrap();
    assert_eq!(
        stored,
        Submission {
            form: form_key,
            author: B,
            timestamp: 1_700_000_123,
            content_url: "https://x/answer.json".to_string(),
            symmetric_key: vec![0x9a],
            bump: submission_bump,
        }
    );
    assert_eq!(ledger.get(&submission_key).unwrap().len(), 103);
}

#[test]
fn a_form_is_created_at_most_once() {
    let mut ledger = Ledger::new();
    let (form_key, _) = form_address(&A, "poll-1", &PROGRAM).unwrap();
    let metas = form_metas(A, "poll-1");
    assert_eq!(ledger.execute(&PROGRAM, &metas, &form_request("poll-1"), 10), Ok(()));
    let first = ledger.get(&form_key).unwrap();
    assert_eq!(
        ledger.execute(&PROGRAM, &metas, &form_request("poll-1"), 20),
        Err(ProcessError::AccountAlreadyInUse)
    );
    assert_eq!(ledger.len(), 1);
    assert_eq!(ledger.get(&form_key).unwrap(), first);

    // Another schema under the same identity does not overwrite either.
    let other = FormInstruction::CreateForm {
        code: "poll-1".to_string(),
        schema_url: "https://y/other.json".to_string(),
        encryption_key: vec![9; 9],
    }
    .pack();
    assert_eq!(
        ledger.execute(&PROGRAM, &metas, &other, 30),
        Err(ProcessError::AccountAlreadyInUse)
    );
    assert_eq!(ledger.get(&form_key).unwrap(), first);
}

#[test]
fn an_author_submits_to_a_form_at_most_once() {
    let mut ledger = Ledger::new();
    let (form_key, _) = form_address(&A, "poll-1", &PROGRAM).unwrap();
    let (submission_key, _) = submission_address(&B, "poll-1", &PROGRAM).unwrap();
    ledger.execute(&PROGRAM, &form_metas(A, "poll-1"), &form_request("poll-1"), 1).unwrap();
    let metas = submission_metas(B, form_key, "poll-1");
    assert_eq!(ledger.execute(&PROGRAM, &metas, &submission_request(), 2), Ok(()));
    let first = ledger.get(&submission_key).unwrap();
    assert_eq!(
        ledger.execute(&PROGRAM, &metas, &submission_request(), 3),
        Err(ProcessError::AccountAlreadyInUse)
    );
    assert_eq!(ledger.get(&submission_key).unwrap(), first);
    assert_eq!(Submission::decode(&first).unwrap().timestamp, 2);
    // Another author has a slot of their own.
    assert_eq!(
        ledger.execute(
            &PROGRAM,
            &submission_metas(A, form_key, "poll-1"),
            &submission_request(),
            4
        ),
        Ok(())
    );
    assert_eq!(ledger.len(), 3);
}

#[test]
fn a_submission_needs_its_form() {
    let mut ledger = Ledger::new();
    let (form_key, _) = form_address(&A, "poll-1", &PROGRAM).unwrap();
    assert_eq!(
        ledger.execute(
            &PROGRAM,
            &submission_metas(B, form_key, "poll-1"),
            &submission_request(),
            5
        ),
        Err(ProcessError::Custom(FormanaError::InvalidFormAccount))
    );
    assert_eq!(ledger.len(), 0);
}

#[test]
fn a_wrong_target_changes_nothing() {
    let mut ledger = Ledger::new();
    let mut metas = form_metas(A, "poll-1");
    metas[1].key[5] ^= 1;
    assert_eq!(
        ledger.execute(&PROGRAM, &metas, &form_request("poll-1"), 5),
        Err(ProcessError::Custom(FormanaError::InvalidFormAccount))
    );
    assert_eq!(ledger.len(), 0);

    let (form_key, _) = form_address(&A, "poll-1", &PROGRAM).unwrap();
    ledger.execute(&PROGRAM, &form_metas(A, "poll-1"), &form_request("poll-1"), 6).unwrap();
    let mut metas = submission_metas(B, form_key, "poll-1");
    metas[2].key = form_key;
    assert_eq!(
        ledger.execute(&PROGRAM, &metas, &submission_request(), 7),
        Err(ProcessError::Custom(FormanaError::InvalidSubmissionAccount))
    );
    assert_eq!(ledger.len(), 1);
}

#[test]
fn failures_leave_the_ledger_as_it_was() {
    let mut ledger = Ledger::new();
    ledger.execute(&PROGRAM, &form_metas(A, "poll-1"), &form_request("poll-1"), 1).unwrap();
    let mut before = Ledger::new();
    before.execute(&PROGRAM, &form_metas(A, "poll-1"), &form_request("poll-1"), 1).unwrap();
    let mut unsigned = form_metas(A, "poll-2");
    unsigned[0].is_signer = false;
    assert_eq!(
        ledger.execute(&PROGRAM, &unsigned, &form_request("poll-2"), 2),
        Err(ProcessError::MissingRequiredSignature)
    );
    assert_eq!(
        ledger.execute(&PROGRAM, &form_metas(A, "poll-2")[..3], &form_request("poll-2"), 2),
        Err(ProcessError::NotEnoughAccountKeys)
    );
    assert_eq!(
        ledger.execute(&PROGRAM, &form_metas(A, "poll-2"), &[7, 7], 2),
        Err(ProcessError::Custom(FormanaError::InvalidInstruction))
    );
    assert_eq!(ledger, before);
}

#[test]
fn a_submission_to_a_slot_that_holds_no_form_is_refused() {
    let mut ledger = Ledger::new();
    let (form_key, _) = form_address(&A, "poll-1", &PROGRAM).unwrap();
    ledger.execute(&PROGRAM, &form_metas(A, "poll-1"), &form_request("poll-1"), 1).unwrap();
    ledger
        .execute(&PROGRAM, &submission_metas(B, form_key, "poll-1"), &submission_request(), 2)
        .unwrap();
    // A submission slot in the place of the form.
    let (submission_key, _) = submission_address(&B, "poll-1", &PROGRAM).unwrap();
    assert_eq!(
        ledger.execute(
            &PROGRAM,
            &submission_metas(A, submission_key, "poll-1"),
            &submission_request(),
            3
        ),
        Err(ProcessError::Custom(FormanaError::InvalidSubmissionData))
    );
    assert_eq!(ledger.len(), 2);
}

#[test]
fn created_slots_stay_as_they_are() {
    let mut ledger = Ledger::new();
    let mut keys = Vec::new();
    let mut contents = Vec::new();
    for (i, code) in ["a", "b", "c", "d"].iter().enumerate() {
        let (key, _) = form_address(&A, code, &PROGRAM).unwrap();
        ledger.execute(&PROGRAM, &form_metas(A, code), &form_request(code), i as u64).unwrap();
        keys.push(key);
        contents.push(ledger.get(&key).unwrap());
        for (k, c) in keys.iter().zip(contents.iter()) {
            assert_eq!(&ledger.get(k).unwrap(), c);
        }
        assert_eq!(ledger.len(), i + 1);
    }
}

#[test]
fn load_reads_the_slots() {
    let mut ledger = Ledger::new();
    let (form_key, _) = form_address(&A, "poll-1", &PROGRAM).unwrap();
    ledger.execute(&PROGRAM, &form_metas(A, "poll-1"), &form_request("poll-1"), 1).unwrap();
    let accounts = ledger.load(&[meta(form_key, false, true), meta(B, true, false)]);
    assert_eq!(accounts.len(), 2);
    assert_eq!(accounts[0].key, form_key);
    assert!(!accounts[0].is_signer);
    assert!(accounts[0].is_writable);
    assert_eq!(accounts[0].data, ledger.get(&form_key).unwrap());
    assert_eq!(accounts[1].key, B);
    assert!(accounts[1].is_signer);
    assert!(accounts[1].data.is_empty());
}

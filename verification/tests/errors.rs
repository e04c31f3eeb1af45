use formana::error::{FormanaError, ProcessError};

#[test]
fn codes_follow_the_declaration_order() {
    assert_eq!(FormanaError::InvalidInstruction.code(), 0);
    assert_eq!(FormanaError::InvalidFormAccount.code(), 1);
    assert_eq!(FormanaError::InvalidSubmissionAccount.code(), 2);
    assert_eq!(FormanaError::InvalidSubmissionData.code(), 3);
    assert_eq!(FormanaError::AccountNotWritable.code(), 4);
}

#[test]
fn codes_are_distinct() {
    let all = [
        FormanaError::InvalidInstruction,
        FormanaError::InvalidFormAccount,
        FormanaError::InvalidSubmissionAccount,
        FormanaError::InvalidSubmissionData,
        FormanaError::AccountNotWritable,
    ];
    for (i, a) in all.iter().enumerate() {
        for (j, b) in all.iter().enumerate() {
            assert_eq!(a.code() == b.code(), i == j);
        }
    }
}

#[test]
fn messages_name_the_failure() {
    assert_eq!(FormanaError::InvalidInstruction.message(), "Invalid Instruction");
    assert_eq!(FormanaError::InvalidFormAccount.message(), "Invalid Form Account");
    assert_eq!(FormanaError::InvalidSubmissionAccount.message(), "Invalid Submission Account");
    assert_eq!(FormanaError::InvalidSubmissionData.message(), "Invalid Submission Data");
    assert_eq!(FormanaError::AccountNotWritable.message(), "Account not Writable");
}

#[test]
fn process_errors_are_distinct() {
    let all = [
        ProcessError::Custom(FormanaError::InvalidInstruction),
        ProcessError::Custom(FormanaError::InvalidFormAccount),
        ProcessError::NotEnoughAccountKeys,
        ProcessError::MissingRequiredSignature,
        ProcessError::InvalidSeeds,
        ProcessError::AccountAlreadyInUse,
    ];
    for (i, a) in all.iter().enumerate() {
        for (j, b) in all.iter().enumerate() {
            assert_eq!(a == b, i == j);
        }
    }
}

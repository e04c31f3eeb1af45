//! The closed set of failures that the store reports.

use vstd::prelude::*;

verus! {

/// What can be wrong with a request, as far as the store itself decides it.
#[derive(Debug, Clone, Copy, PartialEq, Eq, Structural)]
pub enum FormanaError {
    /// The instruction bytes are not the encoding of any command.
    InvalidInstruction,
    /// The form slot is not the derived one, or is not yet created.
    InvalidFormAccount,
    /// The submission slot is not the derived one.
    InvalidSubmissionAccount,
    /// The bytes of a slot are not the encoding of any record.
    InvalidSubmissionData,
    /// A slot that had to be writable is not.
    AccountNotWritable,
}

impl FormanaError {
    /// The number under which the failure is surfaced to the caller.
    pub open spec fn spec_code(self) -> u32 {
        match self {
            FormanaError::InvalidInstruction => 0,
            FormanaError::InvalidFormAccount => 1,
            FormanaError::InvalidSubmissionAccount => 2,
            FormanaError::InvalidSubmissionData => 3,
            FormanaError::AccountNotWritable => 4,
        }
    }

    /// The number under which the failure is surfaced to the caller.
    #[verifier::when_used_as_spec(spec_code)]
    pub fn code(self) -> (code: u32)
        ensures
            code == self.spec_code(),
    {
        match self {
            FormanaError::InvalidInstruction => 0,
            FormanaError::InvalidFormAccount => 1,
            FormanaError::InvalidSubmissionAccount => 2,
            FormanaError::InvalidSubmissionData => 3,
            FormanaError::AccountNotWritable => 4,
        }
    }

    /// The failure in words.
    pub open spec fn spec_message(self) -> Seq<char> {
        match self {
            FormanaError::InvalidInstruction => "Invalid Instruction"@,
            FormanaError::InvalidFormAccount => "Invalid Form Account"@,
            FormanaError::InvalidSubmissionAccount => "Invalid Submission Account"@,
            FormanaError::InvalidSubmissionData => "Invalid Submission Data"@,
            FormanaError::AccountNotWritable => "Account not Writable"@,
        }
    }

    /// The failure in words.
    pub fn message(self) -> (text: String)
        ensures
            text@ == self.spec_message(),
    {
        match self {
            FormanaError::InvalidInstruction => "Invalid Instruction".to_owned(),
            FormanaError::InvalidFormAccount => "Invalid Form Account".to_owned(),
            FormanaError::InvalidSubmissionAccount => "Invalid Submission Account".to_owned(),
            FormanaError::InvalidSubmissionData => "Invalid Submission Data".to_owned(),
            FormanaError::AccountNotWritable => "Account not Writable".to_owned(),
        }
    }
}

/// Distinct failures are surfaced under distinct numbers.
pub proof fn lemma_codes_distinct(a: FormanaError, b: FormanaError)
    ensures
        a.spec_code() == b.spec_code() <==> a == b,
{
}

/// Why an operation on the store came to nothing. Every failure ends the
/// operation, and none leaves a part of it behind.
#[derive(Debug, Clone, Copy, PartialEq, Eq, Structural)]
pub enum ProcessError {
    /// One of the store's own failures.
    Custom(FormanaError),
    /// The request names fewer accounts than the command takes.
    NotEnoughAccountKeys,
    /// The creator or author did not sign the request.
    MissingRequiredSignature,
    /// No slot address can be derived from the record's identity.
    InvalidSeeds,
    /// The slot at the derived address is already taken.
    AccountAlreadyInUse,
}

} // verus!

//! The lifecycle of a record: a request is decoded and checked, the slot
//! address is derived and compared, and what comes out is the request to
//! the storage for one slot of the exact size, with the record that goes in.
//! The storage itself, its fees and the clock are the caller's: the caller
//! allocates as the processor asks, and writes what the processor hands it.

use solana_program::instruction::Instruction;
use solana_program::pubkey::Pubkey;
use solana_program::system_instruction;
use vstd::prelude::*;
use vstd::slice::slice_to_vec;

use crate::address::{
    derived, form_address, form_seeds, hashed_address, lemma_search_first, submission_address,
    submission_seeds, with_bump,
};
use crate::error::{FormanaError, ProcessError};
use crate::instruction::{parse, Command, FormInstruction};
use crate::state::{parse_form, Form, FormRecord, Submission, SubmissionRecord};
use crate::wire::{fits, same_address, text_bytes};

verus! {

/// An account as a call names it: its address and what the call may do
/// with it.
#[derive(Debug, Clone, Copy, PartialEq, Eq)]
pub struct AccountMeta {
    /// The account's address.
    pub key: [u8; 32],
    /// Whether the account's owner signed the request.
    pub is_signer: bool,
    /// Whether the request may change the account.
    pub is_writable: bool,
}

/// An account as a request names it: what the processor reads of it.
#[derive(Debug, Clone, PartialEq, Eq)]
pub struct Account {
    /// The account's address.
    pub key: [u8; 32],
    /// Whether the account's owner signed the request.
    pub is_signer: bool,
    /// Whether the request may change the account.
    pub is_writable: bool,
    /// The bytes in the account's slot: none where the slot is not created.
    pub data: Vec<u8>,
}

/// What an account holds, as mathematical values.
pub struct AccountView {
    pub key: Seq<u8>,
    pub is_signer: bool,
    pub is_writable: bool,
    pub data: Seq<u8>,
}

impl View for Account {
    type V = AccountView;

    open spec fn view(&self) -> AccountView {
        AccountView {
            key: self.key@,
            is_signer: self.is_signer,
            is_writable: self.is_writable,
            data: self.data@,
        }
    }
}

/// The accounts of a request, each as mathematical values.
pub open spec fn account_views(accounts: Seq<Account>) -> Seq<AccountView> {
    Seq::new(accounts.len(), |i: int| accounts[i]@)
}

/// The record that goes into a new slot.
#[derive(Debug, Clone, PartialEq, Eq)]
pub enum Record {
    Form(Form),
    /// A submission; its timestamp is set when the slot is initialized.
    Submission(Submission),
}

/// What a record holds, as mathematical values.
pub enum RecordView {
    Form(FormRecord),
    Submission(SubmissionRecord),
}

impl View for Record {
    type V = RecordView;

    open spec fn view(&self) -> RecordView {
        match *self {
            Record::Form(form) => RecordView::Form(form@),
            Record::Submission(submission) => RecordView::Submission(submission@),
        }
    }
}

impl RecordView {
    /// Whether the record is a valid one of its type.
    pub open spec fn wf(self) -> bool {
        match self {
            RecordView::Form(form) => form.wf(),
            RecordView::Submission(submission) => submission.wf(),
        }
    }

    /// The record as it stands in its slot when the slot is initialized at
    /// the time `now`: a submission takes `now` as its timestamp.
    pub open spec fn stamped(self, now: u64) -> RecordView {
        match self {
            RecordView::Form(form) => RecordView::Form(form),
            RecordView::Submission(submission) => RecordView::Submission(
                SubmissionRecord { timestamp: now, ..submission },
            ),
        }
    }

    /// The bytes of the record in its slot.
    pub open spec fn encode(self) -> Seq<u8> {
        match self {
            RecordView::Form(form) => form.encode(),
            RecordView::Submission(submission) => submission.encode(),
        }
    }
}

/// A call of another program, for the caller to make.
#[derive(Debug, Clone, PartialEq, Eq)]
pub struct Invocation {
    /// The program to call.
    pub program_id: [u8; 32],
    /// The accounts that the call names, in order.
    pub accounts: Vec<AccountMeta>,
    /// The instruction for the program, in its own encoding.
    pub data: Vec<u8>,
}

/// What a call holds, as mathematical values: the program, the accounts
/// each as address, signer and writable, and the instruction bytes.
pub struct InvocationView {
    pub program_id: Seq<u8>,
    pub accounts: Seq<(Seq<u8>, bool, bool)>,
    pub data: Seq<u8>,
}

impl View for Invocation {
    type V = InvocationView;

    open spec fn view(&self) -> InvocationView {
        InvocationView {
            program_id: self.program_id@,
            accounts: Seq::new(
                self.accounts@.len(),
                |i: int|
                    (
                        self.accounts@[i].key@,
                        self.accounts@[i].is_signer,
                        self.accounts@[i].is_writable,
                    ),
            ),
            data: self.data@,
        }
    }
}

/// The address of the system program: thirty-two zero bytes.
pub open spec fn system_program_id() -> Seq<u8> {
    Seq::new(32, |i: int| 0u8)
}

/// The instruction bytes by which the system program is asked to create an
/// account with `lamports` of funds and `space` bytes, owned by `owner`.
pub uninterp spec fn create_account_data(lamports: u64, space: u64, owner: Seq<u8>) -> Seq<u8>;

/// Builds the call that creates an account with
/// `system_instruction::create_account` of solana-program. Assumed, not
/// proved: the call goes to the system program and names two accounts, the
/// funding one and the new one, both as signers and writable, and its
/// instruction bytes are those that `create_account_data` names.
#[verifier::external_body]
pub(crate) fn system_create_account(
    from: &[u8; 32],
    to: &[u8; 32],
    lamports: u64,
    space: u64,
    owner: &[u8; 32],
) -> (call: Invocation)
    ensures
        call@.program_id == system_program_id(),
        call@.accounts == seq![(from@, true, true), (to@, true, true)],
        call@.data == create_account_data(lamports, space, owner@),
{
    let from = Pubkey::new_from_array(*from);
    let to = Pubkey::new_from_array(*to);
    let owner = Pubkey::new_from_array(*owner);
    let made: Instruction = system_instruction::create_account(&from, &to, lamports, space, &owner);
    let mut accounts = Vec::new();
    for meta in made.accounts.iter() {
        let (is_signer, is_writable) = (meta.is_signer, meta.is_writable);
        accounts.push(AccountMeta { key: meta.pubkey.to_bytes(), is_signer, is_writable });
    }
    Invocation { program_id: made.program_id.to_bytes(), accounts, data: made.data }
}

/// The request to the storage that a command comes down to: one slot at
/// the target address, of the exact size of the record, owned by the
/// program and paid for by the payer, allocated under the authority of the
/// signer seeds, to hold the record. Only the processor makes one, so the
/// target is always the derived address and the space always exact.
#[derive(Debug, PartialEq, Eq)]
pub struct Allocation {
    pub(crate) payer: [u8; 32],
    pub(crate) target: [u8; 32],
    pub(crate) space: u64,
    pub(crate) owner: [u8; 32],
    pub(crate) signer_seeds: Vec<Vec<u8>>,
    pub(crate) invoked: [usize; 3],
    pub(crate) record: Record,
}

/// What an allocation holds, as mathematical values.
pub struct Plan {
    /// The account that funds the slot.
    pub payer: Seq<u8>,
    /// The derived address of the slot.
    pub target: Seq<u8>,
    /// The exact number of bytes of the record.
    pub space: nat,
    /// The program that owns the slot.
    pub owner: Seq<u8>,
    /// The seeds of the target, the bump last: the proof that the owner may
    /// sign for the target.
    pub signer_seeds: Seq<Seq<u8>>,
    /// Where the request names the payer, the target and the system
    /// program, in this order.
    pub invoked: Seq<usize>,
    /// The record to write once the slot is allocated. A submission waits
    /// for its timestamp.
    pub record: RecordView,
}

/// The bytes of each seed of a list of owned seeds.
pub open spec fn owned_seed_bytes(seeds: Seq<Vec<u8>>) -> Seq<Seq<u8>> {
    Seq::new(seeds.len(), |i: int| seeds[i]@)
}

impl View for Allocation {
    type V = Plan;

    closed spec fn view(&self) -> Plan {
        Plan {
            payer: self.payer@,
            target: self.target@,
            space: self.space as nat,
            owner: self.owner@,
            signer_seeds: owned_seed_bytes(self.signer_seeds@),
            invoked: self.invoked@,
            record: self.record@,
        }
    }
}

impl Plan {
    /// A plan is sound when its record is valid and its space is the exact
    /// length of the record's encoding, whatever the time of writing.
    pub open spec fn wf(self) -> bool {
        &&& self.record.wf()
        &&& forall|now: u64| #[trigger] self.record.stamped(now).encode().len() == self.space
    }

    /// The bytes to write into the slot at the time `now`.
    pub open spec fn slot_bytes(self, now: u64) -> Seq<u8> {
        self.record.stamped(now).encode()
    }

    /// The call that allocates the slot with `lamports` of funds: the
    /// system program creates the target, of the plan's space and owned by
    /// the plan's owner, out of the payer's funds.
    pub open spec fn create_account(self, lamports: u64) -> InvocationView {
        InvocationView {
            program_id: system_program_id(),
            accounts: seq![(self.payer, true, true), (self.target, true, true)],
            data: create_account_data(lamports, self.space as u64, self.owner),
        }
    }
}

/// What a request to create a form comes to.
///
/// In this order: fewer than four accounts give `NotEnoughAccountKeys`; a
/// creator who did not sign gives `MissingRequiredSignature`; an identity
/// from which no address derives gives `InvalidSeeds`; a form account other
/// than the derived one gives `InvalidFormAccount`. Otherwise the slot at
/// the derived address is asked for, of the exact size of the form.
pub open spec fn create_form_plan(
    program_id: Seq<u8>,
    accounts: Seq<AccountView>,
    code: Seq<char>,
    schema_url: Seq<char>,
    encryption_key: Seq<u8>,
) -> Result<Plan, ProcessError> {
    if accounts.len() < 4 {
        Err(ProcessError::NotEnoughAccountKeys)
    } else if !accounts[0].is_signer {
        Err(ProcessError::MissingRequiredSignature)
    } else {
        match derived(form_seeds(accounts[0].key, code), program_id) {
            None => Err(ProcessError::InvalidSeeds),
            Some((address, bump)) => if address != accounts[1].key {
                Err(ProcessError::Custom(FormanaError::InvalidFormAccount))
            } else {
                Ok(
                    Plan {
                        payer: accounts[3].key,
                        target: accounts[1].key,
                        space: Form::spec_account_size(code, schema_url, encryption_key),
                        owner: program_id,
                        signer_seeds: with_bump(form_seeds(accounts[0].key, code), bump),
                        invoked: seq![3usize, 1usize, 2usize],
                        record: RecordView::Form(
                            FormRecord {
                                creator: accounts[0].key,
                                code,
                                schema_url,
                                encryption_key,
                                bump,
                            },
                        ),
                    },
                )
            },
        }
    }
}

/// What a request to create a submission comes to.
///
/// In this order: fewer than five accounts give `NotEnoughAccountKeys`; an
/// author who did not sign gives `MissingRequiredSignature`; a form slot
/// that is not writable or not yet created gives `InvalidFormAccount`; a
/// form slot that holds no valid form gives `InvalidSubmissionData`; an
/// identity from which no address derives gives `InvalidSeeds`; a
/// submission account other than the derived one gives
/// `InvalidSubmissionAccount`. Otherwise the slot at the derived address is
/// asked for, of the exact size of the submission.
pub open spec fn create_submission_plan(
    program_id: Seq<u8>,
    accounts: Seq<AccountView>,
    content_url: Seq<char>,
    symmetric_key: Seq<u8>,
) -> Result<Plan, ProcessError> {
    if accounts.len() < 5 {
        Err(ProcessError::NotEnoughAccountKeys)
    } else if !accounts[0].is_signer {
        Err(ProcessError::MissingRequiredSignature)
    } else if !accounts[1].is_writable || accounts[1].data.len() == 0 {
        Err(ProcessError::Custom(FormanaError::InvalidFormAccount))
    } else {
        match parse_form(accounts[1].data) {
            None => Err(ProcessError::Custom(FormanaError::InvalidSubmissionData)),
            Some(form) => match derived(submission_seeds(accounts[0].key, form.code), program_id) {
                None => Err(ProcessError::InvalidSeeds),
                Some((address, bump)) => if address != accounts[2].key {
                    Err(ProcessError::Custom(FormanaError::InvalidSubmissionAccount))
                } else {
                    Ok(
                        Plan {
                            payer: accounts[4].key,
                            target: accounts[2].key,
                            space: Submission::spec_account_size(content_url, symmetric_key),
                            owner: program_id,
                            signer_seeds: with_bump(
                                submission_seeds(accounts[0].key, form.code),
                                bump,
                            ),
                            invoked: seq![4usize, 2usize, 3usize],
                            record: RecordView::Submission(
                                SubmissionRecord {
                                    form: accounts[1].key,
                                    author: accounts[0].key,
                                    timestamp: 0,
                                    content_url,
                                    symmetric_key,
                                    bump,
                                },
                            ),
                        },
                    )
                },
            },
        }
    }
}

/// What a request comes to: bytes that encode no valid command give
/// `InvalidInstruction`; a command is planned as its kind says.
pub open spec fn process_plan(
    program_id: Seq<u8>,
    accounts: Seq<AccountView>,
    instruction_data: Seq<u8>,
) -> Result<Plan, ProcessError> {
    match parse(instruction_data) {
        None => Err(ProcessError::Custom(FormanaError::InvalidInstruction)),
        Some(Command::CreateForm { code, schema_url, encryption_key }) => create_form_plan(
            program_id,
            accounts,
            code,
            schema_url,
            encryption_key,
        ),
        Some(Command::CreateSubmission { content_url, symmetric_key }) => create_submission_plan(
            program_id,
            accounts,
            content_url,
            symmetric_key,
        ),
    }
}

/// The outcome of processing, as mathematical values.
pub open spec fn planned(result: Result<Allocation, ProcessError>) -> Result<Plan, ProcessError> {
    match result {
        Ok(allocation) => Ok(allocation@),
        Err(e) => Err(e),
    }
}

/// The processor: it holds no state of its own.
pub struct Processor;

impl Processor {
    /// Processes one request: decodes the command from `instruction_data`
    /// and plans it against `accounts` under the program `program_id`.
    /// Nothing is allocated or written here; on success the caller allocates
    /// what the result asks for and writes what `Allocation::initialize`
    /// hands out.
    pub fn process(program_id: &[u8; 32], accounts: &[Account], instruction_data: &[u8]) -> (result:
        Result<Allocation, ProcessError>)
        ensures
            planned(result) == process_plan(
                program_id@,
                account_views(accounts@),
                instruction_data@,
            ),
            result matches Ok(allocation) ==> allocation@.wf(),
    {
        let instruction = match FormInstruction::unpack(instruction_data) {
            Ok(instruction) => instruction,
            Err(e) => {
                return Err(ProcessError::Custom(e));
            },
        };
        match instruction {
            FormInstruction::CreateForm { code, schema_url, encryption_key } => {
                Self::process_create_form(accounts, code, schema_url, encryption_key, program_id)
            },
            FormInstruction::CreateSubmission { content_url, symmetric_key } => {
                Self::process_create_submission(accounts, content_url, symmetric_key, program_id)
            },
        }
    }

    /// Plans the creation of a form. The accounts are, in order: the
    /// creator, the form slot, the system program, the payer.
    fn process_create_form(
        accounts: &[Account],
        code: String,
        schema_url: String,
        encryption_key: Vec<u8>,
        program_id: &[u8; 32],
    ) -> (result: Result<Allocation, ProcessError>)
        requires
            fits(text_bytes(code@)),
            fits(text_bytes(schema_url@)),
            fits(encryption_key@),
        ensures
            planned(result) == create_form_plan(
                program_id@,
                account_views(accounts@),
                code@,
                schema_url@,
                encryption_key@,
            ),
            result matches Ok(allocation) ==> allocation@.wf(),
    {
        if accounts.len() < 4 {
            return Err(ProcessError::NotEnoughAccountKeys);
        }
        let authority_account = &accounts[0];
        let form_account = &accounts[1];
        let payer_account = &accounts[3];

        if !authority_account.is_signer {
            return Err(ProcessError::MissingRequiredSignature);
        }
        let (form_pda, form_bump) = match form_address(
            &authority_account.key,
            code.as_str(),
            program_id,
        ) {
            Some(found) => found,
            None => {
                return Err(ProcessError::InvalidSeeds);
            },
        };
        if !same_address(&form_pda, &form_account.key) {
            return Err(ProcessError::Custom(FormanaError::InvalidFormAccount));
        }
        let mut signer_seeds: Vec<Vec<u8>> = Vec::new();
        signer_seeds.push(slice_to_vec(authority_account.key.as_slice()));
        signer_seeds.push(slice_to_vec(code.as_str().as_bytes()));
        let mut bump_seed: Vec<u8> = Vec::new();
        bump_seed.push(form_bump);
        signer_seeds.push(bump_seed);

        let form_data = Form {
            creator: authority_account.key,
            code,
            schema_url,
            encryption_key,
            bump: form_bump,
        };
        let form_size = form_data.encoded_len();
        let allocation = Allocation {
            payer: payer_account.key,
            target: form_account.key,
            space: form_size,
            owner: *program_id,
            signer_seeds,
            invoked: [3, 1, 2],
            record: Record::Form(form_data),
        };
        proof {
            let views = account_views(accounts@);
            assert(bump_seed@ =~= seq![form_bump]);
            assert(allocation@.signer_seeds =~= with_bump(
                form_seeds(views[0].key, code@),
                form_bump,
            ));
        }
        Ok(allocation)
    }

    /// Plans the creation of a submission. The accounts are, in order: the
    /// author, the form slot, the submission slot, the system program, the
    /// payer.
    fn process_create_submission(
        accounts: &[Account],
        content_url: String,
        symmetric_key: Vec<u8>,
        program_id: &[u8; 32],
    ) -> (result: Result<Allocation, ProcessError>)
        requires
            fits(text_bytes(content_url@)),
            fits(symmetric_key@),
        ensures
            planned(result) == create_submission_plan(
                program_id@,
                account_views(accounts@),
                content_url@,
                symmetric_key@,
            ),
            result matches Ok(allocation) ==> allocation@.wf(),
    {
        if accounts.len() < 5 {
            return Err(ProcessError::NotEnoughAccountKeys);
        }
        let authority_account = &accounts[0];
        let form_account = &accounts[1];
        let submission_account = &accounts[2];
        let payer_account = &accounts[4];

        if !authority_account.is_signer {
            return Err(ProcessError::MissingRequiredSignature);
        }
        if !form_account.is_writable || form_account.data.len() == 0 {
            return Err(ProcessError::Custom(FormanaError::InvalidFormAccount));
        }
        let form_data = match Form::decode(form_account.data.as_slice()) {
            Ok(form) => form,
            Err(e) => {
                return Err(ProcessError::Custom(e));
            },
        };
        let (submission_pda, submission_bump) = match submission_address(
            &authority_account.key,
            form_data.code.as_str(),
            program_id,
        ) {
            Some(found) => found,
            None => {
                return Err(ProcessError::InvalidSeeds);
            },
        };
        if !same_address(&submission_pda, &submission_account.key) {
            return Err(ProcessError::Custom(FormanaError::InvalidSubmissionAccount));
        }
        let mut signer_seeds: Vec<Vec<u8>> = Vec::new();
        signer_seeds.push(slice_to_vec(authority_account.key.as_slice()));
        signer_seeds.push(slice_to_vec(form_data.code.as_str().as_bytes()));
        signer_seeds.push(slice_to_vec("submissions".as_bytes()));
        let mut bump_seed: Vec<u8> = Vec::new();
        bump_seed.push(submission_bump);
        signer_seeds.push(bump_seed);

        let submission_data = Submission {
            form: form_account.key,
            author: authority_account.key,
            timestamp: 0,
            content_url,
            symmetric_key,
            bump: submission_bump,
        };
        let submission_size = submission_data.encoded_len();
        let allocation = Allocation {
            payer: payer_account.key,
            target: submission_account.key,
            space: submission_size,
            owner: *program_id,
            signer_seeds,
            invoked: [4, 2, 3],
            record: Record::Submission(submission_data),
        };
        proof {
            let views = account_views(accounts@);
            assert(bump_seed@ =~= seq![submission_bump]);
            assert(allocation@.signer_seeds =~= with_bump(
                submission_seeds(views[0].key, form_data.code@),
                submission_bump,
            ));
        }
        Ok(allocation)
    }
}

impl Allocation {
    #[verifier::type_invariant]
    spec fn sound(self) -> bool {
        self@.wf()
    }

    /// The account that funds the slot.
    pub fn payer(&self) -> (key: &[u8; 32])
        ensures
            key@ == self@.payer,
    {
        &self.payer
    }

    /// The derived address of the slot.
    pub fn target(&self) -> (key: &[u8; 32])
        ensures
            key@ == self@.target,
    {
        &self.target
    }

    /// The exact number of bytes of the record.
    pub fn space(&self) -> (space: u64)
        ensures
            space == self@.space,
    {
        self.space
    }

    /// The program that owns the slot.
    pub fn owner(&self) -> (key: &[u8; 32])
        ensures
            key@ == self@.owner,
    {
        &self.owner
    }

    /// The seeds of the target, the bump last.
    pub fn signer_seeds(&self) -> (seeds: &Vec<Vec<u8>>)
        ensures
            owned_seed_bytes(seeds@) == self@.signer_seeds,
    {
        &self.signer_seeds
    }

    /// Where the request names the payer, the target and the system
    /// program, in this order.
    pub fn invoked(&self) -> (positions: [usize; 3])
        ensures
            positions@ == self@.invoked,
    {
        self.invoked
    }

    /// The record to write. A submission waits for its timestamp.
    pub fn record(&self) -> (record: &Record)
        ensures
            record@ == self@.record,
    {
        &self.record
    }

    /// The call that allocates the slot, funded with `lamports` from the
    /// payer. The caller makes it under the authority of the signer seeds.
    pub fn create_account(&self, lamports: u64) -> (call: Invocation)
        ensures
            call@ == self@.create_account(lamports),
    {
        system_create_account(&self.payer, &self.target, lamports, self.space, &self.owner)
    }

    /// Whether the record needs the time of writing.
    pub fn needs_timestamp(&self) -> (needed: bool)
        ensures
            needed == (self@.record is Submission),
    {
        match &self.record {
            Record::Form(_) => false,
            Record::Submission(_) => true,
        }
    }

    /// The bytes to write into the slot once it is allocated, at the time
    /// `now` in seconds since the epoch: they fill the slot exactly. A
    /// submission takes `now` as its timestamp; a form has none.
    pub fn initialize(self, now: u64) -> (bytes: Vec<u8>)
        ensures
            bytes@ == self@.slot_bytes(now),
            bytes.len() == self@.space,
    {
        proof {
            use_type_invariant(&self);
            assert(self@.record.stamped(now).encode().len() == self@.space);
        }
        match self.record {
            Record::Form(form) => form.encode(),
            Record::Submission(submission) => {
                let mut submission = submission;
                submission.timestamp = now;
                submission.encode()
            },
        }
    }
}

/// Where a signed request to create a form names enough
/// accounts and its identity derives an address, any form account other
/// than that address gives `InvalidFormAccount`.
pub proof fn lemma_form_address_mismatch(
    program_id: Seq<u8>,
    accounts: Seq<AccountView>,
    code: Seq<char>,
    schema_url: Seq<char>,
    encryption_key: Seq<u8>,
)
    requires
        accounts.len() >= 4,
        accounts[0].is_signer,
        derived(form_seeds(accounts[0].key, code), program_id) matches Some((address, _))
            && accounts[1].key != address,
    ensures
        create_form_plan(program_id, accounts, code, schema_url, encryption_key) == Err::<
            Plan,
            ProcessError,
        >(ProcessError::Custom(FormanaError::InvalidFormAccount)),
{
}

/// Where a signed request to create a submission names
/// enough accounts and a writable slot with a valid form in it, and its
/// identity derives an address, any submission account other than that
/// address gives `InvalidSubmissionAccount`.
pub proof fn lemma_submission_address_mismatch(
    program_id: Seq<u8>,
    accounts: Seq<AccountView>,
    content_url: Seq<char>,
    symmetric_key: Seq<u8>,
)
    requires
        accounts.len() >= 5,
        accounts[0].is_signer,
        accounts[1].is_writable,
        accounts[1].data.len() > 0,
        parse_form(accounts[1].data) matches Some(form) && derived(
            submission_seeds(accounts[0].key, form.code),
            program_id,
        ) matches Some((address, _)) && accounts[2].key != address,
    ensures
        create_submission_plan(program_id, accounts, content_url, symmetric_key) == Err::<
            Plan,
            ProcessError,
        >(ProcessError::Custom(FormanaError::InvalidSubmissionAccount)),
{
}

/// A signed request to create a submission whose form
/// slot holds no data gives `InvalidFormAccount`.
pub proof fn lemma_form_required(
    program_id: Seq<u8>,
    accounts: Seq<AccountView>,
    content_url: Seq<char>,
    symmetric_key: Seq<u8>,
)
    requires
        accounts.len() >= 5,
        accounts[0].is_signer,
        accounts[1].data.len() == 0,
    ensures
        create_submission_plan(program_id, accounts, content_url, symmetric_key) == Err::<
            Plan,
            ProcessError,
        >(ProcessError::Custom(FormanaError::InvalidFormAccount)),
{
}

/// What is planned is planned at the derived address, and under seeds that
/// hash to it: the bump is the one that deriving found, never one that the
/// request supplied.
pub proof fn lemma_plan_at_derived_address(
    program_id: Seq<u8>,
    accounts: Seq<AccountView>,
    instruction_data: Seq<u8>,
)
    requires
        process_plan(program_id, accounts, instruction_data) is Ok,
    ensures
        ({
            let plan = process_plan(program_id, accounts, instruction_data)->Ok_0;
            &&& plan.owner == program_id
            &&& hashed_address(plan.signer_seeds, plan.owner) == Some(plan.target)
            &&& plan.signer_seeds.len() > 0
            &&& derived(plan.signer_seeds.drop_last(), plan.owner) == Some(
                (plan.target, plan.signer_seeds.last()[0]),
            )
        }),
{
    match parse(instruction_data)->0 {
        Command::CreateForm { code, .. } => {
            let seeds = form_seeds(accounts[0].key, code);
            lemma_search_first(seeds, program_id, 255);
            let (_, bump) = derived(seeds, program_id)->0;
            assert(with_bump(seeds, bump).drop_last() =~= seeds);
        },
        Command::CreateSubmission { .. } => {
            let form = parse_form(accounts[1].data)->0;
            let seeds = submission_seeds(accounts[0].key, form.code);
            lemma_search_first(seeds, program_id, 255);
            let (_, bump) = derived(seeds, program_id)->0;
            assert(with_bump(seeds, bump).drop_last() =~= seeds);
        },
    }
}

/// The record that is planned carries the identity that its address is
/// derived from: a form its creator, its code and the bump; a submission
/// its author and the bump, with the code of the form in the slot that it
/// names as its form.
pub proof fn lemma_record_identity(
    program_id: Seq<u8>,
    accounts: Seq<AccountView>,
    instruction_data: Seq<u8>,
)
    requires
        process_plan(program_id, accounts, instruction_data) is Ok,
    ensures
        ({
            let plan = process_plan(program_id, accounts, instruction_data)->Ok_0;
            match plan.record {
                RecordView::Form(form) => {
                    &&& form.creator == accounts[0].key
                    &&& derived(form_seeds(form.creator, form.code), program_id) == Some(
                        (plan.target, form.bump),
                    )
                },
                RecordView::Submission(submission) => {
                    &&& submission.author == accounts[0].key
                    &&& submission.form == accounts[1].key
                    &&& parse_form(accounts[1].data) matches Some(form) && derived(
                        submission_seeds(submission.author, form.code),
                        program_id,
                    ) == Some((plan.target, submission.bump))
                },
            }
        }),
{
}

/// What is planned names its accounts in the request: the payer, the
/// target and the system program stand where the plan says, within the
/// accounts of the request.
pub proof fn lemma_invoked_accounts(
    program_id: Seq<u8>,
    accounts: Seq<AccountView>,
    instruction_data: Seq<u8>,
)
    requires
        process_plan(program_id, accounts, instruction_data) is Ok,
    ensures
        ({
            let plan = process_plan(program_id, accounts, instruction_data)->Ok_0;
            &&& plan.invoked.len() == 3
            &&& forall|i: int| 0 <= i < 3 ==> (#[trigger] plan.invoked[i]) < accounts.len()
            &&& accounts[plan.invoked[0] as int].key == plan.payer
            &&& accounts[plan.invoked[1] as int].key == plan.target
        }),
{
}

} // verus!

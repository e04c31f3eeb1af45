//! A storage to run the processor against: slots by address, held in
//! memory. It allocates as the real storage does, at most once per address
//! and never over what is there; it keeps no funds and charges no fees. On
//! it the lifecycle of the records is stated as one step, and the laws of
//! that step are proved.

use vstd::prelude::*;
use vstd::slice::slice_to_vec;

use crate::error::{FormanaError, ProcessError};
use crate::instruction::{parse, Command};
use crate::processor::{
    account_views, create_form_plan, create_submission_plan, process_plan, Account, AccountMeta,
    AccountView, Processor,
};
use crate::wire::same_address;

verus! {

/// One slot: an address and the bytes stored at it.
#[derive(Debug, PartialEq, Eq)]
struct Slot {
    address: [u8; 32],
    data: Vec<u8>,
}

/// The slots that were created, in the order of their creation.
#[derive(Debug, PartialEq, Eq)]
pub struct Ledger {
    slots: Vec<Slot>,
}

/// The bytes of the slot at `address` among `slots`, if there is one.
spec fn find(slots: Seq<Slot>, address: Seq<u8>) -> Option<Seq<u8>>
    decreases slots.len(),
{
    if slots.len() == 0 {
        None
    } else if slots.last().address@ == address {
        Some(slots.last().data@)
    } else {
        find(slots.drop_last(), address)
    }
}

impl View for Ledger {
    type V = Map<Seq<u8>, Seq<u8>>;

    /// The ledger as a map from the addresses of the created slots to the
    /// bytes in them.
    closed spec fn view(&self) -> Map<Seq<u8>, Seq<u8>> {
        slot_map(self.slots@)
    }
}

/// The data of the slot at `key`: none where the slot is not created.
pub open spec fn slot_data(ledger: Map<Seq<u8>, Seq<u8>>, key: Seq<u8>) -> Seq<u8> {
    if ledger.dom().contains(key) {
        ledger[key]
    } else {
        Seq::empty()
    }
}

/// The accounts of a request as the processor sees them: each with the
/// data that the ledger holds at its address.
pub open spec fn loaded(ledger: Map<Seq<u8>, Seq<u8>>, metas: Seq<AccountMeta>) -> Seq<
    AccountView,
> {
    Seq::new(
        metas.len(),
        |i: int|
            AccountView {
                key: metas[i].key@,
                is_signer: metas[i].is_signer,
                is_writable: metas[i].is_writable,
                data: slot_data(ledger, metas[i].key@),
            },
    )
}

/// One whole operation on the store at the time `now`: the request is
/// processed against the ledger; a request that the processor refuses
/// leaves the ledger as it is; one that it plans is allocated, unless the
/// target is taken, which gives `AccountAlreadyInUse` and leaves the ledger
/// as it is; and what is allocated holds the record from then on.
pub open spec fn step(
    ledger: Map<Seq<u8>, Seq<u8>>,
    program_id: Seq<u8>,
    metas: Seq<AccountMeta>,
    instruction_data: Seq<u8>,
    now: u64,
) -> (Map<Seq<u8>, Seq<u8>>, Result<(), ProcessError>) {
    match process_plan(program_id, loaded(ledger, metas), instruction_data) {
        Err(e) => (ledger, Err(e)),
        Ok(plan) => if ledger.dom().contains(plan.target) {
            (ledger, Err(ProcessError::AccountAlreadyInUse))
        } else {
            (ledger.insert(plan.target, plan.slot_bytes(now)), Ok(()))
        },
    }
}

/// The ledger that `slots` stand for: a map from the addresses of the
/// created slots to the bytes in them.
spec fn slot_map(slots: Seq<Slot>) -> Map<Seq<u8>, Seq<u8>> {
    Map::new(
        |address: Seq<u8>| find(slots, address) is Some,
        |address: Seq<u8>| find(slots, address)->0,
    )
}

/// One more slot is one more entry of the map.
proof fn lemma_slot_added(slots: Seq<Slot>, slot: Slot)
    ensures
        slot_map(slots.push(slot)) == slot_map(slots).insert(slot.address@, slot.data@),
{
    assert(slots.push(slot).drop_last() =~= slots);
    assert(slot_map(slots.push(slot)) =~= slot_map(slots).insert(slot.address@, slot.data@));
}

impl Ledger {
    /// Every slot has an address of its own, so there are as many addresses
    /// as slots.
    #[verifier::type_invariant]
    spec fn counted(self) -> bool {
        &&& slot_map(self.slots@).dom().finite()
        &&& slot_map(self.slots@).dom().len() == self.slots@.len()
    }

    /// A ledger without slots.
    pub fn new() -> (ledger: Ledger)
        ensures
            ledger@ == Map::<Seq<u8>, Seq<u8>>::empty(),
    {
        let slots: Vec<Slot> = Vec::new();
        assert(slot_map(slots@) =~= Map::<Seq<u8>, Seq<u8>>::empty());
        assert(slot_map(slots@).dom() =~= Set::<Seq<u8>>::empty());
        Ledger { slots }
    }

    /// The position of the slot at `address`, if it is created.
    fn position(&self, address: &[u8; 32]) -> (at: Option<usize>)
        ensures
            match at {
                Some(i) => i < self.slots.len() && find(self.slots@, address@) == Some(
                    self.slots[i as int].data@,
                ),
                None => find(self.slots@, address@) is None,
            },
    {
        let mut i: usize = self.slots.len();
        assert(self.slots@.take(i as int) =~= self.slots@);
        while i > 0
            invariant
                i <= self.slots.len(),
                find(self.slots@, address@) == find(self.slots@.take(i as int), address@),
            decreases i,
        {
            i -= 1;
            assert(self.slots@.take(i + 1).drop_last() =~= self.slots@.take(i as int));
            if same_address(&self.slots[i].address, address) {
                return Some(i);
            }
        }
        None
    }

    /// Whether the slot at `address` is created.
    pub fn contains(&self, address: &[u8; 32]) -> (created: bool)
        ensures
            created == self@.dom().contains(address@),
    {
        self.position(address).is_some()
    }

    /// The bytes in the slot at `address`: `None` where it is not created.
    pub fn get(&self, address: &[u8; 32]) -> (data: Option<Vec<u8>>)
        ensures
            match data {
                Some(bytes) => self@.dom().contains(address@) && bytes@ == self@[address@],
                None => !self@.dom().contains(address@),
            },
    {
        match self.position(address) {
            Some(i) => Some(slice_to_vec(self.slots[i].data.as_slice())),
            None => None,
        }
    }

    /// The number of slots created so far.
    pub fn len(&self) -> (count: usize)
        ensures
            self@.dom().finite(),
            count == self@.dom().len(),
    {
        proof {
            use_type_invariant(self);
        }
        self.slots.len()
    }

    /// The accounts of a request, each with the data that the ledger holds
    /// at its address.
    pub fn load(&self, metas: &[AccountMeta]) -> (accounts: Vec<Account>)
        ensures
            account_views(accounts@) == loaded(self@, metas@),
    {
        let mut accounts: Vec<Account> = Vec::new();
        let mut i: usize = 0;
        while i < metas.len()
            invariant
                i <= metas.len(),
                accounts.len() == i,
                forall|j: int| 0 <= j < i ==> (#[trigger] accounts[j])@ == loaded(self@, metas@)[j],
            decreases metas.len() - i,
        {
            let meta = &metas[i];
            let data = match self.get(&meta.key) {
                Some(bytes) => bytes,
                None => Vec::new(),
            };
            let account = Account {
                key: meta.key,
                is_signer: meta.is_signer,
                is_writable: meta.is_writable,
                data,
            };
            assert(account@.data =~= slot_data(self@, meta.key@));
            accounts.push(account);
            i += 1;
        }
        assert(account_views(accounts@) =~= loaded(self@, metas@));
        accounts
    }

    /// Runs one whole operation at the time `now`: processes the request
    /// against the ledger and, where the processor plans a slot and the slot
    /// is free, creates it with the record in it. A failure leaves the
    /// ledger as it was.
    pub fn execute(
        &mut self,
        program_id: &[u8; 32],
        metas: &[AccountMeta],
        instruction_data: &[u8],
        now: u64,
    ) -> (result: Result<(), ProcessError>)
        ensures
            (final(self)@, result) == step(
                old(self)@,
                program_id@,
                metas@,
                instruction_data@,
                now,
            ),
    {
        let accounts = self.load(metas);
        let planned = Processor::process(program_id, accounts.as_slice(), instruction_data);
        let allocation = match planned {
            Ok(allocation) => allocation,
            Err(e) => {
                return Err(e);
            },
        };
        if self.contains(allocation.target()) {
            return Err(ProcessError::AccountAlreadyInUse);
        }
        let address = *allocation.target();
        let slot = Slot { address, data: allocation.initialize(now) };
        proof {
            use_type_invariant(&*self);
            lemma_slot_added(self.slots@, slot);
            assert(slot_map(Seq::<Slot>::empty()).dom() =~= Set::<Seq<u8>>::empty());
        }
        // The slots are taken out while they grow, so that the ledger is
        // whole at every call.
        let mut slots: Vec<Slot> = Vec::new();
        core::mem::swap(&mut self.slots, &mut slots);
        slots.push(slot);
        core::mem::swap(&mut self.slots, &mut slots);
        Ok(())
    }
}

/// A signed request to create a submission to a form
/// whose slot is not created gives `InvalidFormAccount`, and changes
/// nothing.
pub proof fn lemma_submission_needs_form(
    ledger: Map<Seq<u8>, Seq<u8>>,
    program_id: Seq<u8>,
    metas: Seq<AccountMeta>,
    instruction_data: Seq<u8>,
    now: u64,
)
    requires
        parse(instruction_data) matches Some(c) && c is CreateSubmission,
        metas.len() >= 5,
        metas[0].is_signer,
        !ledger.dom().contains(metas[1].key@),
    ensures
        step(ledger, program_id, metas, instruction_data, now) == (
            ledger,
            Err::<(), ProcessError>(ProcessError::Custom(FormanaError::InvalidFormAccount)),
        ),
{
    let accounts = loaded(ledger, metas);
    assert(accounts[1].data.len() == 0);
}

/// A step adds at most one slot, and neither removes a slot
/// nor changes the bytes of one; a step that fails changes nothing.
pub proof fn lemma_append_only(
    ledger: Map<Seq<u8>, Seq<u8>>,
    program_id: Seq<u8>,
    metas: Seq<AccountMeta>,
    instruction_data: Seq<u8>,
    now: u64,
)
    ensures
        ({
            let (after, result) = step(ledger, program_id, metas, instruction_data, now);
            &&& result is Err ==> after == ledger
            &&& forall|address: Seq<u8>| #[trigger]
                ledger.dom().contains(address) ==> after.dom().contains(address) && after[address]
                    == ledger[address]
            &&& forall|a: Seq<u8>, b: Seq<u8>|
                after.dom().contains(a) && !ledger.dom().contains(a) && after.dom().contains(b)
                    && !ledger.dom().contains(b) ==> a == b
        }),
{
}

/// A step that succeeds creates the slot at the address derived from the
/// record's identity, and puts the encoding of the planned record there.
pub proof fn lemma_created_slot(
    ledger: Map<Seq<u8>, Seq<u8>>,
    program_id: Seq<u8>,
    metas: Seq<AccountMeta>,
    instruction_data: Seq<u8>,
    now: u64,
)
    requires
        step(ledger, program_id, metas, instruction_data, now).1 is Ok,
    ensures
        ({
            let after = step(ledger, program_id, metas, instruction_data, now).0;
            let plan = process_plan(program_id, loaded(ledger, metas), instruction_data)->Ok_0;
            &&& !ledger.dom().contains(plan.target)
            &&& after.dom().contains(plan.target)
            &&& after[plan.target] == plan.record.stamped(now).encode()
        }),
{
}

/// After a step that succeeded, the same request fails with
/// `AccountAlreadyInUse`, at whatever time, and leaves the slot that the
/// first step created as it is.
pub proof fn lemma_at_most_once(
    ledger: Map<Seq<u8>, Seq<u8>>,
    program_id: Seq<u8>,
    metas: Seq<AccountMeta>,
    instruction_data: Seq<u8>,
    now: u64,
    later: u64,
)
    requires
        step(ledger, program_id, metas, instruction_data, now).1 is Ok,
    ensures
        ({
            let after = step(ledger, program_id, metas, instruction_data, now).0;
            step(after, program_id, metas, instruction_data, later) == (
                after,
                Err::<(), ProcessError>(ProcessError::AccountAlreadyInUse),
            )
        }),
{
    let before = loaded(ledger, metas);
    let plan = process_plan(program_id, before, instruction_data)->Ok_0;
    let after = ledger.insert(plan.target, plan.slot_bytes(now));
    let again = loaded(after, metas);
    assert(again.len() == before.len());
    assert forall|i: int| 0 <= i < metas.len() implies (#[trigger] again[i]).key == before[i].key
        && again[i].is_signer == before[i].is_signer && again[i].is_writable
        == before[i].is_writable by {}
    match parse(instruction_data)->0 {
        Command::CreateForm { code, schema_url, encryption_key } => {
            assert(create_form_plan(program_id, again, code, schema_url, encryption_key)
                == create_form_plan(program_id, before, code, schema_url, encryption_key));
        },
        Command::CreateSubmission { content_url, symmetric_key } => {
            // The form slot was there before the step, so it is not the new slot.
            assert(before[1].data.len() > 0);
            assert(ledger.dom().contains(metas[1].key@));
            assert(metas[1].key@ != plan.target);
            assert(again[1].data == before[1].data);
            assert(create_submission_plan(program_id, again, content_url, symmetric_key)
                == create_submission_plan(program_id, before, content_url, symmetric_key));
        },
    }
}

/// After a form was created, no request to
/// create a form of the same creator and code under the same program
/// succeeds, whatever else it holds, and the ledger stays as it is.
pub proof fn lemma_form_at_most_once(
    ledger: Map<Seq<u8>, Seq<u8>>,
    program_id: Seq<u8>,
    metas: Seq<AccountMeta>,
    instruction_data: Seq<u8>,
    now: u64,
    other_metas: Seq<AccountMeta>,
    other_data: Seq<u8>,
    later: u64,
)
    requires
        step(ledger, program_id, metas, instruction_data, now).1 is Ok,
        parse(instruction_data) matches Some(first) && parse(other_data) matches Some(second)
            && first is CreateForm && second is CreateForm && first->code == second->code,
        other_metas.len() > 0,
        other_metas[0].key@ == metas[0].key@,
    ensures
        ({
            let after = step(ledger, program_id, metas, instruction_data, now).0;
            let (last, result) = step(after, program_id, other_metas, other_data, later);
            &&& last == after
            &&& result is Err
            &&& process_plan(program_id, loaded(after, other_metas), other_data) is Ok ==> result
                == Err::<(), ProcessError>(ProcessError::AccountAlreadyInUse)
        }),
{
}

} // verus!

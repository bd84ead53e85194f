//! The account-state codec and the request processor.

use vstd::prelude::*;
use vstd::array::array_index_get;
use vstd::bytes::{spec_u32_from_le_bytes, spec_u32_to_le_bytes, u32_from_le_bytes, u32_to_le_bytes};
use vstd::slice::slice_subrange;
use crate::error::{DecodeError, ProcessError};
use crate::instruction::{spec_decode_instruction, GreetingInstruction, InstructionModel};

verus! {

/// The record persisted in a storage region: exactly 8 bytes on the wire,
/// `counter` then `counter_times_2`, each 4 little-endian bytes.
#[derive(Clone, Copy, Debug, PartialEq, Eq, Structural)]
pub struct GreetingAccount {
    /// Number of greetings received so far.
    pub counter: u32,
    /// The counter doubled, stored (not recomputed lazily); every successful
    /// processor invocation re-establishes `counter_times_2 == counter * 2`.
    pub counter_times_2: u32,
}

/// The state recorded in the first 8 bytes of a region.
pub open spec fn spec_state_of(b: Seq<u8>) -> GreetingAccount
    recommends
        b.len() >= 8,
{
    GreetingAccount {
        counter: spec_u32_from_le_bytes(b.subrange(0, 4)),
        counter_times_2: spec_u32_from_le_bytes(b.subrange(4, 8)),
    }
}

/// The 8-byte sequence a state encodes to.
pub open spec fn spec_encode_state(s: GreetingAccount) -> Seq<u8> {
    spec_u32_to_le_bytes(s.counter) + spec_u32_to_le_bytes(s.counter_times_2)
}

/// What a region buffer decodes to under the strict, externally-facing path:
/// the first 8 bytes, or `TruncatedInput` when fewer are supplied.
pub open spec fn spec_decode_state(b: Seq<u8>) -> Result<GreetingAccount, DecodeError> {
    if b.len() < 8 {
        Err(DecodeError::TruncatedInput)
    } else {
        Ok(spec_state_of(b))
    }
}

/// Reading back an encoded state yields that state, whatever follows it.
pub proof fn lemma_state_of_encode(s: GreetingAccount, rest: Seq<u8>)
    ensures
        spec_encode_state(s).len() == 8,
        spec_state_of(spec_encode_state(s) + rest) == s,
{
    vstd::bytes::lemma_auto_spec_u32_to_from_le_bytes();
    let enc = spec_encode_state(s) + rest;
    assert(enc.subrange(0, 4) =~= spec_u32_to_le_bytes(s.counter));
    assert(enc.subrange(4, 8) =~= spec_u32_to_le_bytes(s.counter_times_2));
}

/// Round trip: every representable state decodes back from its encoding.
pub proof fn lemma_state_round_trip(s: GreetingAccount)
    ensures
        spec_decode_state(spec_encode_state(s)) == Ok::<GreetingAccount, DecodeError>(s),
{
    lemma_state_of_encode(s, Seq::<u8>::empty());
    assert(spec_encode_state(s) + Seq::<u8>::empty() =~= spec_encode_state(s));
}

impl GreetingAccount {
    /// A region whose counter is zero is logically uninitialized, even though
    /// its bytes are structurally valid.
    pub fn is_initialized(&self) -> (r: bool)
        ensures
            r == (self.counter != 0),
    {
        self.counter != 0
    }

    /// Encodes the state into its fixed 8-byte wire form.
    pub fn encode(&self) -> (r: Vec<u8>)
        ensures
            r@ == spec_encode_state(*self),
            r@.len() == 8,
    {
        let mut out = u32_to_le_bytes(self.counter);
        let mut doubled = u32_to_le_bytes(self.counter_times_2);
        out.append(&mut doubled);
        out
    }

    /// Decodes a region under the strict, externally-facing path.
    pub fn decode(input: &[u8]) -> (r: Result<GreetingAccount, DecodeError>)
        ensures
            r == spec_decode_state(input@),
    {
        if input.len() < 8 {
            Err(DecodeError::TruncatedInput)
        } else {
            Ok(Self::decode_permissive(input))
        }
    }

    /// The permissive first-touch path: reads the first 8 bytes of a region
    /// that is about to be overwritten, accepting any content (including the
    /// all-zero bytes of a freshly provisioned region) without validation.
    pub fn decode_permissive(input: &[u8]) -> (r: GreetingAccount)
        requires
            input@.len() >= 8,
        ensures
            r == spec_state_of(input@),
    {
        let counter = u32_from_le_bytes(slice_subrange(input, 0, 4));
        let counter_times_2 = u32_from_le_bytes(slice_subrange(input, 4, 8));
        GreetingAccount { counter, counter_times_2 }
    }
}

/// An identity value ("program id"): the 32-byte key that names the one
/// authority allowed to mutate a storage region.
#[derive(Clone, Copy, Debug)]
pub struct Identity {
    pub bytes: [u8; 32],
}

impl View for Identity {
    type V = Seq<u8>;

    open spec fn view(&self) -> Seq<u8> {
        self.bytes@
    }
}

impl Identity {
    /// Whether two identities are the same key.
    pub fn eq_id(&self, other: &Identity) -> (r: bool)
        ensures
            r == (self@ == other@),
    {
        let mut i: usize = 0;
        while i < 32
            invariant
                i <= 32,
                forall|j: int| 0 <= j < i ==> self@[j] == other@[j],
            decreases 32 - i,
        {
            if *array_index_get(&self.bytes, i) != *array_index_get(&other.bytes, i) {
                return false;
            }
            i += 1;
        }
        proof {
            assert(self@ =~= other@);
        }
        true
    }
}

/// The state transition applied by an `InitGreeting` request on a region
/// whose owner matches the supplied authority: the counter grows by
/// `num_greetings`, its stored double is re-derived, and the new 8-byte state
/// overwrites the start of the region, the rest of which is untouched.
/// A sum whose double would not fit in 32 bits is an explicit error, never a
/// silent wraparound.
pub open spec fn spec_apply_greeting(
    authority: Seq<u8>,
    owner: Seq<u8>,
    num_greetings: u32,
    region: Seq<u8>,
) -> Result<Seq<u8>, ProcessError>
    recommends
        region.len() >= 8,
{
    if owner != authority {
        Err(ProcessError::AccessDenied)
    } else {
        let new_counter = spec_state_of(region).counter + num_greetings;
        if new_counter * 2 > u32::MAX {
            Err(ProcessError::Overflow)
        } else {
            let new_state = GreetingAccount {
                counter: new_counter as u32,
                counter_times_2: (new_counter * 2) as u32,
            };
            Ok(spec_encode_state(new_state) + region.skip(8))
        }
    }
}

/// One whole request: decode the instruction, dispatch on its variant, check
/// the authority, and apply the transition. Each step's failure
/// short-circuits all later ones.
pub open spec fn spec_process(
    authority: Seq<u8>,
    owner: Seq<u8>,
    instr: Seq<u8>,
    region: Seq<u8>,
) -> Result<Seq<u8>, ProcessError>
    recommends
        region.len() >= 8,
{
    match spec_decode_instruction(instr) {
        Err(e) => Err(ProcessError::InvalidInstruction(e)),
        Ok(InstructionModel::InitGreeting(a)) => spec_apply_greeting(
            authority,
            owner,
            a.num_greetings,
            region,
        ),
        Ok(InstructionModel::InitGreeting2(_)) => Err(ProcessError::Unsupported),
    }
}

/// Overwrites the start of `region` with `data`, leaving the rest untouched.
fn write_prefix(region: &mut Vec<u8>, data: &Vec<u8>)
    requires
        data@.len() <= old(region)@.len(),
    ensures
        final(region)@ == data@ + old(region)@.skip(data@.len() as int),
{
    let mut i: usize = 0;
    while i < data.len()
        invariant
            i <= data@.len() <= region@.len(),
            region@.len() == old(region)@.len(),
            forall|j: int| 0 <= j < i ==> region@[j] == data@[j],
            forall|j: int| i <= j < region@.len() ==> region@[j] == old(region)@[j],
        decreases data@.len() - i,
    {
        let b = data[i];
        region.set(i, b);
        i += 1;
    }
    proof {
        assert(region@ =~= data@ + old(region)@.skip(data@.len() as int));
    }
}

/// The request processor. It owns no data: each call is a function of its
/// explicit inputs plus exclusive write access to the caller's region.
pub struct Processor;

impl Processor {
    /// Handles one request against the storage region `region`, whose
    /// recorded owner is `owner_id_of_region`, on behalf of the authority
    /// `authority_id`. On success the region holds the re-encoded new state;
    /// on any error it is byte-for-byte unchanged.
    pub fn process(
        authority_id: &Identity,
        owner_id_of_region: &Identity,
        instruction_data: &[u8],
        region: &mut Vec<u8>,
    ) -> (r: Result<(), ProcessError>)
        requires
            old(region)@.len() >= 8,
        ensures
            spec_process(authority_id@, owner_id_of_region@, instruction_data@, old(region)@)
                matches Ok(new_bytes) ==> r is Ok && final(region)@ == new_bytes,
            spec_process(authority_id@, owner_id_of_region@, instruction_data@, old(region)@)
                matches Err(e) ==> r == Err::<(), ProcessError>(e),
            r is Err ==> final(region)@ == old(region)@,
            final(region)@.len() == old(region)@.len(),
            r is Ok ==> spec_state_of(final(region)@).counter_times_2
                == spec_state_of(final(region)@).counter * 2,
    {
        let instruction = match GreetingInstruction::decode(instruction_data) {
            Ok(i) => i,
            Err(e) => {
                return Err(ProcessError::InvalidInstruction(e));
            },
        };
        match instruction {
            GreetingInstruction::InitGreeting(args) => Self::process_greeting(
                authority_id,
                owner_id_of_region,
                args.num_greetings,
                region,
            ),
            GreetingInstruction::InitGreeting2(_) => Err(ProcessError::Unsupported),
        }
    }

    /// The `InitGreeting` mutation: authority check, permissive read of the
    /// current state, checked accumulation, and the in-place write back.
    fn process_greeting(
        authority_id: &Identity,
        owner_id_of_region: &Identity,
        num_greetings: u32,
        region: &mut Vec<u8>,
    ) -> (r: Result<(), ProcessError>)
        requires
            old(region)@.len() >= 8,
        ensures
            spec_apply_greeting(authority_id@, owner_id_of_region@, num_greetings, old(region)@)
                matches Ok(new_bytes) ==> r is Ok && final(region)@ == new_bytes,
            spec_apply_greeting(authority_id@, owner_id_of_region@, num_greetings, old(region)@)
                matches Err(e) ==> r == Err::<(), ProcessError>(e),
            r is Err ==> final(region)@ == old(region)@,
            final(region)@.len() == old(region)@.len(),
            r is Ok ==> spec_state_of(final(region)@).counter_times_2
                == spec_state_of(final(region)@).counter * 2,
    {
        if !owner_id_of_region.eq_id(authority_id) {
            return Err(ProcessError::AccessDenied);
        }
        let state = GreetingAccount::decode_permissive(region.as_slice());
        let sum: u64 = state.counter as u64 + num_greetings as u64;
        if sum > (u32::MAX / 2) as u64 {
            return Err(ProcessError::Overflow);
        }
        let new_counter: u32 = sum as u32;
        let new_state = GreetingAccount { counter: new_counter, counter_times_2: new_counter * 2 };
        let encoded = new_state.encode();
        write_prefix(region, &encoded);
        proof {
            lemma_state_of_encode(new_state, old(region)@.skip(8));
        }
        Ok(())
    }
}

/// After any successful `process` request the stored derived field is exactly
/// the doubled counter.
pub proof fn lemma_invariant_preserved(
    authority: Seq<u8>,
    owner: Seq<u8>,
    instr: Seq<u8>,
    region: Seq<u8>,
)
    requires
        region.len() >= 8,
        spec_process(authority, owner, instr, region) matches Ok(_),
    ensures
        spec_process(authority, owner, instr, region) matches Ok(new_bytes)
            ==> spec_state_of(new_bytes).counter_times_2 == spec_state_of(new_bytes).counter * 2,
{
    if let Ok(new_bytes) = spec_process(authority, owner, instr, region) {
        if let Ok(InstructionModel::InitGreeting(a)) = spec_decode_instruction(instr) {
            let new_counter = spec_state_of(region).counter + a.num_greetings;
            let new_state = GreetingAccount {
                counter: new_counter as u32,
                counter_times_2: (new_counter * 2) as u32,
            };
            lemma_state_of_encode(new_state, region.skip(8));
        }
    }
}

/// A request whose instruction decodes to the reserved `InitGreeting2`
/// variant always fails with `Unsupported`, whatever the identities or the
/// region hold: an explicit failure, never a silent no-op.
pub proof fn lemma_second_variant_unsupported(
    authority: Seq<u8>,
    owner: Seq<u8>,
    instr: Seq<u8>,
    region: Seq<u8>,
)
    requires
        region.len() >= 8,
        spec_decode_instruction(instr) matches Ok(InstructionModel::InitGreeting2(_)),
    ensures
        spec_process(authority, owner, instr, region)
            == Err::<Seq<u8>, ProcessError>(ProcessError::Unsupported),
{
}

/// A request whose instruction decodes to `InitGreeting` is always rejected
/// with `AccessDenied` when the region's recorded owner differs from the
/// supplied authority, whatever the region holds.
pub proof fn lemma_mismatched_authority_denied(
    authority: Seq<u8>,
    owner: Seq<u8>,
    instr: Seq<u8>,
    region: Seq<u8>,
)
    requires
        region.len() >= 8,
        owner != authority,
        spec_decode_instruction(instr) matches Ok(InstructionModel::InitGreeting(_)),
    ensures
        spec_process(authority, owner, instr, region)
            == Err::<Seq<u8>, ProcessError>(ProcessError::AccessDenied),
{
}

} // verus!

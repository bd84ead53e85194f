//! The instruction codec.
//!
//! The canonical wire format is the self-describing scheme: byte 0 is the
//! variant discriminant (`0` = `InitGreeting`, `1` = `InitGreeting2`), and the
//! payload is `num_greetings` as 4 little-endian bytes, then the text's byte
//! length as 4 little-endian bytes, then the text's raw UTF-8 bytes. An
//! earlier fixed-length scheme (tag byte plus 4 counter bytes, no text) is a
//! historical design note and is not produced or accepted here.

use vstd::prelude::*;
use vstd::bytes::{spec_u32_from_le_bytes, spec_u32_to_le_bytes, u32_from_le_bytes, u32_to_le_bytes};
use vstd::slice::{slice_subrange, slice_to_vec};
use vstd::utf8::{decode_utf8, encode_utf8, valid_utf8};
use crate::error::DecodeError;

verus! {

/// Payload of an `InitGreeting` (or `InitGreeting2`) request.
#[derive(Clone, Debug, PartialEq)]
pub struct InitGreetingArgs {
    /// How much to increment the stored counter by.
    pub num_greetings: u32,
    /// Free-form text carried along with the request; the processor does not
    /// interpret it.
    pub greeting_string: String,
}

/// A decoded, typed request to mutate the stored state.
#[derive(Clone, Debug, PartialEq)]
pub enum GreetingInstruction {
    /// Increment the greeting counter.
    InitGreeting(InitGreetingArgs),
    /// Structurally identical to `InitGreeting`, reserved to exercise forward
    /// compatibility; dispatching it is an explicit failure, never a no-op.
    InitGreeting2(InitGreetingArgs),
}

/// Mathematical model of `InitGreetingArgs`: the text is a character sequence.
pub struct ArgsModel {
    pub num_greetings: u32,
    pub greeting_string: Seq<char>,
}

/// Mathematical model of `GreetingInstruction`.
pub enum InstructionModel {
    InitGreeting(ArgsModel),
    InitGreeting2(ArgsModel),
}

impl View for InitGreetingArgs {
    type V = ArgsModel;

    open spec fn view(&self) -> ArgsModel {
        ArgsModel { num_greetings: self.num_greetings, greeting_string: self.greeting_string@ }
    }
}

impl View for GreetingInstruction {
    type V = InstructionModel;

    open spec fn view(&self) -> InstructionModel {
        match self {
            GreetingInstruction::InitGreeting(a) => InstructionModel::InitGreeting(a@),
            GreetingInstruction::InitGreeting2(a) => InstructionModel::InitGreeting2(a@),
        }
    }
}

impl InstructionModel {
    /// The arguments carried by either variant.
    pub open spec fn args(self) -> ArgsModel {
        match self {
            InstructionModel::InitGreeting(a) => a,
            InstructionModel::InitGreeting2(a) => a,
        }
    }

    /// The wire format stores the text's byte length in 4 bytes, so only
    /// instructions whose text encodes to at most `u32::MAX` bytes have an
    /// encoding.
    pub open spec fn encodable(self) -> bool {
        encode_utf8(self.args().greeting_string).len() <= u32::MAX
    }
}

/// The byte sequence an argument payload encodes to.
pub open spec fn spec_encode_args(a: ArgsModel) -> Seq<u8> {
    spec_u32_to_le_bytes(a.num_greetings)
        + spec_u32_to_le_bytes(encode_utf8(a.greeting_string).len() as u32)
        + encode_utf8(a.greeting_string)
}

/// The byte sequence an instruction encodes to: discriminant, then payload.
pub open spec fn spec_encode_instruction(i: InstructionModel) -> Seq<u8> {
    match i {
        InstructionModel::InitGreeting(a) => seq![0u8] + spec_encode_args(a),
        InstructionModel::InitGreeting2(a) => seq![1u8] + spec_encode_args(a),
    }
}

/// What an argument payload decodes to: the counter increment from the first
/// 4 bytes, the text's byte length from the next 4, then that many text
/// bytes. Trailing bytes beyond the declared text are ignored.
pub open spec fn spec_decode_args(b: Seq<u8>) -> Result<ArgsModel, DecodeError> {
    if b.len() < 8 {
        Err(DecodeError::TruncatedInput)
    } else {
        let text_len = spec_u32_from_le_bytes(b.subrange(4, 8)) as int;
        if b.len() < 8 + text_len {
            Err(DecodeError::TruncatedInput)
        } else {
            let text = b.subrange(8, 8 + text_len);
            if valid_utf8(text) {
                Ok(ArgsModel {
                    num_greetings: spec_u32_from_le_bytes(b.subrange(0, 4)),
                    greeting_string: decode_utf8(text),
                })
            } else {
                Err(DecodeError::InvalidText)
            }
        }
    }
}

/// What an instruction buffer decodes to: the discriminant byte selects the
/// variant, the remaining bytes are the argument payload. An empty buffer is
/// truncated; an unrecognized discriminant is always a failure, never a
/// default case.
pub open spec fn spec_decode_instruction(b: Seq<u8>) -> Result<InstructionModel, DecodeError> {
    if b.len() < 1 {
        Err(DecodeError::TruncatedInput)
    } else if b[0] == 0u8 {
        match spec_decode_args(b.skip(1)) {
            Ok(a) => Ok(InstructionModel::InitGreeting(a)),
            Err(e) => Err(e),
        }
    } else if b[0] == 1u8 {
        match spec_decode_args(b.skip(1)) {
            Ok(a) => Ok(InstructionModel::InitGreeting2(a)),
            Err(e) => Err(e),
        }
    } else {
        Err(DecodeError::UnknownVariant)
    }
}

/// Appends the wire encoding of `args` to `out`.
fn encode_args_into(args: &InitGreetingArgs, out: &mut Vec<u8>)
    requires
        encode_utf8(args.greeting_string@).len() <= u32::MAX,
    ensures
        final(out)@ == old(out)@ + spec_encode_args(args@),
{
    let mut counter_bytes = u32_to_le_bytes(args.num_greetings);
    out.append(&mut counter_bytes);
    let text: &[u8] = args.greeting_string.as_str().as_bytes();
    let text_len: u32 = text.len() as u32;
    let mut len_bytes = u32_to_le_bytes(text_len);
    out.append(&mut len_bytes);
    let mut text_bytes = slice_to_vec(text);
    out.append(&mut text_bytes);
}

/// Relies on `String::from_utf8` (std): it returns `Ok` exactly when the
/// bytes are valid UTF-8, and the returned string's characters are the
/// decoding of those bytes.
#[verifier::external_body]
fn string_from_utf8(bytes: Vec<u8>) -> (r: Option<String>)
    ensures
        match r {
            Some(s) => valid_utf8(bytes@) && s@ == decode_utf8(bytes@),
            None => !valid_utf8(bytes@),
        },
{
    match String::from_utf8(bytes) {
        Ok(s) => Some(s),
        Err(_) => None,
    }
}

/// Decodes an argument payload, mirroring `spec_decode_args`.
fn decode_args(input: &[u8]) -> (r: Result<InitGreetingArgs, DecodeError>)
    ensures
        match (r, spec_decode_args(input@)) {
            (Ok(args), Ok(m)) => args@ == m,
            (Err(e), Err(f)) => e == f,
            _ => false,
        },
{
    if input.len() < 8 {
        return Err(DecodeError::TruncatedInput);
    }
    let num_greetings = u32_from_le_bytes(slice_subrange(input, 0, 4));
    let text_len32 = u32_from_le_bytes(slice_subrange(input, 4, 8));
    let text_len = text_len32 as usize;
    if text_len > input.len() - 8 {
        return Err(DecodeError::TruncatedInput);
    }
    let text_bytes = slice_to_vec(slice_subrange(input, 8, 8 + text_len));
    match string_from_utf8(text_bytes) {
        Some(greeting_string) => Ok(InitGreetingArgs { num_greetings, greeting_string }),
        None => Err(DecodeError::InvalidText),
    }
}

impl GreetingInstruction {
    /// Encodes the instruction into the canonical wire format.
    pub fn encode(&self) -> (r: Vec<u8>)
        requires
            self@.encodable(),
        ensures
            r@ == spec_encode_instruction(self@),
    {
        let mut out: Vec<u8> = Vec::new();
        match self {
            GreetingInstruction::InitGreeting(args) => {
                out.push(0u8);
                encode_args_into(args, &mut out);
            },
            GreetingInstruction::InitGreeting2(args) => {
                out.push(1u8);
                encode_args_into(args, &mut out);
            },
        }
        proof {
            assert(seq![0u8] =~= Seq::<u8>::empty().push(0u8));
            assert(seq![1u8] =~= Seq::<u8>::empty().push(1u8));
        }
        out
    }

    /// Decodes an instruction from the canonical wire format. Total: for any
    /// input, including an empty one, it returns a value or a typed error and
    /// reads no byte beyond the declared structure.
    pub fn decode(input: &[u8]) -> (r: Result<GreetingInstruction, DecodeError>)
        ensures
            match (r, spec_decode_instruction(input@)) {
                (Ok(i), Ok(m)) => i@ == m,
                (Err(e), Err(f)) => e == f,
                _ => false,
            },
    {
        if input.len() == 0 {
            return Err(DecodeError::TruncatedInput);
        }
        let tag = *vstd::slice::slice_index_get(input, 0);
        if tag >= 2 {
            return Err(DecodeError::UnknownVariant);
        }
        let rest = slice_subrange(input, 1, input.len());
        proof {
            assert(rest@ =~= input@.skip(1));
        }
        match decode_args(rest) {
            Err(e) => Err(e),
            Ok(args) => {
                if tag == 0 {
                    Ok(GreetingInstruction::InitGreeting(args))
                } else {
                    Ok(GreetingInstruction::InitGreeting2(args))
                }
            },
        }
    }
}

/// A declared text length that exceeds the bytes remaining after the header
/// always decodes to `TruncatedInput`, for either recognized variant.
pub proof fn lemma_declared_text_length_truncated(b: Seq<u8>)
    requires
        b.len() >= 9,
        b[0] == 0u8 || b[0] == 1u8,
        spec_u32_from_le_bytes(b.subrange(5, 9)) > b.len() - 9,
    ensures
        spec_decode_instruction(b) == Err::<InstructionModel, DecodeError>(
            DecodeError::TruncatedInput,
        ),
{
    let rest = b.skip(1);
    assert(rest.subrange(4, 8) =~= b.subrange(5, 9));
}

/// Round trip: every encodable instruction decodes back from its encoding.
pub proof fn lemma_instruction_round_trip(x: InstructionModel)
    requires
        x.encodable(),
    ensures
        spec_decode_instruction(spec_encode_instruction(x)) == Ok::<InstructionModel, DecodeError>(x),
{
    vstd::bytes::lemma_auto_spec_u32_to_from_le_bytes();
    let a = x.args();
    let text = encode_utf8(a.greeting_string);
    let payload = spec_encode_args(a);
    let enc = spec_encode_instruction(x);
    assert(payload.len() == 8 + text.len());
    assert(enc.len() == 1 + payload.len());
    assert(enc.skip(1) =~= payload);
    assert(payload.subrange(0, 4) =~= spec_u32_to_le_bytes(a.num_greetings));
    assert(payload.subrange(4, 8) =~= spec_u32_to_le_bytes(text.len() as u32));
    assert(spec_u32_from_le_bytes(payload.subrange(4, 8)) == text.len());
    assert(payload.subrange(8, 8 + text.len() as int) =~= text);
    vstd::utf8::encode_utf8_valid_utf8(a.greeting_string);
    vstd::utf8::encode_utf8_decode_utf8(a.greeting_string);
    assert(spec_decode_args(payload) == Ok::<ArgsModel, DecodeError>(a));
}

} // verus!

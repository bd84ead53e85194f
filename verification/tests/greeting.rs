use helloworld::error::{DecodeError, ProcessError};
use helloworld::instruction::{GreetingInstruction, InitGreetingArgs};
use helloworld::processor::{GreetingAccount, Identity, Processor};

fn zero_id() -> Identity {
    Identity { bytes: [0u8; 32] }
}

fn encode_init_greeting(num_greetings: u32, greeting_string: &str) -> Vec<u8> {
    GreetingInstruction::InitGreeting(InitGreetingArgs {
        num_greetings,
        greeting_string: String::from(greeting_string),
    })
    .encode()
}

#[test]
fn test_sanity() {
    let program_id = zero_id();
    let owner = zero_id();
    let mut data = vec![0u8; 8];

    let instruction_data = encode_init_greeting(1, "hello");

    assert_eq!(GreetingAccount::decode(&data).unwrap().counter, 0);
    Processor::process(&program_id, &owner, &instruction_data, &mut data).unwrap();
    assert_eq!(GreetingAccount::decode(&data).unwrap().counter, 1);
    Processor::process(&program_id, &owner, &instruction_data, &mut data).unwrap();
    assert_eq!(GreetingAccount::decode(&data).unwrap().counter, 2);
}

#[test]
fn instruction_round_trip() {
    let original = GreetingInstruction::InitGreeting(InitGreetingArgs {
        num_greetings: 42,
        greeting_string: String::from("h\u{e9}llo w\u{f6}rld \u{2713}"),
    });
    let encoded = original.encode();
    let decoded = GreetingInstruction::decode(&encoded).unwrap();
    assert_eq!(decoded, original);
}

#[test]
fn instruction_round_trip_second_variant() {
    let original = GreetingInstruction::InitGreeting2(InitGreetingArgs {
        num_greetings: 0,
        greeting_string: String::new(),
    });
    let encoded = original.encode();
    assert_eq!(encoded[0], 1);
    let decoded = GreetingInstruction::decode(&encoded).unwrap();
    assert_eq!(decoded, original);
}

#[test]
fn instruction_encode_exact_bytes() {
    let encoded = encode_init_greeting(258, "hi");
    assert_eq!(encoded, vec![0, 2, 1, 0, 0, 2, 0, 0, 0, b'h', b'i']);
}

#[test]
fn state_round_trip() {
    let state = GreetingAccount { counter: 5, counter_times_2: 10 };
    assert_eq!(GreetingAccount::decode(&state.encode()).unwrap(), state);
    // the codec round-trips any representable state, invariant or not
    let raw = GreetingAccount { counter: 7, counter_times_2: 9 };
    assert_eq!(GreetingAccount::decode(&raw.encode()).unwrap(), raw);
}

#[test]
fn state_encode_exact_bytes() {
    let state = GreetingAccount { counter: 2, counter_times_2: 4 };
    assert_eq!(state.encode(), vec![2, 0, 0, 0, 4, 0, 0, 0]);
}

#[test]
fn decode_never_panics_on_any_short_buffer() {
    let pattern = encode_init_greeting(77, "abc");
    for len in 0..pattern.len() {
        let r = GreetingInstruction::decode(&pattern[..len]);
        if len < pattern.len() {
            assert!(r.is_err());
        }
    }
    for len in 0..64usize {
        let buf = vec![0xA5u8; len];
        let _ = GreetingInstruction::decode(&buf);
    }
}

#[test]
fn zero_length_instruction_is_truncated() {
    assert_eq!(GreetingInstruction::decode(&[]), Err(DecodeError::TruncatedInput));
    let mut region = vec![0u8; 8];
    let r = Processor::process(&zero_id(), &zero_id(), &[], &mut region);
    assert_eq!(r, Err(ProcessError::InvalidInstruction(DecodeError::TruncatedInput)));
    assert_eq!(region, vec![0u8; 8]);
}

#[test]
fn unknown_discriminant_is_rejected() {
    let bytes = vec![7u8, 1, 0, 0, 0, 0, 0, 0, 0];
    assert_eq!(GreetingInstruction::decode(&bytes), Err(DecodeError::UnknownVariant));
    let mut region = vec![0u8; 8];
    let r = Processor::process(&zero_id(), &zero_id(), &bytes, &mut region);
    assert_eq!(r, Err(ProcessError::InvalidInstruction(DecodeError::UnknownVariant)));
}

#[test]
fn declared_text_length_exceeding_buffer_is_truncated() {
    // tag, num_greetings = 1, declared text length 10, but only 3 text bytes
    let bytes = vec![0u8, 1, 0, 0, 0, 10, 0, 0, 0, b'a', b'b', b'c'];
    assert_eq!(GreetingInstruction::decode(&bytes), Err(DecodeError::TruncatedInput));
}

#[test]
fn invalid_utf8_text_is_rejected() {
    let bytes = vec![0u8, 1, 0, 0, 0, 2, 0, 0, 0, 0xFF, 0xFE];
    assert_eq!(GreetingInstruction::decode(&bytes), Err(DecodeError::InvalidText));
}

#[test]
fn trailing_bytes_after_declared_text_are_ignored() {
    let mut bytes = encode_init_greeting(3, "ok");
    let expected = GreetingInstruction::decode(&bytes).unwrap();
    bytes.push(0xEE);
    assert_eq!(GreetingInstruction::decode(&bytes).unwrap(), expected);
}

#[test]
fn unsupported_variant_is_rejected() {
    let instruction = GreetingInstruction::InitGreeting2(InitGreetingArgs {
        num_greetings: 1,
        greeting_string: String::from("hello"),
    });
    let bytes = instruction.encode();
    let mut region = vec![0u8; 8];
    let r = Processor::process(&zero_id(), &zero_id(), &bytes, &mut region);
    assert_eq!(r, Err(ProcessError::Unsupported));
    assert_eq!(region, vec![0u8; 8]);
}

#[test]
fn mismatched_authority_is_denied() {
    let authority = zero_id();
    let mut other = [0u8; 32];
    other[31] = 1;
    let owner = Identity { bytes: other };
    let bytes = encode_init_greeting(1, "hello");
    let mut region = vec![9u8; 8];
    let r = Processor::process(&authority, &owner, &bytes, &mut region);
    assert_eq!(r, Err(ProcessError::AccessDenied));
    assert_eq!(region, vec![9u8; 8]);
}

#[test]
fn accumulation_from_zeroed_region() {
    let id = zero_id();
    let mut region = vec![0u8, 0, 0, 0, 0, 0, 0, 0];
    let bytes = encode_init_greeting(1, "hello");
    Processor::process(&id, &id, &bytes, &mut region).unwrap();
    Processor::process(&id, &id, &bytes, &mut region).unwrap();
    let state = GreetingAccount::decode(&region).unwrap();
    assert_eq!(state, GreetingAccount { counter: 2, counter_times_2: 4 });
    assert_eq!(region, vec![2, 0, 0, 0, 4, 0, 0, 0]);
}

#[test]
fn invariant_holds_after_every_success() {
    let id = zero_id();
    let mut region = vec![0u8; 8];
    for step in [3u32, 1000, 250_000] {
        let bytes = encode_init_greeting(step, "");
        Processor::process(&id, &id, &bytes, &mut region).unwrap();
        let state = GreetingAccount::decode(&region).unwrap();
        assert_eq!(state.counter_times_2, state.counter * 2);
    }
}

#[test]
fn counter_overflow_is_an_error() {
    let id = zero_id();
    // a doubled counter must still fit in 32 bits: 0x7FFF_FFFF is the largest
    let start = GreetingAccount { counter: 0x7FFF_FFFF, counter_times_2: 0 };
    let mut region = start.encode();
    let r = Processor::process(&id, &id, &encode_init_greeting(1, ""), &mut region);
    assert_eq!(r, Err(ProcessError::Overflow));
    assert_eq!(region, start.encode());
    // right at the boundary the request still succeeds
    let mut region2 = GreetingAccount { counter: 0x7FFF_FFFE, counter_times_2: 0 }.encode();
    Processor::process(&id, &id, &encode_init_greeting(1, ""), &mut region2).unwrap();
    let state = GreetingAccount::decode(&region2).unwrap();
    assert_eq!(state, GreetingAccount { counter: 0x7FFF_FFFF, counter_times_2: 0xFFFF_FFFE });
}

#[test]
fn region_tail_is_untouched() {
    let id = zero_id();
    let mut region = vec![0u8, 0, 0, 0, 0, 0, 0, 0, 0xAA, 0xBB];
    Processor::process(&id, &id, &encode_init_greeting(5, "x"), &mut region).unwrap();
    assert_eq!(region, vec![5, 0, 0, 0, 10, 0, 0, 0, 0xAA, 0xBB]);
}

#[test]
fn state_decode_truncated() {
    assert_eq!(GreetingAccount::decode(&[0u8; 7]), Err(DecodeError::TruncatedInput));
}

#[test]
fn permissive_decode_reads_any_content() {
    let state = GreetingAccount::decode_permissive(&[1, 0, 0, 0, 9, 0, 0, 0]);
    assert_eq!(state, GreetingAccount { counter: 1, counter_times_2: 9 });
}

#[test]
fn initialization_is_a_nonzero_counter() {
    assert!(!GreetingAccount { counter: 0, counter_times_2: 0 }.is_initialized());
    assert!(GreetingAccount { counter: 1, counter_times_2: 2 }.is_initialized());
}

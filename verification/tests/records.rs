use multisig_bridge::identity::{AccountId, CallId};
use multisig_bridge::record::{decode, encode, push_all, DecodeError, LAYOUT_VERSION};
use multisig_bridge::state::CallState;
use multisig_bridge::vote::Vote;

fn call() -> CallId {
    CallId::new([0xAA; 32])
}

fn sample() -> CallState {
    let mut state = CallState::open(call(), 0x0102030405060708, AccountId::new([0x22; 32]), Vote::Aye(5));
    state.voters.insert(AccountId::new([0x11; 32]), Vote::Nay(0x0100));
    state
}

fn sample_bytes() -> Vec<u8> {
    let mut bytes = vec![1u8];
    bytes.extend_from_slice(&[8, 7, 6, 5, 4, 3, 2, 1]);
    bytes.extend_from_slice(&[0x22; 32]);
    bytes.extend_from_slice(&[2, 0, 0, 0, 0, 0, 0, 0]);
    bytes.extend_from_slice(&[0x11; 32]);
    bytes.push(1);
    bytes.extend_from_slice(&[0, 1, 0, 0, 0, 0, 0, 0, 0, 0, 0, 0, 0, 0, 0, 0]);
    bytes.extend_from_slice(&[0x22; 32]);
    bytes.push(0);
    bytes.extend_from_slice(&[5, 0, 0, 0, 0, 0, 0, 0, 0, 0, 0, 0, 0, 0, 0, 0]);
    bytes
}

#[test]
fn open_state_holds_the_proposers_vote() {
    let state = CallState::open(call(), 77, AccountId::new([0x22; 32]), Vote::Aye(5));
    assert_eq!(state.call_id, call());
    assert_eq!(state.thread_handle, 77);
    assert_eq!(state.proposer, AccountId::new([0x22; 32]));
    assert_eq!(state.voters.len(), 1);
    assert_eq!(state.voters.get(&AccountId::new([0x22; 32])), Some(Vote::Aye(5)));
}

#[test]
fn encode_writes_the_layout() {
    assert_eq!(LAYOUT_VERSION, 1);
    assert_eq!(encode(&sample()), sample_bytes());
}

#[test]
fn encode_of_a_state_without_voters() {
    let mut state = sample();
    state.voters = multisig_bridge::voters::VoterMap::new();
    let bytes = encode(&state);
    assert_eq!(bytes.len(), 49);
    assert_eq!(&bytes[41..49], &[0u8; 8]);
    assert_eq!(decode(call(), &bytes), Ok(state));
}

#[test]
fn decode_reads_back_what_encode_wrote() {
    let state = sample();
    assert_eq!(decode(call(), &encode(&state)), Ok(state));
}

#[test]
fn decode_keeps_every_weight_and_stance() {
    let mut state = CallState::open(call(), u64::MAX, AccountId::new([0xFF; 32]), Vote::Nay(u128::MAX));
    state.voters.insert(AccountId::new([0x00; 32]), Vote::Aye(0));
    state.voters.insert(AccountId::new([0x80; 32]), Vote::Aye(1_000_000_000_000_000_000_000_000));
    let back = decode(call(), &encode(&state)).unwrap();
    assert_eq!(back, state);
    assert_eq!(back.voters.get(&AccountId::new([0xFF; 32])), Some(Vote::Nay(u128::MAX)));
    assert_eq!(back.clone(), state);
}

#[test]
fn decode_sets_the_call_identifier_it_is_given() {
    let other = CallId::new([0xBB; 32]);
    assert_eq!(decode(other, &sample_bytes()).unwrap().call_id, other);
}

#[test]
fn decode_rejects_empty_bytes() {
    assert_eq!(decode(call(), &[]), Err(DecodeError::Truncated));
}

#[test]
fn decode_rejects_an_unknown_version() {
    let mut bytes = sample_bytes();
    bytes[0] = 2;
    assert_eq!(decode(call(), &bytes), Err(DecodeError::UnknownVersion));
    assert_eq!(decode(call(), &[0u8]), Err(DecodeError::UnknownVersion));
}

#[test]
fn decode_rejects_a_short_header() {
    assert_eq!(decode(call(), &sample_bytes()[..48]), Err(DecodeError::Truncated));
    assert_eq!(decode(call(), &[1u8]), Err(DecodeError::Truncated));
}

#[test]
fn decode_rejects_missing_voters() {
    let bytes = sample_bytes();
    assert_eq!(decode(call(), &bytes[..bytes.len() - 1]), Err(DecodeError::Truncated));
    assert_eq!(decode(call(), &bytes[..49]), Err(DecodeError::Truncated));
}

#[test]
fn decode_rejects_a_count_beyond_any_length() {
    let mut bytes = sample_bytes();
    for b in &mut bytes[41..49] {
        *b = 0xFF;
    }
    assert_eq!(decode(call(), &bytes), Err(DecodeError::Truncated));
}

#[test]
fn decode_rejects_trailing_bytes() {
    let mut bytes = sample_bytes();
    bytes.push(0);
    assert_eq!(decode(call(), &bytes), Err(DecodeError::TrailingBytes));
    let mut more = sample_bytes();
    more.extend_from_slice(&[0u8; 49]);
    assert_eq!(decode(call(), &more), Err(DecodeError::TrailingBytes));
}

#[test]
fn decode_rejects_a_stance_out_of_range() {
    let mut bytes = sample_bytes();
    bytes[49 + 32] = 2;
    assert_eq!(decode(call(), &bytes), Err(DecodeError::InvalidStance));
}

#[test]
fn decode_rejects_voters_out_of_order() {
    let mut bytes = sample_bytes();
    bytes[49] = 0x33;
    assert_eq!(decode(call(), &bytes), Err(DecodeError::VotersNotRising));
}

#[test]
fn decode_rejects_a_voter_held_twice() {
    let mut bytes = sample_bytes();
    for b in &mut bytes[49..49 + 32] {
        *b = 0x22;
    }
    assert_eq!(decode(call(), &bytes), Err(DecodeError::VotersNotRising));
}

#[test]
fn decode_reports_the_first_fault() {
    let mut bytes = sample_bytes();
    bytes[41] = 3;
    bytes.extend_from_slice(&[0x44; 32]);
    bytes.push(7);
    bytes.extend_from_slice(&[0u8; 16]);
    assert_eq!(decode(call(), &bytes), Err(DecodeError::InvalidStance));
    bytes[49 + 49] = 0x00;
    assert_eq!(decode(call(), &bytes), Err(DecodeError::VotersNotRising));
    bytes[49 + 32] = 9;
    assert_eq!(decode(call(), &bytes), Err(DecodeError::InvalidStance));
}

#[test]
fn push_all_appends() {
    let mut out = vec![1u8, 2];
    push_all(&mut out, &[3, 4, 5]);
    push_all(&mut out, &[]);
    assert_eq!(out, vec![1u8, 2, 3, 4, 5]);
}

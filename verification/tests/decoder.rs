use appchain_anchor::message_decoder::{decode_appchain_messages, AppchainEvent, DecodeError};
use parity_scale_codec::Encode;

fn borsh_lock(owner: &str, receiver: &str, amount: u128) -> Vec<u8> {
    borsh::to_vec(&(owner.to_string(), receiver.to_string(), amount)).unwrap()
}

fn borsh_burn(symbol: &str, owner: &str, receiver: &str, amount: u128) -> Vec<u8> {
    borsh::to_vec(&(symbol.to_string(), owner.to_string(), receiver.to_string(), amount)).unwrap()
}

fn envelope(entries: &[(u64, u8, Vec<u8>)]) -> Vec<u8> {
    let as_vec: Vec<(u64, u8, Vec<u8>)> = entries.to_vec();
    as_vec.encode()
}

#[test]
fn lock_payload_round_trips_through_the_wire() {
    let payload = borsh_lock("alice-on-appchain", "alice.near", 12_345_678_901_234_567_890);
    let bytes = envelope(&[(7, 0, payload)]);
    let messages = decode_appchain_messages(&bytes).unwrap();
    assert_eq!(messages.len(), 1);
    assert_eq!(messages[0].nonce, 7);
    match &messages[0].appchain_event {
        AppchainEvent::NativeTokenLocked { owner_id_in_appchain, receiver_id_in_near, amount } => {
            assert_eq!(owner_id_in_appchain, b"alice-on-appchain");
            assert_eq!(receiver_id_in_near, b"alice.near");
            assert_eq!(*amount, 12_345_678_901_234_567_890);
        }
        _ => panic!("wrong event"),
    }
}

#[test]
fn burn_payload_round_trips_through_the_wire() {
    let payload = borsh_burn("OCT", "bob-on-appchain", "bob.near", 555);
    let bytes = envelope(&[(9, 1, payload)]);
    let messages = decode_appchain_messages(&bytes).unwrap();
    match &messages[0].appchain_event {
        AppchainEvent::NearFungibleTokenBurnt {
            symbol,
            owner_id_in_appchain,
            receiver_id_in_near,
            amount,
        } => {
            assert_eq!(symbol, b"OCT");
            assert_eq!(owner_id_in_appchain, b"bob-on-appchain");
            assert_eq!(receiver_id_in_near, b"bob.near");
            assert_eq!(*amount, 555);
        }
        _ => panic!("wrong event"),
    }
}

#[test]
fn plan_new_era_payload_round_trips_through_the_wire() {
    let payload = borsh::to_vec(&42u32).unwrap();
    let bytes = envelope(&[(1, 2, payload)]);
    let messages = decode_appchain_messages(&bytes).unwrap();
    match &messages[0].appchain_event {
        AppchainEvent::EraSwitchPlaned { era_number } => assert_eq!(*era_number, 42),
        _ => panic!("wrong event"),
    }
}

#[test]
fn era_payout_payload_round_trips_through_the_wire() {
    let payload =
        borsh::to_vec(&(3u32, 1000u128, vec!["bad-one".to_string(), "bad-two".to_string()]))
            .unwrap();
    let bytes = envelope(&[(2, 3, payload)]);
    let messages = decode_appchain_messages(&bytes).unwrap();
    match &messages[0].appchain_event {
        AppchainEvent::EraRewardConcluded { era_number, unprofitable_validator_ids } => {
            assert_eq!(*era_number, 3);
            assert_eq!(unprofitable_validator_ids.len(), 2);
            assert_eq!(unprofitable_validator_ids[0], b"bad-one");
            assert_eq!(unprofitable_validator_ids[1], b"bad-two");
        }
        _ => panic!("wrong event"),
    }
}

#[test]
fn batch_order_is_preserved_and_nonces_carried() {
    let bytes = envelope(&[
        (1, 2, borsh::to_vec(&10u32).unwrap()),
        (2, 2, borsh::to_vec(&11u32).unwrap()),
        (3, 2, borsh::to_vec(&12u32).unwrap()),
    ]);
    let messages = decode_appchain_messages(&bytes).unwrap();
    assert_eq!(messages.len(), 3);
    for (i, m) in messages.iter().enumerate() {
        assert_eq!(m.nonce as usize, i + 1);
        match &m.appchain_event {
            AppchainEvent::EraSwitchPlaned { era_number } => {
                assert_eq!(*era_number as usize, 10 + i)
            }
            _ => panic!("wrong event"),
        }
    }
}

#[test]
fn one_malformed_payload_fails_the_whole_batch() {
    let bytes = envelope(&[
        (1, 2, borsh::to_vec(&10u32).unwrap()),
        (2, 2, vec![0x01, 0x02]), // truncated: not a u32
        (3, 2, borsh::to_vec(&12u32).unwrap()),
    ]);
    let result = decode_appchain_messages(&bytes);
    assert_eq!(result.unwrap_err(), DecodeError::MalformedPayload);
}

#[test]
fn unknown_tag_fails_the_envelope() {
    let mut bytes = envelope(&[(1, 2, borsh::to_vec(&10u32).unwrap())]);
    // Corrupt the tag byte (count byte, then 8 nonce bytes, then the tag).
    bytes[9] = 9;
    let result = decode_appchain_messages(&bytes);
    assert_eq!(result.unwrap_err(), DecodeError::MalformedEnvelope);
}

#[test]
fn truncated_envelope_is_rejected() {
    let mut bytes = envelope(&[(1, 2, borsh::to_vec(&10u32).unwrap())]);
    bytes.truncate(bytes.len() - 1);
    let result = decode_appchain_messages(&bytes);
    assert_eq!(result.unwrap_err(), DecodeError::MalformedEnvelope);
}

#[test]
fn anchor_decode_yields_the_same_batch() {
    let anchor = appchain_anchor::anchor::AppchainAnchor::new();
    let bytes = envelope(&[(5, 2, borsh::to_vec(&8u32).unwrap())]);
    let messages = anchor.decode(bytes).unwrap();
    assert_eq!(messages.len(), 1);
    assert_eq!(messages[0].nonce, 5);
    match &messages[0].appchain_event {
        AppchainEvent::EraSwitchPlaned { era_number } => assert_eq!(*era_number, 8),
        _ => panic!("wrong event"),
    }
}

#[test]
fn empty_envelope_decodes_to_no_messages() {
    let bytes = envelope(&[]);
    let messages = decode_appchain_messages(&bytes).unwrap();
    assert!(messages.is_empty());
}

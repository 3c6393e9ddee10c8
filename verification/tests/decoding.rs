use universal_trigger::error::CoreError;
use universal_trigger::outcome::{
    decode_outcome, decode_submission, decode_with_event, event_topic, same_topic, LogEntry, Receipt,
};
use universal_trigger::planner::OperationKind;

fn word(n: u8) -> [u8; 32] {
    let mut bytes = [0u8; 32];
    bytes[31] = n;
    bytes
}

fn created_topic() -> [u8; 32] {
    event_topic("PositionCreated(uint256,int24,int24,uint128)")
}

fn created_log(id: u8) -> LogEntry {
    LogEntry { topics: vec![created_topic(), word(id)] }
}

fn ids(outcome: &universal_trigger::outcome::OperationOutcome) -> Vec<String> {
    outcome.created_ids.iter().map(|id| id.to_decimal()).collect()
}

#[test]
fn decode_two_created_positions() {
    let logs = vec![created_log(5), created_log(6)];
    for requested in [0u64, 1, 2, 3, 20] {
        let outcome = decode_outcome(OperationKind::AddLiquidity, &logs, 123_456, requested);
        assert_eq!(ids(&outcome), vec!["5", "6"]);
        assert_eq!(outcome.succeeded_count, 2);
        assert_eq!(outcome.requested_count, requested);
        assert_eq!(outcome.gas_used, 123_456);
    }
}

#[test]
fn decode_skips_other_events() {
    let other = event_topic("Transfer(address,address,uint256)");
    let logs = vec![
        LogEntry { topics: vec![other, word(9)] },
        created_log(7),
        LogEntry { topics: vec![] },
        LogEntry { topics: vec![created_topic()] },
        LogEntry { topics: vec![word(1), created_topic()] },
        created_log(3),
    ];
    let outcome = decode_outcome(OperationKind::AddLiquidity, &logs, 1, 5);
    assert_eq!(ids(&outcome), vec!["7", "3"]);
    assert_eq!(outcome.succeeded_count, 2);
}

#[test]
fn decode_partial_success_is_no_error() {
    let logs = vec![created_log(1)];
    let outcome = decode_outcome(OperationKind::AddLiquidity, &logs, 700_000, 4);
    assert_eq!(outcome.requested_count, 4);
    assert_eq!(outcome.succeeded_count, 1);
}

#[test]
fn decode_no_logs() {
    let outcome = decode_outcome(OperationKind::AddLiquidity, &vec![], 21_000, 3);
    assert_eq!(outcome.succeeded_count, 0);
    assert!(outcome.created_ids.is_empty());
}

#[test]
fn decode_large_identifier() {
    let mut id = [0u8; 32];
    id[0] = 0x80;
    id[23] = 1;
    id[31] = 2;
    let logs = vec![LogEntry { topics: vec![created_topic(), id, word(1)] }];
    let outcome = decode_outcome(OperationKind::AddLiquidity, &logs, 0, 1);
    assert_eq!(outcome.created_ids.len(), 1);
    assert_eq!(outcome.created_ids[0].limbs, [2, 1, 0, 0x8000_0000_0000_0000]);
    assert_eq!(
        ids(&outcome),
        vec!["57896044618658097711785492504343953926634992332820282019747238748030274371586"]
    );
}

#[test]
fn decode_kinds_without_completion_event() {
    let logs = vec![created_log(5), created_log(6)];
    for kind in [
        OperationKind::RemoveLiquidity,
        OperationKind::RemoveAll,
        OperationKind::Rebalance,
        OperationKind::SwapBaseToQuote,
        OperationKind::SwapQuoteToBase,
    ] {
        let outcome = decode_outcome(kind, &logs, 55, 3);
        assert_eq!(outcome.succeeded_count, 3);
        assert_eq!(outcome.requested_count, 3);
        assert!(outcome.created_ids.is_empty());
        assert_eq!(outcome.gas_used, 55);
    }
}

#[test]
fn decode_with_given_event() {
    let topic = word(0xaa);
    let logs = vec![
        LogEntry { topics: vec![topic, word(11)] },
        created_log(12),
        LogEntry { topics: vec![topic, word(13), word(14)] },
    ];
    let outcome = decode_with_event(Some(&topic), &logs, 9, 1);
    assert_eq!(ids(&outcome), vec!["11", "13"]);
    assert_eq!(outcome.succeeded_count, 2);
    let none = decode_with_event(None, &logs, 9, 8);
    assert_eq!(none.succeeded_count, 8);
    assert!(none.created_ids.is_empty());
}

#[test]
fn decode_submission_results() {
    let receipt = Receipt { logs: vec![created_log(5), created_log(6)], gas_used: 1_000, block_number: 77 };
    let ok = decode_submission(OperationKind::AddLiquidity, &Ok(receipt), 2).expect("decoded");
    assert_eq!(ids(&ok), vec!["5", "6"]);
    assert_eq!(ok.gas_used, 1_000);
    let failed = decode_submission(OperationKind::AddLiquidity, &Err(String::from("reverted")), 2);
    assert!(matches!(failed, Err(CoreError::TransportError)));
}

#[test]
fn event_topic_is_keccak_of_signature() {
    let transfer = event_topic("Transfer(address,address,uint256)");
    let expected: [u8; 32] = [
        0xdd, 0xf2, 0x52, 0xad, 0x1b, 0xe2, 0xc8, 0x9b, 0x69, 0xc2, 0xb0, 0x68, 0xfc, 0x37, 0x8d, 0xaa,
        0x95, 0x2b, 0xa7, 0xf1, 0x63, 0xc4, 0xa1, 0x16, 0x28, 0xf5, 0x5a, 0x4d, 0xf5, 0x23, 0xb3, 0xef,
    ];
    assert_eq!(transfer, expected);
    let empty = event_topic("");
    assert_eq!(&empty[..4], &[0xc5, 0xd2, 0x46, 0x01]);
    assert_ne!(created_topic(), transfer);
}

#[test]
fn completion_signatures() {
    assert_eq!(
        OperationKind::AddLiquidity.completion_signature(),
        Some("PositionCreated(uint256,int24,int24,uint128)")
    );
    assert_eq!(OperationKind::Rebalance.completion_signature(), None);
    assert_eq!(OperationKind::RemoveAll.completion_signature(), None);
}

#[test]
fn same_topic_compares_all_bytes() {
    let a = word(1);
    let mut b = word(1);
    assert!(same_topic(&a, &b));
    b[0] = 1;
    assert!(!same_topic(&a, &b));
    let mut c = word(1);
    c[31] = 2;
    assert!(!same_topic(&a, &c));
}

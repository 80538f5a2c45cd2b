use solana_block_cacher::networking::{
    is_unavailable_slot_error, BlockFetcher, BlockFetcherFactory, BlockFetcherKind, MockSolanaClient,
};

#[test]
fn mock_client_answers_with_its_block() {
    let client = MockSolanaClient::new();
    let block = client.get_block(5).unwrap();
    assert_eq!(block.slot_number, 123);
    assert_eq!(block.data, "{ \"name\": \"hello_world\" }");
}

#[test]
fn factory_hands_out_the_mock_when_asked() {
    match BlockFetcherFactory::new(true, "").create_block_fetcher() {
        BlockFetcherKind::Mock(client) => assert_eq!(client.get_block(1).unwrap().slot_number, 123),
        BlockFetcherKind::Rpc(_) => panic!("expected the mock"),
    }
}

#[test]
fn factory_hands_out_a_network_client_for_its_url() {
    match BlockFetcherFactory::new(false, "http://localhost:8899").create_block_fetcher() {
        BlockFetcherKind::Rpc(url) => assert_eq!(url, "http://localhost:8899"),
        BlockFetcherKind::Mock(_) => panic!("expected a network client"),
    }
}

#[test]
fn unavailable_slot_codes_are_recognised() {
    assert!(is_unavailable_slot_error("RPC response error -32009: Slot 5 was skipped"));
    assert!(is_unavailable_slot_error("-32004"));
    assert!(is_unavailable_slot_error("error -32007: slot not available"));
    assert!(!is_unavailable_slot_error("RPC response error -32005: node is unhealthy"));
    assert!(!is_unavailable_slot_error("-3200"));
    assert!(!is_unavailable_slot_error(""));
    assert!(!is_unavailable_slot_error("32009"));
}

use solana_block_cacher::arguments::{arguments_outcome, validate_arguments, ArgumentError};

#[test]
fn test_valid_arguments() {
    // Should not fail
    assert_eq!(validate_arguments(Some(0), Some(10), "http://localhost:8545"), Ok(()));
}

#[test]
fn test_missing_from_and_to_slot() {
    assert_eq!(validate_arguments(None, None, ""), Err(ArgumentError::MissingSlots));
}

#[test]
fn test_invalid_rpc_url() {
    assert_eq!(validate_arguments(Some(0), Some(10), "not_a_valid_url"), Err(ArgumentError::InvalidRpcUrl));
}

#[test]
fn missing_slots_are_refused_first() {
    assert_eq!(validate_arguments(Some(0), None, "http://localhost:8545"), Err(ArgumentError::MissingSlots));
    assert_eq!(validate_arguments(None, Some(10), "not_a_valid_url"), Err(ArgumentError::MissingSlots));
}

#[test]
fn invalid_rpc_urls_are_refused() {
    assert_eq!(validate_arguments(Some(0), Some(10), "not_a_valid_url"), Err(ArgumentError::InvalidRpcUrl));
    assert_eq!(validate_arguments(Some(0), Some(10), ""), Err(ArgumentError::InvalidRpcUrl));
    assert_eq!(validate_arguments(Some(0), Some(10), "https://example.com/rpc"), Ok(()));
}

#[test]
fn outcome_follows_its_inputs() {
    assert_eq!(arguments_outcome(false, false, true), Err(ArgumentError::MissingSlots));
    assert_eq!(arguments_outcome(true, true, true), Err(ArgumentError::InvalidRpcUrl));
    assert_eq!(arguments_outcome(true, false, false), Err(ArgumentError::InvalidRpcUrl));
    assert_eq!(arguments_outcome(true, false, true), Ok(()));
}

use solana_block_cacher::utilities::logging::{determine_verbosity, Verbosity};

#[test]
fn test_determine_verbosity() {
    assert_eq!(determine_verbosity(true), Verbosity::Debug);
    assert_eq!(determine_verbosity(false), Verbosity::Info);
}

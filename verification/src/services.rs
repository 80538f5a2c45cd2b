pub mod fetch_block_service;
pub mod write_service;

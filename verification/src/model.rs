pub mod solana_block;

pub mod arith;
pub mod constants;
pub mod errors;
pub mod math;
pub mod wide;
pub mod power_bound;
pub mod tick_bitmap;
pub mod pubkey;
pub mod tick;
pub mod position;
pub mod codec;
pub mod state;
pub mod token_pair;
pub mod oracle;
pub mod instructions;
pub mod laws;

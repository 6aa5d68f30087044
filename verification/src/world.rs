pub mod dealing;
pub mod margins;
pub mod mixing;
pub mod simple;

pub use dealing::card_dealing;
pub use simple::{simple_valid_greedy, simple_valid_smart};

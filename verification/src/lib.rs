pub mod consts;
pub mod eval;
pub mod formatting;
pub mod game;
pub mod network;
pub mod randomness;
pub mod ui;
pub mod world;

//! An emoji album: users collect emojis by rolling and may send them to
//! one another. The library holds the store of albums and the rules that
//! read and change it, each stated as a contract and proved. What it takes
//! from other crates stands behind small functions whose contracts are
//! taken on trust; their doc comments name the function that is called.

pub mod catalog;
pub mod database;
pub mod error;
pub mod handlers;
pub mod holdings;
pub mod logic;
pub mod numbers;
pub mod parsers;
pub mod render;
pub mod storage;
pub mod text;
pub mod types;

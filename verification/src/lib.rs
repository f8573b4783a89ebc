pub mod admission;
pub mod api;
pub mod card_book;
pub mod controller;
pub mod event;
pub mod matching;
pub mod matching_engine;
pub mod rng;
pub mod text;
pub mod utils;

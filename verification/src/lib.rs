pub mod engine;

pub mod args;
pub mod batch;
pub mod cache_key;
pub mod command;
pub mod error;
pub mod index;
pub mod pipeline;
pub mod scanner;
pub mod text;
pub mod validity;

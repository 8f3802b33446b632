pub mod codec;
pub mod message;
pub mod text;
pub mod strmap;
pub mod error;
pub mod config;
pub mod machine;
pub mod statemachine;
pub mod proto;
pub mod client;
pub mod worker;
pub mod engine;
pub mod ffi;
pub mod cli;

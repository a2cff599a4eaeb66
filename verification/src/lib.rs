pub mod bytes;
pub mod cli;
pub mod discovery;
pub mod errors;
pub mod output;
pub mod pipeline;
pub mod reconstruction;

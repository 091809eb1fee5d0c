pub mod bytes;
pub mod manifest;
pub mod resolver;
pub mod scanner;
pub mod workflow;

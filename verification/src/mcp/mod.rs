//! What an agent asks of the server, and what it is told.
pub mod tools;
pub mod wait;

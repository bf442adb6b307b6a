pub mod tables;
pub mod connection;

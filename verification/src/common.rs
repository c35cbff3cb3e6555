pub mod config;
pub mod error;
pub mod nacos;
pub mod response;
pub mod text;
pub mod url_parts;

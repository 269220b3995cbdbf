pub mod ring;
pub mod text;
pub mod parser;
pub mod record;
pub mod engine;
pub mod server;
pub mod timeline;
pub mod lexer;
pub mod ast;
pub mod stroke;
pub mod client;
pub mod metrics;
pub mod pool;

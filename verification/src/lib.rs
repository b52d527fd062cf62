pub mod text;
pub mod btf_rd;
pub mod cmd_mod;
pub mod log_mod;
pub mod server;
pub mod documents;
pub mod navigation;
pub mod message;

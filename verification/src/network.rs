pub mod codec;
pub mod handling_laws;
pub mod laws;
pub mod server;

pub mod adapters;
pub mod channels;
pub mod protocols;

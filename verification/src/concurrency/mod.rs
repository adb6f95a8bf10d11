pub mod channel;
pub mod dispatcher;
pub mod lifecycle;

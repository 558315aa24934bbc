pub mod batch;
pub mod codec;
pub mod dom;
pub mod extract;
pub mod session;
pub mod text;

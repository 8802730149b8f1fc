pub mod adapter;
pub mod frame;
pub mod json;
pub mod packet;
pub mod text;

//! Reading a system-overview diagram drawn with drawio.

pub mod diagram;
pub mod gather;
pub mod helpers;
pub mod numbers;
pub mod text;
pub mod types;
pub mod xml;

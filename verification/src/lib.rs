mod chars;
pub mod codec;
pub mod ops;
pub mod present;
pub mod process;
pub mod task;

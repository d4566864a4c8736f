pub mod dtmf;
pub mod frame;
pub mod codec;
pub mod processor;
pub mod signal;
pub mod resample;

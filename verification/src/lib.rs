pub mod brightness;
pub mod motion;
pub mod pool;
pub mod processor;
pub mod ratio;

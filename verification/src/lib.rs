pub mod hash_util;
pub mod hyperloglog;
pub mod laws;
pub mod types;

pub use hyperloglog::HyperLogLog;
pub use types::TypeError;
pub use types::TypeId;
pub use types::Value;
pub use types::ValueData;

pub mod codec;
pub mod duration;
pub mod json;
pub mod jsonio;
pub mod persist;
pub mod record;
pub mod stats;

pub use codec::{decode_record, encode_record, MalformedRecord};
pub use duration::DurationSample;
pub use json::JsonValue;
pub use record::{BenchmarkRecord, BenchmarkResult, BenchmarkSystemInfo};
pub use stats::{BenchmarkComputations, BenchmarkDurations, TimingMethod};

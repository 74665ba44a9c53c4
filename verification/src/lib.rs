//! Wire-level message envelope layer of a publish/subscribe and query
//! middleware: quality-of-service labels, free-form key/value attachments,
//! key-expression-plus-parameters selectors, and the build-compatibility
//! descriptors of its plugin loader.

pub mod attachment;
pub mod codec;
pub mod params;
pub mod plugin;
pub mod qos;
pub mod sample;
pub mod selector;

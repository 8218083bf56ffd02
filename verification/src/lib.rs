//! Local task-management data layer: a serializable task data model and an
//! authenticated encryption service that protects serialized records at rest.
pub mod codec;
pub mod crypto;
pub mod model;

pub use crypto::{DecryptError, EncryptError, EncryptionService, Key};
pub use model::{AIInsights, DataError, Task, TaskPriority, TaskStatus};

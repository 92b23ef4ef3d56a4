//! A small task tracker: a persistent to-do store modelled as verified
//! in-memory state. Adding tasks, listing the incomplete ones and marking a
//! task complete are operations whose exact effect on the store is stated
//! and proved, together with the store's laws: ids stay pairwise distinct,
//! completion is monotonic and idempotent, an unknown id is a silent no-op,
//! and a listing shows exactly the incomplete tasks.

pub mod render;
pub mod store;
pub mod task;

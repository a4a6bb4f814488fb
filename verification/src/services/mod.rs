//! Services: the task queue.
pub mod task_queue;

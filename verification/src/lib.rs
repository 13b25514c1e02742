//! An in-memory model of a to-do task table: tasks carry a store-assigned
//! unique id, a title, a category tag, and a lifecycle status. The store
//! supports inserting a task, listing all tasks, updating a task's status by
//! id, and deleting a task by id, with the update and delete operations being
//! silent no-ops when no row matches the id.

pub mod store;
pub mod task;

//! Where the data lives on disk. Reading and writing the files is done
//! outside this library; this module names the place and the errors.

use vstd::prelude::*;
use crate::domain::{Project, ProjectId, Task, TaskFlowError, TaskId, User, UserId};
use crate::table::Table;
use crate::text::join2;

verus! {

/// JSON files (`tasks.json`, `projects.json`, `users.json`) in the directory
/// `storage_path`.
pub struct JsonFileStorage {
    pub storage_path: String,
}

impl JsonFileStorage {
    /// Storage in the directory `path`.
    pub fn new(path: String) -> (r: Self)
        ensures
            r.storage_path@ == path@,
    {
        JsonFileStorage { storage_path: path }
    }
}

/// Loading and saving the tasks, projects and users, for a storage to
/// implement.
pub trait Storage {
    fn load_tasks(&self) -> Result<Table<TaskId, Task>, TaskFlowError>;

    fn load_projects(&self) -> Result<Table<ProjectId, Project>, TaskFlowError>;

    fn load_users(&self) -> Result<Table<UserId, User>, TaskFlowError>;

    fn save_tasks(&self, tasks: &Table<TaskId, Task>) -> Result<(), TaskFlowError>;

    fn save_projects(&self, projects: &Table<ProjectId, Project>) -> Result<(), TaskFlowError>;

    fn save_users(&self, users: &Table<UserId, User>) -> Result<(), TaskFlowError>;
}

/// A failure to read or write the data.
pub struct StorageError {
    pub message: String,
}

impl StorageError {
    /// The text of the error as it is printed.
    pub fn to_message(&self) -> (r: String)
        ensures
            r@ == "storage error: "@ + self.message@,
    {
        join2("storage error: ", self.message.as_str())
    }
}

} // verus!

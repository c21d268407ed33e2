//! The parts that do the work: the manager and the batch worker.

pub mod db_manager;
pub mod ensure_run;
pub mod index_worker;

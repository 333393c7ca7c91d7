//! A two-phase batch engine for one machine: a master hands map jobs to a pool
//! of workers, waits until all of them are done, groups the files they left in
//! the working directory by partition, hands out one reduce job per partition,
//! waits again and collects the result files.
//!
//! The library holds every decision of that engine and the traffic on the two
//! queues. Threads and the file system belong to the caller, who lists the
//! working directory when the master asks for it and opens and writes the
//! files that a worker names.

pub mod decimal;
pub mod discovery;
pub mod master;
pub mod path;
pub mod queue;
pub mod shuffle;
pub mod trace;
pub mod worker;

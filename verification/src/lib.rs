//! Port and process inspection core: kernel socket-table parsing, port/process
//! correlation, process-ancestry walking, and the tiered source classifier
//! that answers "why is this process running?".
//!
//! The modules here hold the pure logic: parsers from kernel-exposed text to
//! structured records, the classifier, and the TTL caches. File reads and
//! subprocess calls live with the callers, which hand plain values in.

pub mod ancestry;
pub mod correlate;
pub mod docker;
pub mod history;
pub mod lsof;
pub mod net;
pub mod procs;
pub mod source;
pub mod scan;
pub mod strutil;
pub mod types;
pub mod watch;

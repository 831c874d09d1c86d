//! Core logic of a remote-administration client.
//!
//! The crate models the connection/session lifecycle of a desktop client
//! that multiplexes SSH shell sessions, interactive pseudo-terminals and
//! SFTP/FTP file transfers:
//!
//! * a connection registry keyed by caller-chosen connection identifiers,
//!   with cancellation of in-flight connects and generation-stamped
//!   pseudo-terminal replacement,
//! * bounded FIFO byte queues that carry terminal input and output without
//!   loss or reordering,
//! * the framed wire protocol of the local terminal I/O bridge,
//! * directory-listing construction and ordering, FTP `LIST` parsing, and
//!   the event fold that classifies remote command execution.
//!
//! All network and file I/O lives outside this crate; the functions here
//! take and return plain values and are verified.

pub mod bridge;
pub mod commands;
pub mod config;
pub mod errors;
pub mod exec_cmd;
pub mod ftp_list;
pub mod listing;
pub mod pty;
pub mod queue;
pub mod registry;
pub mod stats;
pub mod strutil;
pub mod timefmt;
pub mod transfer;

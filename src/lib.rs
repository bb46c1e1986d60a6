//! Matching local media files to catalogue episodes and renaming them.
//!
//! The library holds the logic of the tool: resolving a show identifier from
//! a catalogue link, interpreting the catalogue's answer, coordinating the
//! background fetch, keeping the file-to-episode assignment consistent, and
//! planning the renames. Disk, network and window work live outside it.

pub mod assignment;
pub mod catalog;
pub mod coordinator;
pub mod media;
pub mod rename;
pub mod renamer;
pub mod settings;
pub mod text;

pub use assignment::AssignmentState;
pub use catalog::{
    catalog_outcome, catalog_request, extract_identifier, fetch_result, files_of_scan,
    format_request_url, FetchFailure, FetchResult, HttpReply, ScanEntry,
};
pub use coordinator::{ChannelPoll, FetchCoordinator, FetchMessage, FetchTicket};
pub use media::{file_name_of, keep_flagged, sanitize_title, Episode, LocalFile};
pub use rename::{
    format_target_name, plan_name, plan_rename, plan_renames, rename_outcome, report,
    PlannedRename, RenameOutcome,
};
pub use renamer::{FetchJob, SeriesRenamer};
pub use settings::AppSettings;
pub use text::parse_u32;

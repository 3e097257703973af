//! The command line: a subcommand for notifications, which runs the
//! notification server, runs a query or closes a notification.

use vstd::prelude::*;

verus! {

/// The parsed command line.
pub struct Cli {
    pub command: Commands,
}

/// The top-level subcommands (`notification`, also spelt `notifications`).
pub enum Commands {
    Notification { subcommand: NotificationSubcommand },
}

/// What to do with notifications. `json` and `raw` choose the output form
/// of a query and exclude each other.
pub enum NotificationSubcommand {
    Server,
    Query { query: String, json: bool, raw: bool },
    Close { notification_id: u32 },
}

} // verus!

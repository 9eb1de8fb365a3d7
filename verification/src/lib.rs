//! Verified core of the `wtf` work-time tracking tool.
//!
//! - `dashboard`, `keys`, `tabs`, `tab_keys`, `history`, `search`, `wizard`,
//!   `settings`: the dashboard's state and how it answers each key (routing,
//!   list navigation, the History tab, the searchable pickers, the sprint
//!   wizard, the Settings editor);
//! - `activity`, `calendar`, `worklogs`, `achievements`, `achievement_board`:
//!   calendar and worklog arithmetic, pushes, the achievement checks run
//!   after a push, and the Achievements tab's score and layout;
//! - `github`, `meetings`, `meeting_links`, `google_events`, `descriptions`:
//!   GitHub issue-key bookkeeping, calendar events, and linking meetings to
//!   issues;
//! - `text`, `layout`: string helpers, word wrapping and HTML cleaning;
//! - `commands`, `tasks`, `logger`, `storage`: the command line's decisions,
//!   the background tasks' parameters, the in-memory log and the data file.
use vstd::prelude::*;

pub mod achievement_board;
pub mod achievements;
pub mod activity;
pub mod calendar;
pub mod commands;
pub mod dashboard;
pub mod descriptions;
pub mod github;
pub mod google_events;
pub mod history;
pub mod keys;
pub mod layout;
pub mod logger;
pub mod meeting_links;
pub mod meetings;
pub mod search;
pub mod settings;
pub mod storage;
pub mod tab_keys;
pub mod tabs;
pub mod tasks;
pub mod text;
pub mod wizard;
pub mod worklogs;

verus! {

} // verus!

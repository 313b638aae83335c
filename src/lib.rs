//! Bulk personalised mail dispatch: a recipient table read from a
//! spreadsheet, a per-row HTML renderer, and the send pass that keeps the
//! rows still to be delivered.

pub mod dispatch;
pub mod html;
pub mod ingest;
pub mod model;
pub mod text;
pub mod workflow;

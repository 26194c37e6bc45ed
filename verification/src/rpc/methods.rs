//! RPC method names.
use vstd::prelude::*;

use crate::text::text_eq;

verus! {

// ── SMTC ──
/// Set current media information (title, artist, album, thumbnail).
pub const SMTC_SET_MEDIA_INFO: &'static str = "smtc/setMediaInfo";
/// Set playback status (playing / paused / stopped).
pub const SMTC_SET_PLAYBACK_STATUS: &'static str = "smtc/setPlaybackStatus";
/// Set timeline position and duration.
pub const SMTC_SET_TIMELINE: &'static str = "smtc/setTimeline";
/// Set thumbnail image (file path or base64).
pub const SMTC_SET_THUMBNAIL: &'static str = "smtc/setThumbnail";

// ── Toast ──
/// Show a toast notification.
pub const TOAST_SHOW: &'static str = "toast/show";
/// Remove a toast by tag.
pub const TOAST_CLEAR: &'static str = "toast/clear";

// ── Update ──
/// Apply an update package (write files).
pub const UPDATE_APPLY: &'static str = "update/apply";
/// Stage a restart (write update.bat, schedule restart).
pub const UPDATE_STAGE_RESTART: &'static str = "update/stageRestart";
/// Report update progress back to .NET.
pub const UPDATE_PROGRESS: &'static str = "update/progress";

// ── System ──
/// Ping / health check.
pub const SYSTEM_PING: &'static str = "system/ping";
/// Graceful shutdown.
pub const SYSTEM_SHUTDOWN: &'static str = "system/shutdown";
/// Server-side delay (ms). Returns after sleeping.
pub const SYSTEM_DELAY: &'static str = "system/delay";

/// Whether a method is answered without HMAC authentication.
pub open spec fn auth_free(method: Seq<char>) -> bool {
    method == SYSTEM_PING@
}

/// Methods that DO NOT require HMAC authentication.
pub fn is_auth_free_method(method: &str) -> (r: bool)
    ensures
        r == auth_free(method@),
{
    text_eq(method, SYSTEM_PING)
}

} // verus!

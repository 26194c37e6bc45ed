//! Playback state and media information for the System Media Transport
//! Controls, and the commands that it forwards to the host.
use vstd::prelude::*;

use crate::error::AppError;
use crate::json::{
    string_at, string_elem,
    decode_seq_opt_string, seq_opt_string_decoding, too_long, too_long_error, too_long_message,decode_opt_string, field, invalid_type, opt_string_decoding, opt_view, JsonValue};
use crate::text::text_eq;

verus! {

/// Playback status for SMTC.
#[derive(Debug, Clone, Copy, PartialEq, Eq, Structural)]
pub enum PlaybackStatus {
    Playing,
    Paused,
    Stopped,
}

/// The status a name stands for: the lower-case or capitalised word.
pub open spec fn status_named(s: Seq<char>) -> Option<PlaybackStatus> {
    if s == "playing"@ || s == "Playing"@ {
        Some(PlaybackStatus::Playing)
    } else if s == "paused"@ || s == "Paused"@ {
        Some(PlaybackStatus::Paused)
    } else if s == "stopped"@ || s == "Stopped"@ {
        Some(PlaybackStatus::Stopped)
    } else {
        None
    }
}

impl PlaybackStatus {
    /// The status a name stands for, if any.
    pub fn from_str(s: &str) -> (r: Option<Self>)
        ensures
            r == status_named(s@),
    {
        if text_eq(s, "playing") || text_eq(s, "Playing") {
            Some(PlaybackStatus::Playing)
        } else if text_eq(s, "paused") || text_eq(s, "Paused") {
            Some(PlaybackStatus::Paused)
        } else if text_eq(s, "stopped") || text_eq(s, "Stopped") {
            Some(PlaybackStatus::Stopped)
        } else {
            None
        }
    }
}

/// Media information payload.
#[derive(Debug)]
pub struct MediaInfo {
    pub title: Option<String>,
    pub artist: Option<String>,
    pub album: Option<String>,
    pub thumbnail_path: Option<String>,
}

/// The content of a media information payload.
pub struct MediaInfoView {
    pub title: Option<Seq<char>>,
    pub artist: Option<Seq<char>>,
    pub album: Option<Seq<char>>,
    pub thumbnail_path: Option<Seq<char>>,
}

impl View for MediaInfo {
    type V = MediaInfoView;

    open spec fn view(&self) -> MediaInfoView {
        MediaInfoView {
            title: opt_view(self.title),
            artist: opt_view(self.artist),
            album: opt_view(self.album),
            thumbnail_path: opt_view(self.thumbnail_path),
        }
    }
}

/// SMTC commands that the user can trigger (→ forwarded to .NET).
#[derive(Debug, Clone, Copy)]
pub enum SmtcCommand {
    Play,
    Pause,
    TogglePlayPause,
    Next,
    Previous,
    Stop,
}

/// The name of the host method that a command is forwarded to.
pub open spec fn command_method(c: SmtcCommand) -> Seq<char> {
    match c {
        SmtcCommand::Play => "smtc/onPlay"@,
        SmtcCommand::Pause => "smtc/onPause"@,
        SmtcCommand::TogglePlayPause => "smtc/onTogglePlayPause"@,
        SmtcCommand::Next => "smtc/onNext"@,
        SmtcCommand::Previous => "smtc/onPrevious"@,
        SmtcCommand::Stop => "smtc/onStop"@,
    }
}

impl SmtcCommand {
    /// The name of the host method that the command is forwarded to.
    pub fn method_name(&self) -> (r: &'static str)
        ensures
            r@ == command_method(*self),
    {
        match self {
            SmtcCommand::Play => "smtc/onPlay",
            SmtcCommand::Pause => "smtc/onPause",
            SmtcCommand::TogglePlayPause => "smtc/onTogglePlayPause",
            SmtcCommand::Next => "smtc/onNext",
            SmtcCommand::Previous => "smtc/onPrevious",
            SmtcCommand::Stop => "smtc/onStop",
        }
    }
}

/// SMTC Manager — the System Media Transport Controls of the session.
///
/// The controls exist on Windows only; elsewhere every operation succeeds
/// and does nothing.
pub struct SmtcManager;

impl SmtcManager {
    /// Create and initialize a new SMTC manager.
    pub fn new() -> (r: Result<Self, AppError>)
        ensures
            r is Ok,
    {
        Ok(SmtcManager)
    }

    /// Set current media metadata (title, artist, album).
    pub fn set_media_info(&self, info: &MediaInfo) -> (r: Result<(), AppError>)
        ensures
            r is Ok,
    {
        Ok(())
    }

    /// Set playback status.
    pub fn set_playback_status(&self, status: PlaybackStatus) -> (r: Result<(), AppError>)
        ensures
            r is Ok,
    {
        Ok(())
    }

    /// Set thumbnail from a file path.
    pub fn set_thumbnail(&self, path: &str) -> (r: Result<(), AppError>)
        ensures
            r is Ok,
    {
        Ok(())
    }
}

/// What decoding media information gives. Fields are checked in key order
/// (`album`, `artist`, `thumbnail_path`, `title`); unknown fields are
/// ignored; an array is read as the fields in declaration
/// order; any other value is refused.
pub open spec fn media_info_decoding(params: JsonValue) -> Result<MediaInfoView, Seq<char>> {
    match params {
        JsonValue::Object(_) => {
            let album = opt_string_decoding(field(params, "album"@));
            let artist = opt_string_decoding(field(params, "artist"@));
            let thumbnail_path = opt_string_decoding(field(params, "thumbnail_path"@));
            let title = opt_string_decoding(field(params, "title"@));
            if album is Err {
                Err(album->Err_0)
            } else if artist is Err {
                Err(artist->Err_0)
            } else if thumbnail_path is Err {
                Err(thumbnail_path->Err_0)
            } else if title is Err {
                Err(title->Err_0)
            } else {
                Ok(MediaInfoView {
                    title: title->Ok_0,
                    artist: artist->Ok_0,
                    album: album->Ok_0,
                    thumbnail_path: thumbnail_path->Ok_0,
                })
            }
        },
        JsonValue::Array(items) => media_info_seq_decoding(items@),
        _ => Err(crate::json::invalid_type_message(params, "struct MediaInfo"@)),
    }
}

/// What decoding media information given as an array `[title, artist,
/// album, thumbnail_path]` gives: elements in declaration order, none
/// missing, none left over.
pub open spec fn media_info_seq_decoding(items: Seq<JsonValue>) -> Result<MediaInfoView, Seq<char>> {
    let expected = "struct MediaInfo with 4 elements"@;
    let title = seq_opt_string_decoding(items, 0, expected);
    let artist = seq_opt_string_decoding(items, 1, expected);
    let album = seq_opt_string_decoding(items, 2, expected);
    let thumbnail_path = seq_opt_string_decoding(items, 3, expected);
    if title is Err {
        Err(title->Err_0)
    } else if artist is Err {
        Err(artist->Err_0)
    } else if album is Err {
        Err(album->Err_0)
    } else if thumbnail_path is Err {
        Err(thumbnail_path->Err_0)
    } else if too_long(items, 4) {
        Err(too_long_message(items))
    } else {
        Ok(MediaInfoView {
            title: title->Ok_0,
            artist: artist->Ok_0,
            album: album->Ok_0,
            thumbnail_path: thumbnail_path->Ok_0,
        })
    }
}

fn parse_media_fields(params: &JsonValue) -> (r: Result<MediaInfo, String>)
    ensures
        match media_info_decoding(*params) {
            Ok(n) => r matches Ok(x) && x@ == n,
            Err(m) => r matches Err(e) && e@ == m,
        },
{
    match params {
        JsonValue::Object(_) => {
            let album = match decode_opt_string(params.get("album")) {
                Ok(v) => v,
                Err(e) => return Err(e),
            };
            let artist = match decode_opt_string(params.get("artist")) {
                Ok(v) => v,
                Err(e) => return Err(e),
            };
            let thumbnail_path = match decode_opt_string(params.get("thumbnail_path")) {
                Ok(v) => v,
                Err(e) => return Err(e),
            };
            let title = match decode_opt_string(params.get("title")) {
                Ok(v) => v,
                Err(e) => return Err(e),
            };
            Ok(MediaInfo { title, artist, album, thumbnail_path })
        },
        JsonValue::Array(items) => {
            let expected = "struct MediaInfo with 4 elements";
            let title = match decode_seq_opt_string(items, 0, expected) {
                Ok(v) => v,
                Err(e) => return Err(e),
            };
            let artist = match decode_seq_opt_string(items, 1, expected) {
                Ok(v) => v,
                Err(e) => return Err(e),
            };
            let album = match decode_seq_opt_string(items, 2, expected) {
                Ok(v) => v,
                Err(e) => return Err(e),
            };
            let thumbnail_path = match decode_seq_opt_string(items, 3, expected) {
                Ok(v) => v,
                Err(e) => return Err(e),
            };
            if items.len() > 4 {
                return Err(too_long_error(items));
            }
            Ok(MediaInfo { title, artist, album, thumbnail_path })
        },
        _ => Err(invalid_type(params, "struct MediaInfo")),
    }
}

/// Parse the `params` value from an RPC request into `MediaInfo`.
pub fn parse_media_info(params: &JsonValue) -> (r: Result<MediaInfo, AppError>)
    ensures
        match media_info_decoding(*params) {
            Ok(n) => r matches Ok(x) && x@ == n,
            Err(m) => r matches Err(AppError::InvalidRpcParams(e)) && e@ == m,
        },
{
    match parse_media_fields(params) {
        Ok(n) => Ok(n),
        Err(m) => Err(AppError::InvalidRpcParams(m)),
    }
}

/// What parsing a playback status from RPC params gives: the status named
/// by the string field `status`.
pub open spec fn playback_status_decoding(params: JsonValue) -> Result<PlaybackStatus, Seq<char>> {
    match field(params, "status"@) {
        Some(JsonValue::String(s)) => match status_named(s@) {
            Some(st) => Ok(st),
            None => Err("invalid status: "@ + s@),
        },
        _ => Err("missing 'status' field"@),
    }
}

/// Parse playback status from RPC params.
pub fn parse_playback_status(params: &JsonValue) -> (r: Result<PlaybackStatus, AppError>)
    ensures
        match playback_status_decoding(*params) {
            Ok(st) => r == Ok::<PlaybackStatus, AppError>(st),
            Err(m) => r matches Err(AppError::InvalidRpcParams(e)) && e@ == m,
        },
{
    let status_str = match params.get("status") {
        Some(v) => match v.as_str() {
            Some(s) => s,
            None => return Err(AppError::InvalidRpcParams(String::from_str("missing 'status' field"))),
        },
        None => return Err(AppError::InvalidRpcParams(String::from_str("missing 'status' field"))),
    };
    match PlaybackStatus::from_str(status_str) {
        Some(st) => Ok(st),
        None => {
            let mut m = String::from_str("invalid status: ");
            m.append(status_str);
            Err(AppError::InvalidRpcParams(m))
        },
    }
}

/// Decoded media information takes each field from the key of the same
/// name (`None` when the key is absent or `null`), or, for an array, from
/// the element at the field's position.
pub proof fn lemma_media_fields_by_key(params: JsonValue)
    requires
        media_info_decoding(params) is Ok,
    ensures
        params is Object ==> {
            let m = media_info_decoding(params)->Ok_0;
            &&& m.title == string_at(params, "title"@)
            &&& m.artist == string_at(params, "artist"@)
            &&& m.album == string_at(params, "album"@)
            &&& m.thumbnail_path == string_at(params, "thumbnail_path"@)
        },
        params matches JsonValue::Array(items) ==> {
            let m = media_info_decoding(params)->Ok_0;
            &&& m.title == string_elem(items@, 0)
            &&& m.artist == string_elem(items@, 1)
            &&& m.album == string_elem(items@, 2)
            &&& m.thumbnail_path == string_elem(items@, 3)
        },
{
}

} // verus!

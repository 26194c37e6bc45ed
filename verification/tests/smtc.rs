use pcl_ce_extension::error::AppError;
use pcl_ce_extension::json::{JsonNumber, JsonValue};
use pcl_ce_extension::smtc::manager::{
    parse_media_info, parse_playback_status, MediaInfo, PlaybackStatus, SmtcCommand, SmtcManager,
};

fn obj(entries: Vec<(&str, JsonValue)>) -> JsonValue {
    JsonValue::Object(entries.into_iter().map(|(k, v)| (k.to_string(), v)).collect())
}

fn text(s: &str) -> JsonValue {
    JsonValue::String(s.to_string())
}

#[test]
fn playback_status_names() {
    assert_eq!(PlaybackStatus::from_str("playing"), Some(PlaybackStatus::Playing));
    assert_eq!(PlaybackStatus::from_str("Playing"), Some(PlaybackStatus::Playing));
    assert_eq!(PlaybackStatus::from_str("paused"), Some(PlaybackStatus::Paused));
    assert_eq!(PlaybackStatus::from_str("Paused"), Some(PlaybackStatus::Paused));
    assert_eq!(PlaybackStatus::from_str("stopped"), Some(PlaybackStatus::Stopped));
    assert_eq!(PlaybackStatus::from_str("Stopped"), Some(PlaybackStatus::Stopped));
    assert_eq!(PlaybackStatus::from_str("PLAYING"), None);
    assert_eq!(PlaybackStatus::from_str(""), None);
}

#[test]
fn command_method_names() {
    assert_eq!(SmtcCommand::Play.method_name(), "smtc/onPlay");
    assert_eq!(SmtcCommand::Pause.method_name(), "smtc/onPause");
    assert_eq!(SmtcCommand::TogglePlayPause.method_name(), "smtc/onTogglePlayPause");
    assert_eq!(SmtcCommand::Next.method_name(), "smtc/onNext");
    assert_eq!(SmtcCommand::Previous.method_name(), "smtc/onPrevious");
    assert_eq!(SmtcCommand::Stop.method_name(), "smtc/onStop");
}

#[test]
fn smtc_manager_operations_succeed() {
    let m = SmtcManager::new().unwrap();
    let info = MediaInfo { title: None, artist: None, album: None, thumbnail_path: None };
    assert_eq!(m.set_media_info(&info), Ok(()));
    assert_eq!(m.set_playback_status(PlaybackStatus::Paused), Ok(()));
    assert_eq!(m.set_thumbnail("C:\\a.png"), Ok(()));
}

#[test]
fn playback_status_params() {
    assert_eq!(parse_playback_status(&obj(vec![("status", text("paused"))])), Ok(PlaybackStatus::Paused));
    assert_eq!(
        parse_playback_status(&obj(vec![("status", text("rewinding"))])),
        Err(AppError::InvalidRpcParams("invalid status: rewinding".to_string()))
    );
    assert_eq!(
        parse_playback_status(&obj(vec![("status", JsonValue::Number(JsonNumber::PosInt(1)))])),
        Err(AppError::InvalidRpcParams("missing 'status' field".to_string()))
    );
    assert_eq!(
        parse_playback_status(&JsonValue::Null),
        Err(AppError::InvalidRpcParams("missing 'status' field".to_string()))
    );
}

#[test]
fn media_info_params() {
    let info = parse_media_info(&obj(vec![("title", text("Song")), ("artist", text("Me"))])).unwrap();
    assert_eq!(info.title.as_deref(), Some("Song"));
    assert_eq!(info.artist.as_deref(), Some("Me"));
    assert_eq!(info.album, None);
    assert_eq!(info.thumbnail_path, None);
    match parse_media_info(&obj(vec![("album", JsonValue::Array(vec![]))])) {
        Err(AppError::InvalidRpcParams(m)) => assert_eq!(m, "invalid type: sequence, expected a string"),
        other => panic!("unexpected: {other:?}"),
    }
    match parse_media_info(&JsonValue::Bool(true)) {
        Err(AppError::InvalidRpcParams(m)) => assert_eq!(m, "invalid type: boolean `true`, expected struct MediaInfo"),
        other => panic!("unexpected: {other:?}"),
    }
}

#[test]
fn media_info_params_as_array() {
    let m = parse_media_info(&JsonValue::Array(vec![text("Song"), text("Artist"), JsonValue::Null, JsonValue::Null]))
        .unwrap();
    assert_eq!(m.title.as_deref(), Some("Song"));
    assert_eq!(m.artist.as_deref(), Some("Artist"));
    assert_eq!(m.album, None);
    assert_eq!(m.thumbnail_path, None);
    match parse_media_info(&JsonValue::Array(vec![text("Song")])) {
        Err(AppError::InvalidRpcParams(e)) => {
            assert_eq!(e, "invalid length 1, expected struct MediaInfo with 4 elements")
        },
        other => panic!("unexpected: {other:?}"),
    }
    let five = JsonValue::Array(vec![JsonValue::Null, JsonValue::Null, JsonValue::Null, JsonValue::Null, JsonValue::Null]);
    match parse_media_info(&five) {
        Err(AppError::InvalidRpcParams(e)) => assert_eq!(e, "invalid length 5, expected fewer elements in array"),
        other => panic!("unexpected: {other:?}"),
    }
}

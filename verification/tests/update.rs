use pcl_ce_extension::error::AppError;
use pcl_ce_extension::json::{JsonNumber, JsonValue};
use pcl_ce_extension::update::manager::{parse_update_params, restart_script, UpdateFile, UpdateManager};

fn obj(entries: Vec<(&str, JsonValue)>) -> JsonValue {
    JsonValue::Object(entries.into_iter().map(|(k, v)| (k.to_string(), v)).collect())
}

fn text(s: &str) -> JsonValue {
    JsonValue::String(s.to_string())
}

#[test]
fn manager_keeps_working_dir() {
    let m = UpdateManager::new("C:\\PCL".to_string());
    assert_eq!(m.working_dir(), "C:\\PCL");
}

#[test]
fn decodes_base64_data() {
    let f = UpdateFile { path: "a.txt".to_string(), data: "aGVsbG8=".to_string() };
    assert_eq!(f.decode_data(), Ok(b"hello".to_vec()));
    let bad = UpdateFile { path: "a.txt".to_string(), data: "!!!!".to_string() };
    assert_eq!(
        bad.decode_data(),
        Err(AppError::Update("Base64 decode failed: Invalid symbol 33, offset 0.".to_string()))
    );
}

#[test]
fn parses_update_params() {
    let p = obj(vec![
        ("files", JsonValue::Array(vec![obj(vec![("path", text("bin/x.exe")), ("data", text("AA=="))])])),
        ("signature", text("sig")),
    ]);
    let pkg = parse_update_params(&p).unwrap();
    assert_eq!(pkg.files.len(), 1);
    assert_eq!(pkg.files[0].path, "bin/x.exe");
    assert_eq!(pkg.files[0].data, "AA==");
    assert_eq!(pkg.signature.as_deref(), Some("sig"));
}

fn params_error(p: &JsonValue) -> String {
    match parse_update_params(p) {
        Err(AppError::InvalidRpcParams(m)) => m,
        other => panic!("unexpected: {other:?}"),
    }
}

#[test]
fn update_param_errors() {
    assert_eq!(params_error(&obj(vec![])), "missing field `files`");
    assert_eq!(
        params_error(&obj(vec![("signature", JsonValue::Number(JsonNumber::PosInt(2)))])),
        "invalid type: integer `2`, expected a string"
    );
    assert_eq!(
        params_error(&obj(vec![("files", JsonValue::Array(vec![obj(vec![("data", text("x"))])]))])),
        "missing field `path`"
    );
    assert_eq!(params_error(&JsonValue::Null), "invalid type: null, expected struct UpdatePackage");
}

#[test]
fn restart_script_layout() {
    let s = restart_script(4242, "C:\\new.exe", "C:\\cur.exe");
    assert!(s.starts_with("@echo off\nchcp 65001 > nul\n"));
    assert!(s.contains(":wait\ntasklist /FI \"PID eq 4242\" 2>nul | findstr /I \"4242\" >nul\nif not errorlevel 1 (\n"));
    assert!(!s.contains("%PPID%"));
    assert!(s.contains("copy /Y \"C:\\new.exe\" \"C:\\cur.exe\" > nul\n"));
    assert!(s.find("tasklist").unwrap() < s.find("copy /Y").unwrap());
    assert!(s.contains("start \"\" \"C:\\cur.exe\"\n"));
    assert!(s.ends_with("del \"%~f0\"\n"));
}

#[test]
fn update_params_as_array() {
    let p = JsonValue::Array(vec![JsonValue::Array(vec![JsonValue::Array(vec![text("a.txt"), text("AA==")])]), JsonValue::Null]);
    let pkg = parse_update_params(&p).unwrap();
    assert_eq!(pkg.files.len(), 1);
    assert_eq!(pkg.files[0].path, "a.txt");
    assert_eq!(pkg.files[0].data, "AA==");
    assert_eq!(pkg.signature, None);
    assert_eq!(
        params_error(&JsonValue::Array(vec![JsonValue::Array(vec![])])),
        "invalid length 1, expected struct UpdatePackage with 2 elements"
    );
    assert_eq!(
        params_error(&JsonValue::Array(vec![])),
        "invalid length 0, expected struct UpdatePackage with 2 elements"
    );
    assert_eq!(
        params_error(&JsonValue::Array(vec![JsonValue::Array(vec![JsonValue::Array(vec![text("a"), text("b"), text("c")])]), JsonValue::Null])),
        "invalid length 3, expected fewer elements in array"
    );
}

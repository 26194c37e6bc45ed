use pcl_ce_extension::error::AppError;
use pcl_ce_extension::json::{JsonNumber, JsonValue};
use pcl_ce_extension::toast::manager::{
    build_toast_xml, escape_xml, parse_toast_params, ToastAction, ToastManager, ToastNotification,
};

fn obj(entries: Vec<(&str, JsonValue)>) -> JsonValue {
    JsonValue::Object(entries.into_iter().map(|(k, v)| (k.to_string(), v)).collect())
}

fn text(s: &str) -> JsonValue {
    JsonValue::String(s.to_string())
}

fn bare() -> ToastNotification {
    ToastNotification { title: None, body: None, tag: None, image_path: None, actions: vec![] }
}

#[test]
fn escapes_the_five_xml_characters() {
    assert_eq!(escape_xml("a&b<c>d\"e'f"), "a&amp;b&lt;c&gt;d&quot;e&apos;f");
    assert_eq!(escape_xml("&amp;"), "&amp;amp;");
    assert_eq!(escape_xml("plain"), "plain");
}

#[test]
fn empty_toast_xml() {
    assert_eq!(
        build_toast_xml(&bare()),
        "<?xml version=\"1.0\" encoding=\"utf-8\"?><toast><visual><binding template='ToastGeneric'></binding></visual></toast>"
    );
}

#[test]
fn full_toast_xml() {
    let n = ToastNotification {
        title: Some("T & co".to_string()),
        body: Some("<b>".to_string()),
        tag: Some("tag".to_string()),
        image_path: Some("C:\\img\\a.png".to_string()),
        actions: vec![
            ToastAction { text: "Open".to_string(), arguments: "open'1".to_string() },
            ToastAction { text: "Close".to_string(), arguments: "close".to_string() },
        ],
    };
    assert_eq!(
        build_toast_xml(&n),
        "<?xml version=\"1.0\" encoding=\"utf-8\"?><toast><visual><binding template='ToastGeneric'>\
<text>T &amp; co</text><text>&lt;b&gt;</text>\
<image placement='appLogoOverride' src='file:///C:/img/a.png'/>\
</binding></visual><actions><action content='Open' arguments='open&apos;1'/>\
<action content='Close' arguments='close'/></actions></toast>"
    );
}

#[test]
fn file_uri_kept() {
    let mut n = bare();
    n.image_path = Some("file://host/a\\b.png".to_string());
    let xml = build_toast_xml(&n);
    assert!(xml.contains("src='file://host/a\\b.png'"));
}

#[test]
fn toast_manager_operations_succeed() {
    let m = ToastManager::new("PCL.CE.Extension".to_string());
    assert_eq!(m.show(&bare()), Ok(()));
    assert_eq!(m.clear_by_tag("x"), Ok(()));
    assert_eq!(m.clear_all(), Ok(()));
}

#[test]
fn parses_toast_params() {
    let p = obj(vec![
        ("title", text("Hello")),
        ("body", JsonValue::Null),
        ("unknown", JsonValue::Bool(true)),
        ("actions", JsonValue::Array(vec![obj(vec![("text", text("Go")), ("arguments", text("go"))])])),
    ]);
    let n = parse_toast_params(&p).unwrap();
    assert_eq!(n.title.as_deref(), Some("Hello"));
    assert_eq!(n.body, None);
    assert_eq!(n.tag, None);
    assert_eq!(n.image_path, None);
    assert_eq!(n.actions.len(), 1);
    assert_eq!(n.actions[0].text, "Go");
    assert_eq!(n.actions[0].arguments, "go");
    let n = parse_toast_params(&obj(vec![])).unwrap();
    assert!(n.actions.is_empty());
}

fn params_error(p: &JsonValue) -> String {
    match parse_toast_params(p) {
        Err(AppError::InvalidRpcParams(m)) => m,
        other => panic!("unexpected: {other:?}"),
    }
}

#[test]
fn toast_param_errors() {
    assert_eq!(params_error(&JsonValue::Null), "invalid type: null, expected struct ToastNotification");
    assert_eq!(params_error(&text("x")), "invalid type: string \"x\", expected struct ToastNotification");
    assert_eq!(
        params_error(&obj(vec![("title", JsonValue::Bool(false))])),
        "invalid type: boolean `false`, expected a string"
    );
    assert_eq!(
        params_error(&obj(vec![("actions", obj(vec![]))])),
        "invalid type: map, expected a sequence"
    );
    assert_eq!(
        params_error(&obj(vec![("actions", JsonValue::Array(vec![obj(vec![("arguments", text("a"))])]))])),
        "missing field `text`"
    );
    assert_eq!(
        params_error(&obj(vec![("actions", JsonValue::Array(vec![obj(vec![("text", text("a"))])]))])),
        "missing field `arguments`"
    );
    assert_eq!(
        params_error(&obj(vec![("actions", JsonValue::Array(vec![JsonValue::Number(JsonNumber::NegInt(-3))]))])),
        "invalid type: integer `-3`, expected struct ToastAction"
    );
    // Fields are examined in key order: `actions` before `title`.
    assert_eq!(
        params_error(&obj(vec![("title", JsonValue::Bool(true)), ("actions", text("no"))])),
        "invalid type: string \"no\", expected a sequence"
    );
}

#[test]
fn toast_params_as_array() {
    let n = parse_toast_params(&JsonValue::Array(vec![JsonValue::Null, JsonValue::Null, JsonValue::Null, JsonValue::Null]))
        .unwrap();
    assert_eq!(n.title, None);
    assert_eq!(n.body, None);
    assert_eq!(n.tag, None);
    assert_eq!(n.image_path, None);
    assert!(n.actions.is_empty());

    let n = parse_toast_params(&JsonValue::Array(vec![
        text("T"),
        text("B"),
        JsonValue::Null,
        text("img.png"),
        JsonValue::Array(vec![JsonValue::Array(vec![text("Go"), text("go")])]),
    ]))
    .unwrap();
    assert_eq!(n.title.as_deref(), Some("T"));
    assert_eq!(n.body.as_deref(), Some("B"));
    assert_eq!(n.tag, None);
    assert_eq!(n.image_path.as_deref(), Some("img.png"));
    assert_eq!(n.actions.len(), 1);
    assert_eq!(n.actions[0].text, "Go");
    assert_eq!(n.actions[0].arguments, "go");
}

#[test]
fn toast_array_length_errors() {
    assert_eq!(
        params_error(&JsonValue::Array(vec![JsonValue::Null, JsonValue::Null])),
        "invalid length 2, expected struct ToastNotification with 5 elements"
    );
    let six = JsonValue::Array(vec![
        JsonValue::Null,
        JsonValue::Null,
        JsonValue::Null,
        JsonValue::Null,
        JsonValue::Array(vec![]),
        JsonValue::Null,
    ]);
    assert_eq!(params_error(&six), "invalid length 6, expected fewer elements in array");
    let short_action = JsonValue::Array(vec![
        JsonValue::Null,
        JsonValue::Null,
        JsonValue::Null,
        JsonValue::Null,
        JsonValue::Array(vec![JsonValue::Array(vec![text("Go")])]),
    ]);
    assert_eq!(params_error(&short_action), "invalid length 1, expected struct ToastAction with 2 elements");
    assert_eq!(
        params_error(&JsonValue::Array(vec![JsonValue::Bool(true)])),
        "invalid type: boolean `true`, expected a string"
    );
}

//! Toast notification content: the notification and its actions, the XML
//! that the Windows toast API takes, and decoding from RPC parameters.
use vstd::prelude::*;

use crate::error::AppError;
use crate::json::{
    decode_opt_string, decode_seq_opt_string, decode_seq_string, decode_string, elem, seq_opt_string_decoding, seq_string_decoding, too_long, too_long_error, too_long_message, deref_opt, field, invalid_type, invalid_type_message,
    opt_string_decoding, opt_view, string_at, string_elem, JsonValue,
};
use crate::text::{chars_of, has_prefix, push_char, starts_with};

verus! {

/// A button/action on a toast notification.
#[derive(Debug)]
pub struct ToastAction {
    pub text: String,
    /// Arguments passed back when clicked (daemon forwards to .NET).
    pub arguments: String,
}

/// A toast notification to display.
#[derive(Debug)]
pub struct ToastNotification {
    pub title: Option<String>,
    pub body: Option<String>,
    /// Deduplication tag (replaces existing toast with same tag).
    pub tag: Option<String>,
    /// Optional absolute path to an image (e.g. `C:\path\to\img.png`).
    pub image_path: Option<String>,
    /// Optional action buttons.
    pub actions: Vec<ToastAction>,
}

/// The content of an action.
pub struct ToastActionView {
    pub text: Seq<char>,
    pub arguments: Seq<char>,
}

/// The content of a notification.
pub struct ToastNotificationView {
    pub title: Option<Seq<char>>,
    pub body: Option<Seq<char>>,
    pub tag: Option<Seq<char>>,
    pub image_path: Option<Seq<char>>,
    pub actions: Seq<ToastActionView>,
}

impl View for ToastAction {
    type V = ToastActionView;

    open spec fn view(&self) -> ToastActionView {
        ToastActionView { text: self.text@, arguments: self.arguments@ }
    }
}

impl View for ToastNotification {
    type V = ToastNotificationView;

    open spec fn view(&self) -> ToastNotificationView {
        ToastNotificationView {
            title: opt_view(self.title),
            body: opt_view(self.body),
            tag: opt_view(self.tag),
            image_path: opt_view(self.image_path),
            actions: Seq::new(self.actions@.len(), |i: int| self.actions@[i]@),
        }
    }
}

/// Toast Manager: shows and clears notifications of one application.
///
/// Toasts exist on Windows only; elsewhere every operation succeeds and
/// does nothing.
pub struct ToastManager {
    app_id: String,
}

impl ToastManager {
    /// The application's AppUserModelId.
    pub closed spec fn spec_app_id(&self) -> Seq<char> {
        self.app_id@
    }

    /// Create a new ToastManager with the given AppUserModelId.
    ///
    /// The `app_id` must match the .NET application's AppUserModelId
    /// for proper Action Center grouping.
    pub fn new(app_id: String) -> (r: Self)
        ensures
            r.spec_app_id() == app_id@,
    {
        ToastManager { app_id }
    }

    /// Show a toast notification. There is no toast service on this
    /// platform: it succeeds without showing anything.
    pub fn show(&self, notification: &ToastNotification) -> (r: Result<(), AppError>)
        ensures
            r is Ok,
    {
        Ok(())
    }

    /// Clear a toast by tag. There is no toast service on this platform: it
    /// succeeds without doing anything.
    pub fn clear_by_tag(&self, tag: &str) -> (r: Result<(), AppError>)
        ensures
            r is Ok,
    {
        Ok(())
    }

    /// Clear all toasts from this app. There is no toast service on this
    /// platform: it succeeds without doing anything.
    pub fn clear_all(&self) -> (r: Result<(), AppError>)
        ensures
            r is Ok,
    {
        Ok(())
    }
}

// ============================================================
// XML builder
// ============================================================

/// The escape of one character in XML text and attribute values.
pub open spec fn xml_escape_char(c: char) -> Seq<char> {
    if c == '&' {
        "&amp;"@
    } else if c == '<' {
        "&lt;"@
    } else if c == '>' {
        "&gt;"@
    } else if c == '"' {
        "&quot;"@
    } else if c == '\'' {
        "&apos;"@
    } else {
        seq![c]
    }
}

/// `s` with the five XML special characters escaped.
pub open spec fn xml_escaped(s: Seq<char>) -> Seq<char>
    decreases s.len(),
{
    if s.len() == 0 {
        Seq::empty()
    } else {
        xml_escaped(s.drop_last()) + xml_escape_char(s.last())
    }
}

/// Appends `s` with the XML special characters escaped.
fn push_escaped(out: &mut String, s: &str)
    ensures
        final(out)@ == old(out)@ + xml_escaped(s@),
{
    let cs = chars_of(s);
    let ghost start = out@;
    let mut i: usize = 0;
    while i < cs.len()
        invariant
            cs@ == s@,
            i <= cs@.len(),
            out@ == start + xml_escaped(cs@.take(i as int)),
        decreases cs@.len() - i,
    {
        let c = cs[i];
        if c == '&' {
            out.append("&amp;");
        } else if c == '<' {
            out.append("&lt;");
        } else if c == '>' {
            out.append("&gt;");
        } else if c == '"' {
            out.append("&quot;");
        } else if c == '\'' {
            out.append("&apos;");
        } else {
            push_char(out, c);
        }
        assert(cs@.take(i + 1).drop_last() == cs@.take(i as int));
        i = i + 1;
    }
    assert(cs@.take(cs@.len() as int) == cs@);
}

/// Escaped text holds no markup: no `<`, `>`, `"` or `'`, whatever the
/// input.
pub proof fn lemma_escaped_has_no_markup(s: Seq<char>)
    ensures
        forall|i: int|
            0 <= i < xml_escaped(s).len() ==> {
                let c = #[trigger] xml_escaped(s)[i];
                c != '<' && c != '>' && c != '"' && c != '\''
            },
    decreases s.len(),
{
    if s.len() > 0 {
        lemma_escaped_has_no_markup(s.drop_last());
        let prev = xml_escaped(s.drop_last());
        let tail = xml_escape_char(s.last());
        reveal_strlit("&amp;");
        reveal_strlit("&lt;");
        reveal_strlit("&gt;");
        reveal_strlit("&quot;");
        reveal_strlit("&apos;");
        assert forall|i: int| 0 <= i < xml_escaped(s).len() implies {
            let c = #[trigger] xml_escaped(s)[i];
            c != '<' && c != '>' && c != '"' && c != '\''
        } by {
            if i >= prev.len() {
                assert(xml_escaped(s)[i] == tail[i - prev.len()]);
            } else {
                assert(xml_escaped(s)[i] == prev[i]);
            }
        }
    }
}

/// Escape special XML characters.
pub fn escape_xml(s: &str) -> (r: String)
    ensures
        r@ == xml_escaped(s@),
{
    let mut out = String::new();
    push_escaped(&mut out, s);
    out
}

/// `s` with every backslash turned into a forward slash.
pub open spec fn forward_slashes(s: Seq<char>) -> Seq<char> {
    Seq::new(s.len(), |i: int| if s[i] == '\\' { '/' } else { s[i] })
}

/// The `file://` URI of an image path: kept as is when it already is one.
pub open spec fn image_uri(path: Seq<char>) -> Seq<char> {
    if starts_with(path, "file://"@) {
        path
    } else {
        "file:///"@ + forward_slashes(path)
    }
}

/// A `<text>` element, when there is text.
pub open spec fn text_element(t: Option<Seq<char>>) -> Seq<char> {
    match t {
        Some(t) => "<text>"@ + xml_escaped(t) + "</text>"@,
        None => Seq::empty(),
    }
}

/// The `<image>` element, when there is an image.
pub open spec fn image_element(p: Option<Seq<char>>) -> Seq<char> {
    match p {
        Some(p) => "<image placement='appLogoOverride' src='"@ + xml_escaped(image_uri(p)) + "'/>"@,
        None => Seq::empty(),
    }
}

/// One `<action>` element.
pub open spec fn action_element(a: ToastActionView) -> Seq<char> {
    "<action content='"@ + xml_escaped(a.text) + "' arguments='"@ + xml_escaped(a.arguments) + "'/>"@
}

/// The `<action>` elements, in order.
pub open spec fn action_elements(acts: Seq<ToastActionView>) -> Seq<char>
    decreases acts.len(),
{
    if acts.len() == 0 {
        Seq::empty()
    } else {
        action_elements(acts.drop_last()) + action_element(acts.last())
    }
}

/// The `<actions>` block, when there are actions.
pub open spec fn actions_block(acts: Seq<ToastActionView>) -> Seq<char> {
    if acts.len() == 0 {
        Seq::empty()
    } else {
        "<actions>"@ + action_elements(acts) + "</actions>"@
    }
}

/// The toast XML of a notification, in the `ToastGeneric` template.
pub open spec fn toast_xml(n: ToastNotificationView) -> Seq<char> {
    "<?xml version=\"1.0\" encoding=\"utf-8\"?><toast>"@
        + "<visual><binding template='ToastGeneric'>"@
        + text_element(n.title)
        + text_element(n.body)
        + image_element(n.image_path)
        + "</binding></visual>"@
        + actions_block(n.actions)
        + "</toast>"@
}

/// Appends the `file://` URI of an image path, XML-escaped.
fn push_image_uri(out: &mut String, path: &str)
    ensures
        final(out)@ == old(out)@ + xml_escaped(image_uri(path@)),
{
    let cs = chars_of(path);
    let mut uri = String::new();
    if has_prefix(&cs, "file://") {
        uri.append(path);
    } else {
        uri.append("file:///");
        let ghost start = uri@;
        let mut i: usize = 0;
        while i < cs.len()
            invariant
                cs@ == path@,
                i <= cs@.len(),
                uri@ == start + forward_slashes(cs@.take(i as int)),
            decreases cs@.len() - i,
        {
            let c = cs[i];
            if c == '\\' {
                push_char(&mut uri, '/');
            } else {
                push_char(&mut uri, c);
            }
            assert(forward_slashes(cs@.take(i + 1)) == forward_slashes(cs@.take(i as int)).push(
                if c == '\\' { '/' } else { c },
            ));
            i = i + 1;
        }
        assert(cs@.take(cs@.len() as int) == cs@);
    }
    push_escaped(out, uri.as_str());
}

/// Appends a `<text>` element when there is text.
fn push_text_element(out: &mut String, t: &Option<String>)
    ensures
        final(out)@ == old(out)@ + text_element(opt_view(*t)),
{
    if let Some(t) = t {
        out.append("<text>");
        push_escaped(out, t.as_str());
        out.append("</text>");
    }
}

/// Appends the `<image>` element when there is an image.
fn push_image_element(out: &mut String, p: &Option<String>)
    ensures
        final(out)@ == old(out)@ + image_element(opt_view(*p)),
{
    if let Some(path) = p {
        out.append("<image placement='appLogoOverride' src='");
        push_image_uri(out, path.as_str());
        out.append("'/>");
    }
}

/// Appends the `<actions>` block when there are actions.
fn push_actions_block(out: &mut String, actions: &Vec<ToastAction>)
    ensures
        final(out)@ == old(out)@ + actions_block(Seq::new(actions@.len(), |i: int| actions@[i]@)),
{
    let ghost acts = Seq::new(actions@.len(), |i: int| actions@[i]@);
    let n = actions.len();
    if n > 0 {
        out.append("<actions>");
        let ghost start = out@;
        let mut i: usize = 0;
        while i < n
            invariant
                n == actions@.len(),
                acts == Seq::new(actions@.len(), |i: int| actions@[i]@),
                i <= n,
                out@ == start + action_elements(acts.take(i as int)),
            decreases n - i,
        {
            let action = &actions[i];
            out.append("<action content='");
            push_escaped(out, action.text.as_str());
            out.append("' arguments='");
            push_escaped(out, action.arguments.as_str());
            out.append("'/>");
            assert(acts.take(i + 1).drop_last() == acts.take(i as int));
            assert(acts[i as int] == action@);
            i = i + 1;
        }
        assert(acts.take(n as int) == acts);
        out.append("</actions>");
    }
}

/// Build the toast XML string for the Windows Toast API.
///
/// Uses the `ToastGeneric` template (recommended for Windows 10+),
/// supporting title, body, image, and action buttons.
pub fn build_toast_xml(notification: &ToastNotification) -> (r: String)
    ensures
        r@ == toast_xml(notification@),
{
    let mut xml = String::from_str("<?xml version=\"1.0\" encoding=\"utf-8\"?><toast>");
    xml.append("<visual><binding template='ToastGeneric'>");
    push_text_element(&mut xml, &notification.title);
    push_text_element(&mut xml, &notification.body);
    push_image_element(&mut xml, &notification.image_path);
    xml.append("</binding></visual>");
    push_actions_block(&mut xml, &notification.actions);
    xml.append("</toast>");
    xml
}

/// Reading XML text back: the five entities that escaping writes become
/// their characters again; every other character stays.
pub open spec fn xml_unescape(s: Seq<char>) -> Seq<char>
    decreases s.len(),
{
    if s.len() == 0 {
        Seq::empty()
    } else if s.len() >= 5 && s.take(5) == "&amp;"@ {
        seq!['&'] + xml_unescape(s.skip(5))
    } else if s.len() >= 4 && s.take(4) == "&lt;"@ {
        seq!['<'] + xml_unescape(s.skip(4))
    } else if s.len() >= 4 && s.take(4) == "&gt;"@ {
        seq!['>'] + xml_unescape(s.skip(4))
    } else if s.len() >= 6 && s.take(6) == "&quot;"@ {
        seq!['"'] + xml_unescape(s.skip(6))
    } else if s.len() >= 6 && s.take(6) == "&apos;"@ {
        seq!['\''] + xml_unescape(s.skip(6))
    } else {
        seq![s[0]] + xml_unescape(s.drop_first())
    }
}

/// Escaping a string that starts with `c` starts with the escape of `c`.
proof fn lemma_escaped_cons(c: char, s: Seq<char>)
    ensures
        xml_escaped(seq![c] + s) == xml_escape_char(c) + xml_escaped(s),
    decreases s.len(),
{
    let t = seq![c] + s;
    if s.len() == 0 {
        assert(t.drop_last() == Seq::<char>::empty());
        assert(xml_escaped(Seq::<char>::empty()) == Seq::<char>::empty());
        assert(xml_escaped(t) == xml_escape_char(c));
    } else {
        assert(t.drop_last() == seq![c] + s.drop_last());
        assert(t.last() == s.last());
        lemma_escaped_cons(c, s.drop_last());
    }
}

/// Escaping loses nothing: reading escaped text back gives the text.
pub proof fn lemma_unescape_escaped(s: Seq<char>)
    ensures
        xml_unescape(xml_escaped(s)) == s,
    decreases s.len(),
{
    if s.len() > 0 {
        let c = s[0];
        let rest = s.drop_first();
        assert(seq![c] + rest == s);
        lemma_escaped_cons(c, rest);
        lemma_unescape_escaped(rest);
        let r = xml_escaped(rest);
        let e = xml_escape_char(c);
        let t = e + r;
        reveal_strlit("&amp;");
        reveal_strlit("&lt;");
        reveal_strlit("&gt;");
        reveal_strlit("&quot;");
        reveal_strlit("&apos;");
        if c == '&' {
            assert(t.take(5) == "&amp;"@);
            assert(t.skip(5) == r);
        } else if c == '<' {
            assert(!(t.len() >= 5 && t.take(5) == "&amp;"@)) by { if t.len() >= 5 { assert(t.take(5)[1] != "&amp;"@[1]); } }
            assert(t.take(4) == "&lt;"@);
            assert(t.skip(4) == r);
        } else if c == '>' {
            assert(!(t.len() >= 5 && t.take(5) == "&amp;"@)) by { if t.len() >= 5 { assert(t.take(5)[1] != "&amp;"@[1]); } }
            assert(!(t.len() >= 4 && t.take(4) == "&lt;"@)) by { if t.len() >= 4 { assert(t.take(4)[1] != "&lt;"@[1]); } }
            assert(t.take(4) == "&gt;"@);
            assert(t.skip(4) == r);
        } else if c == '"' {
            assert(!(t.len() >= 5 && t.take(5) == "&amp;"@)) by { if t.len() >= 5 { assert(t.take(5)[1] != "&amp;"@[1]); } }
            assert(!(t.len() >= 4 && t.take(4) == "&lt;"@)) by { if t.len() >= 4 { assert(t.take(4)[1] != "&lt;"@[1]); } }
            assert(!(t.len() >= 4 && t.take(4) == "&gt;"@)) by { if t.len() >= 4 { assert(t.take(4)[1] != "&gt;"@[1]); } }
            assert(t.take(6) == "&quot;"@);
            assert(t.skip(6) == r);
        } else if c == '\'' {
            assert(!(t.len() >= 5 && t.take(5) == "&amp;"@)) by { if t.len() >= 5 { assert(t.take(5)[2] != "&amp;"@[2]); } }
            assert(!(t.len() >= 4 && t.take(4) == "&lt;"@)) by { if t.len() >= 4 { assert(t.take(4)[1] != "&lt;"@[1]); } }
            assert(!(t.len() >= 4 && t.take(4) == "&gt;"@)) by { if t.len() >= 4 { assert(t.take(4)[1] != "&gt;"@[1]); } }
            assert(!(t.len() >= 6 && t.take(6) == "&quot;"@)) by { if t.len() >= 6 { assert(t.take(6)[1] != "&quot;"@[1]); } }
            assert(t.take(6) == "&apos;"@);
            assert(t.skip(6) == r);
        } else {
            assert(t[0] == c);
            assert(t.len() >= 5 ==> t.take(5) != "&amp;"@) by {
                if t.len() >= 5 { assert(t.take(5)[0] != "&amp;"@[0]); }
            }
            assert(t.len() >= 4 ==> t.take(4) != "&lt;"@) by {
                if t.len() >= 4 { assert(t.take(4)[0] != "&lt;"@[0]); }
            }
            assert(t.len() >= 4 ==> t.take(4) != "&gt;"@) by {
                if t.len() >= 4 { assert(t.take(4)[0] != "&gt;"@[0]); }
            }
            assert(t.len() >= 6 ==> t.take(6) != "&quot;"@) by {
                if t.len() >= 6 { assert(t.take(6)[0] != "&quot;"@[0]); }
            }
            assert(t.len() >= 6 ==> t.take(6) != "&apos;"@) by {
                if t.len() >= 6 { assert(t.take(6)[0] != "&apos;"@[0]); }
            }
            assert(t.drop_first() == r);
        }
    }
}

/// Whether `w` occurs in `s` at position `p`.
pub open spec fn occurs_at(s: Seq<char>, w: Seq<char>, p: int) -> bool {
    0 <= p && p + w.len() <= s.len() && s.subrange(p, p + w.len()) == w
}

/// The markup of the `i`-th action's elements comes before that of the
/// next.
proof fn lemma_action_elements_prefix(acts: Seq<ToastActionView>, i: int)
    requires
        0 <= i < acts.len(),
    ensures
        occurs_at(action_elements(acts), action_element(acts[i]), action_elements(acts.take(i)).len() as int),
    decreases acts.len(),
{
    let all = action_elements(acts);
    let pre = action_elements(acts.take(i));
    let w = action_element(acts[i]);
    if i == acts.len() - 1 {
        assert(acts.drop_last() == acts.take(i));
        assert(all == pre + w);
        assert(all.subrange(pre.len() as int, pre.len() + w.len() as int) == w);
    } else {
        let init = acts.drop_last();
        assert(init.take(i) == acts.take(i));
        assert(init[i] == acts[i]);
        lemma_action_elements_prefix(init, i);
        let a = action_elements(init);
        assert(all == a + action_element(acts.last()));
        assert(all.subrange(pre.len() as int, pre.len() + w.len() as int) == a.subrange(pre.len() as int, pre.len() + w.len() as int));
    }
}

/// In the toast XML, each action's label and arguments appear only
/// XML-escaped, as the `content` and `arguments` attributes of its
/// `<action>` element; the `<action>` elements come in the order of the
/// actions, the `i`-th one after the markup of the `i` before it.
pub proof fn lemma_action_attributes_escaped(n: ToastNotificationView, i: int)
    requires
        0 <= i < n.actions.len(),
    ensures
        exists|p: int|
            #[trigger] occurs_at(
                toast_xml(n),
                "<action content='"@ + xml_escaped(n.actions[i].text) + "' arguments='"@ + xml_escaped(
                    n.actions[i].arguments,
                ) + "'/>"@,
                p,
            ),
{
    let acts = n.actions;
    let head = "<?xml version=\"1.0\" encoding=\"utf-8\"?><toast>"@ + "<visual><binding template='ToastGeneric'>"@
        + text_element(n.title) + text_element(n.body) + image_element(n.image_path) + "</binding></visual>"@;
    let x = toast_xml(n);
    let w = action_element(acts[i]);
    lemma_action_elements_prefix(acts, i);
    let q = action_elements(acts.take(i)).len() as int;
    let p = head.len() + "<actions>"@.len() + q;
    assert(x == head + ("<actions>"@ + action_elements(acts) + "</actions>"@) + "</toast>"@);
    assert(x.subrange(p, p + w.len()) == action_elements(acts).subrange(q, q + w.len()));
    assert(occurs_at(x, w, p));
}

/// In the toast XML, the title and the body appear only XML-escaped, each
/// in a `<text>` element, the title's first after the template's binding;
/// the image's URI appears only XML-escaped, as the `src` attribute of the
/// `<image>` element.
pub proof fn lemma_texts_escaped(n: ToastNotificationView)
    ensures
        n.title matches Some(t) ==> occurs_at(
            toast_xml(n),
            "<binding template='ToastGeneric'><text>"@ + xml_escaped(t) + "</text>"@,
            "<?xml version=\"1.0\" encoding=\"utf-8\"?><toast><visual>"@.len() as int,
        ),
        n.body matches Some(b) ==> exists|p: int|
            #[trigger] occurs_at(toast_xml(n), "<text>"@ + xml_escaped(b) + "</text>"@, p),
        n.image_path matches Some(path) ==> exists|p: int|
            #[trigger] occurs_at(toast_xml(n), "src='"@ + xml_escaped(image_uri(path)) + "'/>"@, p),
{
    reveal_strlit("<?xml version=\"1.0\" encoding=\"utf-8\"?><toast>");
    reveal_strlit("<visual><binding template='ToastGeneric'>");
    reveal_strlit("<?xml version=\"1.0\" encoding=\"utf-8\"?><toast><visual>");
    reveal_strlit("<binding template='ToastGeneric'><text>");
    reveal_strlit("<visual>");
    reveal_strlit("<binding template='ToastGeneric'>");
    reveal_strlit("<text>");
    reveal_strlit("<image placement='appLogoOverride' src='");
    reveal_strlit("<image placement='appLogoOverride' ");
    reveal_strlit("src='");
    let h1 = "<?xml version=\"1.0\" encoding=\"utf-8\"?><toast>"@;
    let h2 = "<visual><binding template='ToastGeneric'>"@;
    let x = toast_xml(n);
    let tt = text_element(n.title);
    let bt = text_element(n.body);
    let it = image_element(n.image_path);
    let rest = "</binding></visual>"@ + actions_block(n.actions) + "</toast>"@;
    assert(x == h1 + h2 + tt + bt + it + rest);
    if let Some(t) = n.title {
        let w = "<binding template='ToastGeneric'><text>"@ + xml_escaped(t) + "</text>"@;
        let p = "<?xml version=\"1.0\" encoding=\"utf-8\"?><toast><visual>"@.len() as int;
        assert(h1 + h2 + tt == (h1 + "<visual>"@) + w);
        assert(x.subrange(p, p + w.len()) == w);
    }
    if let Some(b) = n.body {
        let p = (h1 + h2 + tt).len() as int;
        assert(x.subrange(p, p + bt.len()) == bt);
        assert(occurs_at(x, bt, p));
    }
    if let Some(path) = n.image_path {
        let w = "src='"@ + xml_escaped(image_uri(path)) + "'/>"@;
        let pre = "<image placement='appLogoOverride' "@;
        assert(it == pre + w);
        let p = ((h1 + h2 + tt + bt).len() + pre.len()) as int;
        assert(x.subrange(p, p + w.len()) == w);
        assert(occurs_at(x, w, p));
    }
}

// ============================================================
// Decoding from RPC parameters
// ============================================================

/// Whether a field is present with a value of another type than a string.
pub open spec fn not_a_string(f: Option<JsonValue>) -> bool {
    f matches Some(x) && !(x is String)
}

/// What decoding a toast action gives: its text and arguments, both
/// required strings. Wrong types are reported in key order (`arguments`,
/// then `text`), then missing fields in declaration order.
pub open spec fn action_decoding(v: JsonValue) -> Result<ToastActionView, Seq<char>> {
    match v {
        JsonValue::Object(_) => {
            let args = field(v, "arguments"@);
            let text = field(v, "text"@);
            if not_a_string(args) {
                Err(invalid_type_message(args->0, "a string"@))
            } else if not_a_string(text) {
                Err(invalid_type_message(text->0, "a string"@))
            } else if text is None {
                Err("missing field `"@ + "text"@ + "`"@)
            } else if args is None {
                Err("missing field `"@ + "arguments"@ + "`"@)
            } else {
                Ok(ToastActionView { text: text->0->String_0@, arguments: args->0->String_0@ })
            }
        },
        JsonValue::Array(items) => action_seq_decoding(items@),
        _ => Err(invalid_type_message(v, "struct ToastAction"@)),
    }
}

/// What decoding a toast action given as an array `[text, arguments]`
/// gives: elements in declaration order, none missing, none left over.
pub open spec fn action_seq_decoding(items: Seq<JsonValue>) -> Result<ToastActionView, Seq<char>> {
    let expected = "struct ToastAction with 2 elements"@;
    let text = seq_string_decoding(items, 0, expected);
    let args = seq_string_decoding(items, 1, expected);
    if text is Err {
        Err(text->Err_0)
    } else if args is Err {
        Err(args->Err_0)
    } else if too_long(items, 2) {
        Err(too_long_message(items))
    } else {
        Ok(ToastActionView { text: text->Ok_0, arguments: args->Ok_0 })
    }
}

/// What decoding a list of actions gives: the first error, if any.
pub open spec fn actions_decoding(items: Seq<JsonValue>) -> Result<Seq<ToastActionView>, Seq<char>>
    decreases items.len(),
{
    if items.len() == 0 {
        Ok(Seq::empty())
    } else {
        match actions_decoding(items.drop_last()) {
            Err(e) => Err(e),
            Ok(prev) => match action_decoding(items.last()) {
                Err(e) => Err(e),
                Ok(a) => Ok(prev.push(a)),
            },
        }
    }
}

/// What decoding the `actions` field gives: none when absent.
pub open spec fn actions_field_decoding(f: Option<JsonValue>) -> Result<Seq<ToastActionView>, Seq<char>> {
    match f {
        None => Ok(Seq::empty()),
        Some(JsonValue::Array(items)) => actions_decoding(items@),
        Some(x) => Err(invalid_type_message(x, "a sequence"@)),
    }
}

/// What decoding the parameters of a toast gives. Fields are checked in
/// key order (`actions`, `body`, `image_path`, `tag`, `title`); unknown
/// fields are ignored; an array is read as the fields in declaration
/// order; any other value is refused.
pub open spec fn toast_decoding(params: JsonValue) -> Result<ToastNotificationView, Seq<char>> {
    match params {
        JsonValue::Object(_) => {
            let actions = actions_field_decoding(field(params, "actions"@));
            let body = opt_string_decoding(field(params, "body"@));
            let image_path = opt_string_decoding(field(params, "image_path"@));
            let tag = opt_string_decoding(field(params, "tag"@));
            let title = opt_string_decoding(field(params, "title"@));
            if actions is Err {
                Err(actions->Err_0)
            } else if body is Err {
                Err(body->Err_0)
            } else if image_path is Err {
                Err(image_path->Err_0)
            } else if tag is Err {
                Err(tag->Err_0)
            } else if title is Err {
                Err(title->Err_0)
            } else {
                Ok(ToastNotificationView {
                    title: title->Ok_0,
                    body: body->Ok_0,
                    tag: tag->Ok_0,
                    image_path: image_path->Ok_0,
                    actions: actions->Ok_0,
                })
            }
        },
        JsonValue::Array(items) => toast_seq_decoding(items@),
        _ => Err(invalid_type_message(params, "struct ToastNotification"@)),
    }
}

/// What decoding toast parameters given as an array `[title, body, tag,
/// image_path, actions]` gives: elements in declaration order; only
/// `actions` may be missing; none may be left over.
pub open spec fn toast_seq_decoding(items: Seq<JsonValue>) -> Result<ToastNotificationView, Seq<char>> {
    let expected = "struct ToastNotification with 5 elements"@;
    let title = seq_opt_string_decoding(items, 0, expected);
    let body = seq_opt_string_decoding(items, 1, expected);
    let tag = seq_opt_string_decoding(items, 2, expected);
    let image_path = seq_opt_string_decoding(items, 3, expected);
    let actions = actions_field_decoding(elem(items, 4));
    if title is Err {
        Err(title->Err_0)
    } else if body is Err {
        Err(body->Err_0)
    } else if tag is Err {
        Err(tag->Err_0)
    } else if image_path is Err {
        Err(image_path->Err_0)
    } else if actions is Err {
        Err(actions->Err_0)
    } else if too_long(items, 5) {
        Err(too_long_message(items))
    } else {
        Ok(ToastNotificationView {
            title: title->Ok_0,
            body: body->Ok_0,
            tag: tag->Ok_0,
            image_path: image_path->Ok_0,
            actions: actions->Ok_0,
        })
    }
}

/// An error in the first actions is the error of the whole list.
proof fn lemma_actions_error_persists(items: Seq<JsonValue>, i: nat)
    requires
        i <= items.len(),
        actions_decoding(items.take(i as int)) is Err,
    ensures
        actions_decoding(items.take(items.len() as int)) == actions_decoding(items.take(i as int)),
    decreases items.len() - i,
{
    if i < items.len() {
        assert(items.take((i + 1) as int).drop_last() == items.take(i as int));
        lemma_actions_error_persists(items, i + 1);
    }
}

/// Decodes one toast action.
fn parse_action(v: &JsonValue) -> (r: Result<ToastAction, String>)
    ensures
        match action_decoding(*v) {
            Ok(a) => r matches Ok(x) && x@ == a,
            Err(m) => r matches Err(e) && e@ == m,
        },
{
    match v {
        JsonValue::Object(_) => {
            let args = v.get("arguments");
            let text = v.get("text");
            if let Some(x) = args {
                if x.as_str().is_none() {
                    return Err(invalid_type(x, "a string"));
                }
            }
            let text = match decode_string(text, "text") {
                Ok(t) => t,
                Err(e) => return Err(e),
            };
            let arguments = match decode_string(args, "arguments") {
                Ok(a) => a,
                Err(e) => return Err(e),
            };
            Ok(ToastAction { text, arguments })
        },
        JsonValue::Array(items) => {
            let expected = "struct ToastAction with 2 elements";
            let text = match decode_seq_string(items, 0, expected) {
                Ok(t) => t,
                Err(e) => return Err(e),
            };
            let arguments = match decode_seq_string(items, 1, expected) {
                Ok(a) => a,
                Err(e) => return Err(e),
            };
            if items.len() > 2 {
                return Err(too_long_error(items));
            }
            Ok(ToastAction { text, arguments })
        },
        _ => Err(invalid_type(v, "struct ToastAction")),
    }
}

/// Decodes the `actions` field.
fn parse_actions(f: Option<&JsonValue>) -> (r: Result<Vec<ToastAction>, String>)
    ensures
        match actions_field_decoding(deref_opt(f)) {
            Ok(acts) => r matches Ok(xs) && Seq::new(xs@.len(), |i: int| xs@[i]@) == acts,
            Err(m) => r matches Err(e) && e@ == m,
        },
{
    match f {
        None => Ok(Vec::new()),
        Some(JsonValue::Array(items)) => {
            let mut out: Vec<ToastAction> = Vec::new();
            let n = items.len();
            let mut i: usize = 0;
            assert(items@.take(0) =~= Seq::<JsonValue>::empty());
            assert(Seq::new(out@.len(), |k: int| out@[k]@) =~= Seq::<ToastActionView>::empty());
            while i < n
                invariant
                    deref_opt(f) == Some(JsonValue::Array(*items)),
                    n == items@.len(),
                    i <= n,
                    actions_decoding(items@.take(i as int)) == Ok::<Seq<ToastActionView>, Seq<char>>(
                        Seq::new(out@.len(), |k: int| out@[k]@),
                    ),
                decreases n - i,
            {
                assert(items@.take(i + 1).drop_last() == items@.take(i as int));
                assert(items@.take(i + 1).last() == items@[i as int]);
                let a = parse_action(&items[i]);
                match a {
                    Ok(x) => {
                        let ghost before = out@;
                        out.push(x);
                        assert(Seq::new(out@.len(), |k: int| out@[k]@) == Seq::new(before.len(), |k: int| before[k]@).push(x@));
                    },
                    Err(e) => {
                        proof {
                            assert(actions_decoding(items@.take(i + 1)) == Err::<Seq<ToastActionView>, Seq<char>>(e@));
                            lemma_actions_error_persists(items@, (i + 1) as nat);
                            assert(items@.take(n as int) == items@);
                        }
                        return Err(e);
                    },
                }
                i = i + 1;
            }
            assert(items@.take(n as int) == items@);
            Ok(out)
        },
        Some(x) => Err(invalid_type(x, "a sequence")),
    }
}

/// Parse toast notification params from an RPC request.
pub fn parse_toast_params(params: &JsonValue) -> (r: Result<ToastNotification, AppError>)
    ensures
        match toast_decoding(*params) {
            Ok(n) => r matches Ok(x) && x@ == n,
            Err(m) => r matches Err(AppError::InvalidRpcParams(e)) && e@ == m,
        },
{
    match parse_toast_fields(params) {
        Ok(n) => Ok(n),
        Err(m) => Err(AppError::InvalidRpcParams(m)),
    }
}

fn parse_toast_fields(params: &JsonValue) -> (r: Result<ToastNotification, String>)
    ensures
        match toast_decoding(*params) {
            Ok(n) => r matches Ok(x) && x@ == n,
            Err(m) => r matches Err(e) && e@ == m,
        },
{
    match params {
        JsonValue::Object(_) => {
            let actions = match parse_actions(params.get("actions")) {
                Ok(a) => a,
                Err(e) => return Err(e),
            };
            let body = match decode_opt_string(params.get("body")) {
                Ok(b) => b,
                Err(e) => return Err(e),
            };
            let image_path = match decode_opt_string(params.get("image_path")) {
                Ok(p) => p,
                Err(e) => return Err(e),
            };
            let tag = match decode_opt_string(params.get("tag")) {
                Ok(t) => t,
                Err(e) => return Err(e),
            };
            let title = match decode_opt_string(params.get("title")) {
                Ok(t) => t,
                Err(e) => return Err(e),
            };
            Ok(ToastNotification { title, body, tag, image_path, actions })
        },
        JsonValue::Array(items) => {
            let expected = "struct ToastNotification with 5 elements";
            let title = match decode_seq_opt_string(items, 0, expected) {
                Ok(t) => t,
                Err(e) => return Err(e),
            };
            let body = match decode_seq_opt_string(items, 1, expected) {
                Ok(b) => b,
                Err(e) => return Err(e),
            };
            let tag = match decode_seq_opt_string(items, 2, expected) {
                Ok(t) => t,
                Err(e) => return Err(e),
            };
            let image_path = match decode_seq_opt_string(items, 3, expected) {
                Ok(p) => p,
                Err(e) => return Err(e),
            };
            let actions_elem = if items.len() > 4 { Some(&items[4]) } else { None };
            let actions = match parse_actions(actions_elem) {
                Ok(a) => a,
                Err(e) => return Err(e),
            };
            if items.len() > 5 {
                return Err(too_long_error(items));
            }
            Ok(ToastNotification { title, body, tag, image_path, actions })
        },
        _ => Err(invalid_type(params, "struct ToastNotification")),
    }
}

/// A list of actions that decodes has one action per element, each the
/// decoding of the element at the same position.
pub proof fn lemma_actions_elementwise(items: Seq<JsonValue>)
    requires
        actions_decoding(items) is Ok,
    ensures
        actions_decoding(items)->Ok_0.len() == items.len(),
        forall|i: int|
            0 <= i < items.len() ==> action_decoding(#[trigger] items[i]) == Ok::<ToastActionView, Seq<char>>(
                actions_decoding(items)->Ok_0[i],
            ),
    decreases items.len(),
{
    if items.len() > 0 {
        let init = items.drop_last();
        lemma_actions_elementwise(init);
        assert forall|i: int| 0 <= i < items.len() implies action_decoding(#[trigger] items[i])
            == Ok::<ToastActionView, Seq<char>>(actions_decoding(items)->Ok_0[i]) by {
            if i < init.len() {
                assert(init[i] == items[i]);
            }
        }
    }
}

/// A decoded action takes its label from the `text` key and its arguments
/// from the `arguments` key of an object, or from the first and second
/// element of an array.
pub proof fn lemma_action_fields_by_key(v: JsonValue)
    requires
        action_decoding(v) is Ok,
    ensures
        v is Object ==> Some(action_decoding(v)->Ok_0.text) == string_at(v, "text"@)
            && Some(action_decoding(v)->Ok_0.arguments) == string_at(v, "arguments"@),
        v matches JsonValue::Array(items) ==> Some(action_decoding(v)->Ok_0.text) == string_elem(items@, 0)
            && Some(action_decoding(v)->Ok_0.arguments) == string_elem(items@, 1)
            && items@.len() == 2,
{
}

/// Decoded toast parameters take each field from the key of the same name
/// (`None` when the key is absent or `null`), or, for an array, from the
/// element at the field's position; the actions are those of the
/// `actions` array, one per element and in order, and none when it is
/// absent.
pub proof fn lemma_toast_fields_by_key(params: JsonValue)
    requires
        toast_decoding(params) is Ok,
    ensures
        params is Object ==> {
            let n = toast_decoding(params)->Ok_0;
            &&& n.title == string_at(params, "title"@)
            &&& n.body == string_at(params, "body"@)
            &&& n.tag == string_at(params, "tag"@)
            &&& n.image_path == string_at(params, "image_path"@)
            &&& field(params, "actions"@) is None ==> n.actions.len() == 0
            &&& field(params, "actions"@) matches Some(JsonValue::Array(items)) ==> n.actions.len() == items@.len()
                && forall|i: int|
                0 <= i < items@.len() ==> action_decoding(#[trigger] items@[i]) == Ok::<ToastActionView, Seq<char>>(
                    n.actions[i],
                )
        },
        params matches JsonValue::Array(items) ==> {
            let n = toast_decoding(params)->Ok_0;
            &&& n.title == string_elem(items@, 0)
            &&& n.body == string_elem(items@, 1)
            &&& n.tag == string_elem(items@, 2)
            &&& n.image_path == string_elem(items@, 3)
            &&& items@.len() <= 4 ==> n.actions.len() == 0
        },
{
    match params {
        JsonValue::Object(_) => {
            if let Some(JsonValue::Array(items)) = field(params, "actions"@) {
                lemma_actions_elementwise(items@);
            }
        },
        _ => {},
    }
}

} // verus!

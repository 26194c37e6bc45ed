//! Update packages: decoding them from RPC parameters, decoding their
//! files, and the script that restarts the daemon on a new executable.
use vstd::prelude::*;

use crate::error::AppError;
use crate::json::{
    string_at, string_elem,
    decode_seq_opt_string, decode_seq_string, elem, invalid_length, invalid_length_message, seq_opt_string_decoding,
    seq_string_decoding, too_long, too_long_error, too_long_message,
    decode_opt_string, decode_string, field, invalid_type, invalid_type_message,
    opt_string_decoding, opt_view, JsonValue,
};
use crate::text::{decimal, push_decimal};
use crate::toast::manager::not_a_string;
use ::base64::Engine;

verus! {

/// A single file in the update package.
#[derive(Debug)]
pub struct UpdateFile {
    /// Relative path from working_dir (e.g. "bin/new-version.exe").
    pub path: String,
    /// File content as base64.
    pub data: String,
}

/// Parameters for applying an update.
#[derive(Debug)]
pub struct UpdatePackage {
    /// Relative paths within working_dir → file contents (base64 encoded).
    pub files: Vec<UpdateFile>,
    /// Optional signature to verify the update package.
    pub signature: Option<String>,
}

/// Progress information sent back to .NET.
#[derive(Debug)]
pub struct UpdateProgress {
    pub current: u32,
    pub total: u32,
    pub stage: String,
}

/// The content of a file of a package.
pub struct UpdateFileView {
    pub path: Seq<char>,
    pub data: Seq<char>,
}

/// The content of a package.
pub struct UpdatePackageView {
    pub files: Seq<UpdateFileView>,
    pub signature: Option<Seq<char>>,
}

impl View for UpdateFile {
    type V = UpdateFileView;

    open spec fn view(&self) -> UpdateFileView {
        UpdateFileView { path: self.path@, data: self.data@ }
    }
}

impl View for UpdatePackage {
    type V = UpdatePackageView;

    open spec fn view(&self) -> UpdatePackageView {
        UpdatePackageView {
            files: Seq::new(self.files@.len(), |i: int| self.files@[i]@),
            signature: opt_view(self.signature),
        }
    }
}

/// Update Manager — handles update package application and restart staging.
pub struct UpdateManager {
    working_dir: String,
}

impl UpdateManager {
    /// The directory that updates are written to.
    pub closed spec fn spec_working_dir(&self) -> Seq<char> {
        self.working_dir@
    }

    /// Create a new UpdateManager with the given working directory.
    pub fn new(working_dir: String) -> (r: Self)
        ensures
            r.spec_working_dir() == working_dir@,
    {
        UpdateManager { working_dir }
    }

    /// Get the working directory path.
    pub fn working_dir(&self) -> (r: &str)
        ensures
            r@ == self.spec_working_dir(),
    {
        self.working_dir.as_str()
    }
}

/// What the standard base64 engine decodes `data` to, or the text of its
/// error.
pub uninterp spec fn base64_decoding(data: Seq<char>) -> Result<Seq<u8>, Seq<char>>;

/// Calls `base64::engine::general_purpose::STANDARD.decode` on the bytes of
/// `data`, and keeps the `Display` text of the error. The contract claims
/// only that the outcome is a function of `data`, named `base64_decoding`.
#[verifier::external_body]
pub(crate) fn base64_decode(data: &str) -> (r: Result<Vec<u8>, String>)
    ensures
        match base64_decoding(data@) {
            Ok(bytes) => r matches Ok(v) && v@ == bytes,
            Err(m) => r matches Err(e) && e@ == m,
        },
{
    ::base64::engine::general_purpose::STANDARD.decode(data).map_err(|e| e.to_string())
}

impl UpdateFile {
    /// Decodes the base64 content of the file.
    pub fn decode_data(&self) -> (r: Result<Vec<u8>, AppError>)
        ensures
            match base64_decoding(self.data@) {
                Ok(bytes) => r matches Ok(v) && v@ == bytes,
                Err(m) => r matches Err(AppError::Update(e)) && e@ == "Base64 decode failed: "@ + m,
            },
    {
        match base64_decode(self.data.as_str()) {
            Ok(v) => Ok(v),
            Err(e) => {
                let mut m = String::from_str("Base64 decode failed: ");
                m.append(e.as_str());
                Err(AppError::Update(m))
            },
        }
    }
}

/// The opening of the restart script, up to its wait loop.
pub const RESTART_SCRIPT_HEAD: &'static str = "@echo off\nchcp 65001 > nul\ntitle PCL CE Daemon Restart\n\n:: Wait for current process to exit\n:wait\n";
/// The wait line up to the process id that `tasklist` filters on.
pub const RESTART_SCRIPT_LIST: &'static str = "tasklist /FI \"PID eq ";
/// Between the filter's process id and the one that `findstr` looks for.
pub const RESTART_SCRIPT_FIND: &'static str = "\" 2>nul | findstr /I \"";
/// The end of the wait loop, which repeats while the process is listed,
/// then the copy of the new executable (whose path follows) over the old
/// one.
pub const RESTART_SCRIPT_LOOP: &'static str = "\" >nul\nif not errorlevel 1 (\n    timeout /t 1 /nobreak > nul\n    goto wait\n)\n\n:: Replace executable\ncopy /Y \"";
/// Between the new and the current executable's path.
pub const RESTART_SCRIPT_COPY_TO: &'static str = "\" \"";
/// After the copy: starts the daemon (whose path follows).
pub const RESTART_SCRIPT_START: &'static str = "\" > nul\n\n:: Start new daemon\nstart \"\" \"";
/// The end of the script: it deletes itself.
pub const RESTART_SCRIPT_TAIL: &'static str = "\"\n\n:: Cleanup self\ndel \"%~f0\"\n";

/// The line of the wait loop that finds the daemon's process by its id:
/// `tasklist` lists only the process with id `pid`, and `findstr` succeeds
/// while that id is listed.
pub open spec fn wait_line(pid: u32) -> Seq<char> {
    RESTART_SCRIPT_LIST@ + decimal(pid as nat) + RESTART_SCRIPT_FIND@ + decimal(pid as nat) + RESTART_SCRIPT_LOOP@
}

/// The restart script for the daemon with process id `pid`, a new
/// executable and the current one: a batch script that waits until the
/// process `pid` has exited, then copies the new executable over the
/// current one, starts it, and deletes itself.
pub open spec fn restart_script_text(pid: u32, new_exe: Seq<char>, current_exe: Seq<char>) -> Seq<char> {
    RESTART_SCRIPT_HEAD@ + wait_line(pid) + new_exe + RESTART_SCRIPT_COPY_TO@ + current_exe + RESTART_SCRIPT_START@
        + current_exe + RESTART_SCRIPT_TAIL@
}

/// Build the restart script that waits for the daemon with process id
/// `pid` to exit, replaces `current_exe` by `new_exe` and restarts the
/// daemon.
pub fn restart_script(pid: u32, new_exe: &str, current_exe: &str) -> (r: String)
    ensures
        r@ == restart_script_text(pid, new_exe@, current_exe@),
{
    let mut script = String::from_str(RESTART_SCRIPT_HEAD);
    script.append(RESTART_SCRIPT_LIST);
    push_decimal(&mut script, pid as u64);
    script.append(RESTART_SCRIPT_FIND);
    push_decimal(&mut script, pid as u64);
    script.append(RESTART_SCRIPT_LOOP);
    script.append(new_exe);
    script.append(RESTART_SCRIPT_COPY_TO);
    script.append(current_exe);
    script.append(RESTART_SCRIPT_START);
    script.append(current_exe);
    script.append(RESTART_SCRIPT_TAIL);
    script
}

// ============================================================
// Decoding from RPC parameters
// ============================================================

/// What decoding one file of a package gives: path and data, both required
/// strings. Wrong types are reported in key order (`data`, then `path`),
/// then missing fields in declaration order.
pub open spec fn update_file_decoding(v: JsonValue) -> Result<UpdateFileView, Seq<char>> {
    match v {
        JsonValue::Object(_) => {
            let data = field(v, "data"@);
            let path = field(v, "path"@);
            if not_a_string(data) {
                Err(invalid_type_message(data->0, "a string"@))
            } else if not_a_string(path) {
                Err(invalid_type_message(path->0, "a string"@))
            } else if path is None {
                Err("missing field `"@ + "path"@ + "`"@)
            } else if data is None {
                Err("missing field `"@ + "data"@ + "`"@)
            } else {
                Ok(UpdateFileView { path: path->0->String_0@, data: data->0->String_0@ })
            }
        },
        JsonValue::Array(items) => update_file_seq_decoding(items@),
        _ => Err(invalid_type_message(v, "struct UpdateFile"@)),
    }
}

/// What decoding a file given as an array `[path, data]` gives: elements
/// in declaration order, none missing, none left over.
pub open spec fn update_file_seq_decoding(items: Seq<JsonValue>) -> Result<UpdateFileView, Seq<char>> {
    let expected = "struct UpdateFile with 2 elements"@;
    let path = seq_string_decoding(items, 0, expected);
    let data = seq_string_decoding(items, 1, expected);
    if path is Err {
        Err(path->Err_0)
    } else if data is Err {
        Err(data->Err_0)
    } else if too_long(items, 2) {
        Err(too_long_message(items))
    } else {
        Ok(UpdateFileView { path: path->Ok_0, data: data->Ok_0 })
    }
}

/// What decoding a list of files gives: the first error, if any.
pub open spec fn update_files_decoding(items: Seq<JsonValue>) -> Result<Seq<UpdateFileView>, Seq<char>>
    decreases items.len(),
{
    if items.len() == 0 {
        Ok(Seq::empty())
    } else {
        match update_files_decoding(items.drop_last()) {
            Err(e) => Err(e),
            Ok(prev) => match update_file_decoding(items.last()) {
                Err(e) => Err(e),
                Ok(f) => Ok(prev.push(f)),
            },
        }
    }
}

/// What decoding a present `files` field gives.
pub open spec fn files_value_decoding(x: JsonValue) -> Result<Seq<UpdateFileView>, Seq<char>> {
    match x {
        JsonValue::Array(items) => update_files_decoding(items@),
        _ => Err(invalid_type_message(x, "a sequence"@)),
    }
}

/// What decoding update params gives. Present fields are checked in key
/// order (`files`, `signature`), then `files` must be present; unknown
/// fields are ignored; an array is read as the fields in declaration
/// order; any other value is refused.
pub open spec fn update_package_decoding(params: JsonValue) -> Result<UpdatePackageView, Seq<char>> {
    match params {
        JsonValue::Object(_) => {
            let files = field(params, "files"@);
            let signature = opt_string_decoding(field(params, "signature"@));
            if files is Some && files_value_decoding(files->0) is Err {
                Err(files_value_decoding(files->0)->Err_0)
            } else if signature is Err {
                Err(signature->Err_0)
            } else if files is None {
                Err("missing field `"@ + "files"@ + "`"@)
            } else {
                Ok(UpdatePackageView {
                    files: files_value_decoding(files->0)->Ok_0,
                    signature: signature->Ok_0,
                })
            }
        },
        JsonValue::Array(items) => update_package_seq_decoding(items@),
        _ => Err(invalid_type_message(params, "struct UpdatePackage"@)),
    }
}

/// What decoding update params given as an array `[files, signature]`
/// gives: elements in declaration order, none missing, none left over.
pub open spec fn update_package_seq_decoding(items: Seq<JsonValue>) -> Result<UpdatePackageView, Seq<char>> {
    let expected = "struct UpdatePackage with 2 elements"@;
    let files = match elem(items, 0) {
        None => Err(invalid_length_message(0, expected)),
        Some(x) => files_value_decoding(x),
    };
    let signature = seq_opt_string_decoding(items, 1, expected);
    if files is Err {
        Err(files->Err_0)
    } else if signature is Err {
        Err(signature->Err_0)
    } else if too_long(items, 2) {
        Err(too_long_message(items))
    } else {
        Ok(UpdatePackageView { files: files->Ok_0, signature: signature->Ok_0 })
    }
}

fn parse_update_file(v: &JsonValue) -> (r: Result<UpdateFile, String>)
    ensures
        match update_file_decoding(*v) {
            Ok(f) => r matches Ok(x) && x@ == f,
            Err(m) => r matches Err(e) && e@ == m,
        },
{
    match v {
        JsonValue::Object(_) => {
            let data = v.get("data");
            let path = v.get("path");
            if let Some(x) = data {
                if x.as_str().is_none() {
                    return Err(invalid_type(x, "a string"));
                }
            }
            let path = match decode_string(path, "path") {
                Ok(p) => p,
                Err(e) => return Err(e),
            };
            let data = match decode_string(data, "data") {
                Ok(d) => d,
                Err(e) => return Err(e),
            };
            Ok(UpdateFile { path, data })
        },
        JsonValue::Array(items) => {
            let expected = "struct UpdateFile with 2 elements";
            let path = match decode_seq_string(items, 0, expected) {
                Ok(p) => p,
                Err(e) => return Err(e),
            };
            let data = match decode_seq_string(items, 1, expected) {
                Ok(d) => d,
                Err(e) => return Err(e),
            };
            if items.len() > 2 {
                return Err(too_long_error(items));
            }
            Ok(UpdateFile { path, data })
        },
        _ => Err(invalid_type(v, "struct UpdateFile")),
    }
}

/// An error in the first files is the error of the whole list.
proof fn lemma_files_error_persists(items: Seq<JsonValue>, i: nat)
    requires
        i <= items.len(),
        update_files_decoding(items.take(i as int)) is Err,
    ensures
        update_files_decoding(items.take(items.len() as int)) == update_files_decoding(items.take(i as int)),
    decreases items.len() - i,
{
    if i < items.len() {
        assert(items.take((i + 1) as int).drop_last() == items.take(i as int));
        lemma_files_error_persists(items, i + 1);
    }
}

fn parse_update_files(x: &JsonValue) -> (r: Result<Vec<UpdateFile>, String>)
    ensures
        match files_value_decoding(*x) {
            Ok(fs) => r matches Ok(v) && Seq::new(v@.len(), |i: int| v@[i]@) == fs,
            Err(m) => r matches Err(e) && e@ == m,
        },
{
    match x {
        JsonValue::Array(items) => {
            let mut out: Vec<UpdateFile> = Vec::new();
            let n = items.len();
            let mut i: usize = 0;
            assert(items@.take(0) =~= Seq::<JsonValue>::empty());
            assert(Seq::new(out@.len(), |k: int| out@[k]@) =~= Seq::<UpdateFileView>::empty());
            while i < n
                invariant
                    *x == JsonValue::Array(*items),
                    n == items@.len(),
                    i <= n,
                    update_files_decoding(items@.take(i as int)) == Ok::<Seq<UpdateFileView>, Seq<char>>(
                        Seq::new(out@.len(), |k: int| out@[k]@),
                    ),
                decreases n - i,
            {
                assert(items@.take(i + 1).drop_last() == items@.take(i as int));
                assert(items@.take(i + 1).last() == items@[i as int]);
                match parse_update_file(&items[i]) {
                    Ok(f) => {
                        let ghost before = out@;
                        out.push(f);
                        assert(Seq::new(out@.len(), |k: int| out@[k]@) == Seq::new(before.len(), |k: int| before[k]@).push(f@));
                    },
                    Err(e) => {
                        proof {
                            lemma_files_error_persists(items@, (i + 1) as nat);
                            assert(items@.take(n as int) == items@);
                        }
                        return Err(e);
                    },
                }
                i = i + 1;
            }
            assert(items@.take(n as int) == items@);
            Ok(out)
        },
        _ => Err(invalid_type(x, "a sequence")),
    }
}

fn parse_update_fields(params: &JsonValue) -> (r: Result<UpdatePackage, String>)
    ensures
        match update_package_decoding(*params) {
            Ok(p) => r matches Ok(x) && x@ == p,
            Err(m) => r matches Err(e) && e@ == m,
        },
{
    match params {
        JsonValue::Object(_) => {
            let files_field = params.get("files");
            let files = match files_field {
                Some(x) => match parse_update_files(x) {
                    Ok(fs) => Some(fs),
                    Err(e) => return Err(e),
                },
                None => None,
            };
            let signature = match decode_opt_string(params.get("signature")) {
                Ok(s) => s,
                Err(e) => return Err(e),
            };
            match files {
                Some(files) => Ok(UpdatePackage { files, signature }),
                None => {
                    let mut m = String::from_str("missing field `");
                    m.append("files");
                    m.append("`");
                    Err(m)
                },
            }
        },
        JsonValue::Array(items) => {
            let expected = "struct UpdatePackage with 2 elements";
            let files = if items.len() > 0 {
                match parse_update_files(&items[0]) {
                    Ok(fs) => fs,
                    Err(e) => return Err(e),
                }
            } else {
                return Err(invalid_length(0, expected));
            };
            let signature = match decode_seq_opt_string(items, 1, expected) {
                Ok(s) => s,
                Err(e) => return Err(e),
            };
            if items.len() > 2 {
                return Err(too_long_error(items));
            }
            Ok(UpdatePackage { files, signature })
        },
        _ => Err(invalid_type(params, "struct UpdatePackage")),
    }
}

/// Parse update params from an RPC request.
pub fn parse_update_params(params: &JsonValue) -> (r: Result<UpdatePackage, AppError>)
    ensures
        match update_package_decoding(*params) {
            Ok(p) => r matches Ok(x) && x@ == p,
            Err(m) => r matches Err(AppError::InvalidRpcParams(e)) && e@ == m,
        },
{
    match parse_update_fields(params) {
        Ok(p) => Ok(p),
        Err(m) => Err(AppError::InvalidRpcParams(m)),
    }
}

/// A list of files that decodes has one file per element, each the
/// decoding of the element at the same position.
pub proof fn lemma_files_elementwise(items: Seq<JsonValue>)
    requires
        update_files_decoding(items) is Ok,
    ensures
        update_files_decoding(items)->Ok_0.len() == items.len(),
        forall|i: int|
            0 <= i < items.len() ==> update_file_decoding(#[trigger] items[i]) == Ok::<UpdateFileView, Seq<char>>(
                update_files_decoding(items)->Ok_0[i],
            ),
    decreases items.len(),
{
    if items.len() > 0 {
        let init = items.drop_last();
        lemma_files_elementwise(init);
        assert forall|i: int| 0 <= i < items.len() implies update_file_decoding(#[trigger] items[i])
            == Ok::<UpdateFileView, Seq<char>>(update_files_decoding(items)->Ok_0[i]) by {
            if i < init.len() {
                assert(init[i] == items[i]);
            }
        }
    }
}

/// A decoded file takes its path from the `path` key and its data from the
/// `data` key of an object, or from the first and second element of an
/// array.
pub proof fn lemma_file_fields_by_key(v: JsonValue)
    requires
        update_file_decoding(v) is Ok,
    ensures
        v is Object ==> Some(update_file_decoding(v)->Ok_0.path) == string_at(v, "path"@)
            && Some(update_file_decoding(v)->Ok_0.data) == string_at(v, "data"@),
        v matches JsonValue::Array(items) ==> Some(update_file_decoding(v)->Ok_0.path) == string_elem(items@, 0)
            && Some(update_file_decoding(v)->Ok_0.data) == string_elem(items@, 1)
            && items@.len() == 2,
{
}

/// A decoded update package keeps every file of its `files` array (the
/// first element of an array form), one per element and in order, each
/// with the path and data of that element; its signature is the string
/// under `signature` (the second element), `None` when absent or `null`.
pub proof fn lemma_package_keeps_every_file(params: JsonValue)
    requires
        update_package_decoding(params) is Ok,
    ensures
        ({
            let p = update_package_decoding(params)->Ok_0;
            let files = match params {
                JsonValue::Array(items) => items@[0],
                _ => field(params, "files"@)->0,
            };
            &&& files is Array
            &&& p.files.len() == files->Array_0@.len()
            &&& forall|i: int|
                0 <= i < p.files.len() ==> update_file_decoding(#[trigger] files->Array_0@[i])
                    == Ok::<UpdateFileView, Seq<char>>(p.files[i])
        }),
        params is Object ==> update_package_decoding(params)->Ok_0.signature == string_at(params, "signature"@),
        params matches JsonValue::Array(items) ==> update_package_decoding(params)->Ok_0.signature == string_elem(
            items@,
            1,
        ),
{
    let files = match params {
        JsonValue::Array(items) => items@[0],
        _ => field(params, "files"@)->0,
    };
    lemma_files_elementwise(files->Array_0@);
}

} // verus!

use base64::Engine;
use vstd::prelude::*;

use crate::matcher::HostPlatform;
use crate::windows_path::{WinPrefix, is_sep_in, prefix_verbatim, win_prefix, windows_prefix};
use crate::text::{lemma_trim_ends, push_str, string_of, trim, trim_str};

verus! {

/// A request to write a UTF-8 text file for export.
pub struct WriteUtf8TextFileInput {
    pub path: String,
    pub text: String,
}

/// A request to write a file given in standard Base64 for export.
pub struct WriteBase64FileInput {
    pub path: String,
    pub bytes_base64: String,
}

/// The message for an empty export path.
pub const EMPTY_EXPORT_PATH_MESSAGE: &'static str = "导出路径不能为空";

/// The message for an export path that climbs to a parent directory.
pub const PARENT_DIR_EXPORT_PATH_MESSAGE: &'static str = "导出路径不允许包含上级目录跳转";

/// The prefix of the message for export content that is not valid Base64.
pub const DECODE_FAILED_MESSAGE: &'static str = "解码导出文件内容失败 path=";

// ---------------------------------------------------------------------------
// Specification
// ---------------------------------------------------------------------------

/// Where the components of a path start: after its prefix on Windows (a drive, a UNC
/// share, a device or a verbatim prefix), else at the start.
pub open spec fn components_start(p: Seq<char>, platform: HostPlatform) -> int {
    match platform {
        HostPlatform::Windows => win_prefix(p).1,
        HostPlatform::Unix => 0,
    }
}

/// A separator between the components of `p`: `/` on Unix; on Windows `\`, and `/` unless
/// the path has a verbatim prefix.
pub open spec fn component_separator(p: Seq<char>, c: char, platform: HostPlatform) -> bool {
    match platform {
        HostPlatform::Windows => is_sep_in(c, prefix_verbatim(win_prefix(p).0)),
        HostPlatform::Unix => c == '/',
    }
}

/// A `..` component starts at index `i` of the path.
pub open spec fn parent_component_at(p: Seq<char>, i: int, platform: HostPlatform) -> bool {
    &&& components_start(p, platform) <= i
    &&& i + 2 <= p.len()
    &&& p[i] == '.'
    &&& p[i + 1] == '.'
    &&& i == components_start(p, platform) || component_separator(p, p[i - 1], platform)
    &&& i + 2 == p.len() || component_separator(p, p[i + 2], platform)
}

/// The path has a `..` component.
pub open spec fn has_parent_component(p: Seq<char>, platform: HostPlatform) -> bool {
    exists|i: int| #[trigger] parent_component_at(p, i, platform)
}

/// What normalizing an export path gives: the trimmed path, unless it is empty or climbs
/// to a parent directory.
pub open spec fn export_path_result(raw: Seq<char>, platform: HostPlatform) -> Result<
    Seq<char>,
    Seq<char>,
> {
    let t = trim(raw);
    if t.len() == 0 {
        Err(EMPTY_EXPORT_PATH_MESSAGE@)
    } else if has_parent_component(t, platform) {
        Err(PARENT_DIR_EXPORT_PATH_MESSAGE@)
    } else {
        Ok(t)
    }
}

/// What the standard Base64 engine decodes a text to (`None` when it is not valid
/// Base64).
pub uninterp spec fn base64_standard_decode(input: Seq<char>) -> Option<Seq<u8>>;

/// The message of the error the standard Base64 engine reports for a text it cannot decode.
pub uninterp spec fn base64_decode_error_text(input: Seq<char>) -> Seq<char>;

// ---------------------------------------------------------------------------
// Trusted call into the Base64 crate
// ---------------------------------------------------------------------------

/// Decodes `input` with `base64::engine::general_purpose::STANDARD` (`Engine::decode`).
/// The result is a function of the input alone: the decoded bytes, or the text (`Display`)
/// of the `DecodeError` it reports.
#[verifier::external_body]
fn standard_base64_decode(input: &str) -> (r: Result<Vec<u8>, String>)
    ensures
        match r {
            Ok(bytes) => base64_standard_decode(input@) == Some(bytes@),
            Err(text) => base64_standard_decode(input@) is None && text@
                == base64_decode_error_text(input@),
        },
{
    match base64::engine::general_purpose::STANDARD.decode(input) {
        Ok(bytes) => Ok(bytes),
        Err(err) => Err(err.to_string()),
    }
}

// ---------------------------------------------------------------------------
// Executable export rules
// ---------------------------------------------------------------------------

/// Whether `p` has a `..` component.
fn parent_component_chars(p: &[char], platform: HostPlatform) -> (b: bool)
    ensures
        b == has_parent_component(p@, platform),
{
    let n = p.len();
    let windows = platform == HostPlatform::Windows;
    let (kind, prefix_len) = windows_prefix(p);
    let start: usize = if windows { prefix_len } else { 0 };
    let slash = !windows || !(kind == WinPrefix::Verbatim || kind == WinPrefix::VerbatimUnc || kind
        == WinPrefix::VerbatimDisk);
    let backslash = windows;
    assert(start == components_start(p@, platform));
    assert(forall|c: char| component_separator(p@, c, platform) <==> ((slash && c == '/') || (
    backslash && c == '\\')));
    let mut i: usize = start;
    while n >= 2 && i <= n - 2
        invariant
            start == components_start(p@, platform),
            forall|c: char| component_separator(p@, c, platform) <==> ((slash && c == '/') || (
            backslash && c == '\\')),
            start <= i <= n,
            n == p@.len(),
            forall|k: int| 0 <= k < i ==> !#[trigger] parent_component_at(p@, k, platform),
        decreases n - i,
    {
        let sep_before = i == start || (slash && p[i - 1] == '/') || (backslash && p[i - 1] == '\\');
        let sep_after = i + 2 == n || (slash && p[i + 2] == '/') || (backslash && p[i + 2] == '\\');
        if p[i] == '.' && p[i + 1] == '.' && sep_before && sep_after {
            assert(parent_component_at(p@, i as int, platform));
            return true;
        }
        i = i + 1;
    }
    assert forall|k: int| !#[trigger] parent_component_at(p@, k, platform) by {
        if k >= i {
            assert(k + 2 > n);
        }
    }
    false
}

/// The export path given by the user, trimmed; an error when it is empty or has a `..`
/// component.
pub fn normalize_export_path(raw: &str, platform: HostPlatform) -> (out: Result<String, String>)
    ensures
        match out {
            Ok(p) => export_path_result(raw@, platform) == Ok::<Seq<char>, Seq<char>>(p@),
            Err(e) => export_path_result(raw@, platform) == Err::<Seq<char>, Seq<char>>(e@),
        },
{
    let t = trim_str(raw);
    if t.len() == 0 {
        return Err(String::from_str(EMPTY_EXPORT_PATH_MESSAGE));
    }
    if parent_component_chars(t.as_slice(), platform) {
        return Err(String::from_str(PARENT_DIR_EXPORT_PATH_MESSAGE));
    }
    Ok(string_of(t.as_slice()))
}

/// The path and content of a text export: the normalized path (or its error) and the text.
pub fn prepare_utf8_text_export(input: WriteUtf8TextFileInput, platform: HostPlatform) -> (out:
    Result<(String, String), String>)
    ensures
        match out {
            Ok((path, text)) => export_path_result(input.path@, platform) == Ok::<
                Seq<char>,
                Seq<char>,
            >(path@) && text@ == input.text@,
            Err(e) => export_path_result(input.path@, platform) == Err::<Seq<char>, Seq<char>>(
                e@,
            ),
        },
{
    match normalize_export_path(input.path.as_str(), platform) {
        Ok(path) => Ok((path, input.text)),
        Err(e) => Err(e),
    }
}

/// The outcome of a Base64 export for its normalized path and the decoder's answer: the
/// path with the decoded bytes, or a message naming the path and the decoding error.
pub fn finish_base64_export(path: String, decoded: Result<Vec<u8>, String>) -> (out: Result<
    (String, Vec<u8>),
    String,
>)
    ensures
        match decoded {
            Ok(bytes) => out matches Ok((p, b)) && p@ == path@ && b@ == bytes@,
            Err(text) => out matches Err(e) && e@ == DECODE_FAILED_MESSAGE@ + path@ + ": "@
                + text@,
        },
{
    match decoded {
        Ok(bytes) => Ok((path, bytes)),
        Err(text) => {
            let mut msg: Vec<char> = Vec::new();
            push_str(&mut msg, DECODE_FAILED_MESSAGE);
            push_str(&mut msg, path.as_str());
            push_str(&mut msg, ": ");
            push_str(&mut msg, text.as_str());
            Err(string_of(msg.as_slice()))
        },
    }
}

/// The path and bytes of a Base64 export: the normalized path (or its error), and the
/// trimmed content decoded with the standard Base64 engine (or a message naming the path
/// and the decoding error).
pub fn prepare_base64_export(input: &WriteBase64FileInput, platform: HostPlatform) -> (out: Result<
    (String, Vec<u8>),
    String,
>)
    ensures
        match export_path_result(input.path@, platform) {
            Err(msg) => out matches Err(e) && e@ == msg,
            Ok(path) => match base64_standard_decode(trim(input.bytes_base64@)) {
                Some(bytes) => out matches Ok((p, b)) && p@ == path && b@ == bytes,
                None => out matches Err(e) && e@ == DECODE_FAILED_MESSAGE@ + path + ": "@
                    + base64_decode_error_text(trim(input.bytes_base64@)),
            },
        },
{
    let path = match normalize_export_path(input.path.as_str(), platform) {
        Ok(p) => p,
        Err(e) => {
            return Err(e);
        },
    };
    let content = trim_str(input.bytes_base64.as_str());
    let content_str = string_of(content.as_slice());
    let decoded = standard_base64_decode(content_str.as_str());
    finish_base64_export(path, decoded)
}

/// The rules of an export path: a blank path is refused as empty; on Unix a path with a `..`
/// component (`..` between slashes or at either end) is refused as climbing to a parent
/// directory; an accepted path is the given one, trimmed and not empty.
pub proof fn lemma_export_path_rules(raw: Seq<char>, platform: HostPlatform, i: int)
    ensures
        trim(raw).len() == 0 ==> export_path_result(raw, platform) == Err::<Seq<char>, Seq<char>>(
            "导出路径不能为空"@,
        ),
        ({
            let t = trim(raw);
            &&& platform == HostPlatform::Unix
            &&& 0 <= i && i + 2 <= t.len()
            &&& t[i] == '.' && t[i + 1] == '.'
            &&& i == 0 || t[i - 1] == '/'
            &&& i + 2 == t.len() || t[i + 2] == '/'
        }) ==> export_path_result(raw, platform) == Err::<Seq<char>, Seq<char>>(
            "导出路径不允许包含上级目录跳转"@,
        ),
        export_path_result(raw, platform) matches Ok(p) ==> p == trim(raw) && p.len() > 0,
{
    let t = trim(raw);
    if platform == HostPlatform::Unix && 0 <= i && i + 2 <= t.len() && t[i] == '.' && t[i + 1]
        == '.' && (i == 0 || t[i - 1] == '/') && (i + 2 == t.len() || t[i + 2] == '/') {
        assert(parent_component_at(t, i, platform));
    }
}

/// Normalizing is idempotent: an accepted export path is accepted again, unchanged.
pub proof fn lemma_export_path_idempotent(raw: Seq<char>, platform: HostPlatform)
    ensures
        export_path_result(raw, platform) matches Ok(p) ==> export_path_result(p, platform) == Ok::<
            Seq<char>,
            Seq<char>,
        >(p),
{
    lemma_trim_ends(raw);
}

} // verus!

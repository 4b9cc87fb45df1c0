use agent_workbench::export_path::{
    finish_base64_export, normalize_export_path, prepare_base64_export, prepare_utf8_text_export,
    WriteBase64FileInput, WriteUtf8TextFileInput, DECODE_FAILED_MESSAGE,
    EMPTY_EXPORT_PATH_MESSAGE, PARENT_DIR_EXPORT_PATH_MESSAGE,
};
use agent_workbench::matcher::HostPlatform;

#[test]
fn empty_export_path_is_refused() {
    assert_eq!(
        normalize_export_path("   ", HostPlatform::Unix),
        Err(EMPTY_EXPORT_PATH_MESSAGE.to_string())
    );
    assert_eq!(normalize_export_path("", HostPlatform::Windows), Err("导出路径不能为空".to_string()));
}

#[test]
fn parent_directory_is_refused() {
    for raw in ["a/../b", "..", "../x", "dir/.."] {
        assert_eq!(
            normalize_export_path(raw, HostPlatform::Unix),
            Err(PARENT_DIR_EXPORT_PATH_MESSAGE.to_string()),
            "{raw}"
        );
    }
    assert_eq!(
        normalize_export_path("C:..\\x", HostPlatform::Windows),
        Err("导出路径不允许包含上级目录跳转".to_string())
    );
    assert_eq!(
        normalize_export_path("out\\..\\x", HostPlatform::Windows),
        Err(PARENT_DIR_EXPORT_PATH_MESSAGE.to_string())
    );
}

#[test]
fn dots_inside_names_are_accepted() {
    assert_eq!(normalize_export_path("..foo/x", HostPlatform::Unix), Ok("..foo/x".to_string()));
    assert_eq!(normalize_export_path("a/b../c", HostPlatform::Unix), Ok("a/b../c".to_string()));
    assert_eq!(normalize_export_path("a\\..\\b", HostPlatform::Unix), Ok("a\\..\\b".to_string()));
}

#[test]
fn export_path_is_trimmed() {
    assert_eq!(
        normalize_export_path("  /tmp/out/file.txt \n", HostPlatform::Unix),
        Ok("/tmp/out/file.txt".to_string())
    );
}

#[test]
fn normalizing_twice_changes_nothing() {
    let once = normalize_export_path("  out/a.md  ", HostPlatform::Unix).unwrap();
    let twice = normalize_export_path(&once, HostPlatform::Unix).unwrap();
    assert_eq!(once, twice);
}

#[test]
fn text_export_keeps_text() {
    let out = prepare_utf8_text_export(
        WriteUtf8TextFileInput { path: " notes.txt ".to_string(), text: "héllo\n".to_string() },
        HostPlatform::Unix,
    );
    assert_eq!(out, Ok(("notes.txt".to_string(), "héllo\n".to_string())));
    let err = prepare_utf8_text_export(
        WriteUtf8TextFileInput { path: "../x".to_string(), text: "t".to_string() },
        HostPlatform::Unix,
    );
    assert_eq!(err, Err(PARENT_DIR_EXPORT_PATH_MESSAGE.to_string()));
}

#[test]
fn base64_export_decodes_trimmed_content() {
    let out = prepare_base64_export(
        &WriteBase64FileInput { path: "img.png".to_string(), bytes_base64: "  aGVsbG8=\n".to_string() },
        HostPlatform::Unix,
    );
    assert_eq!(out, Ok(("img.png".to_string(), b"hello".to_vec())));
    let empty = prepare_base64_export(
        &WriteBase64FileInput { path: "e.bin".to_string(), bytes_base64: "   ".to_string() },
        HostPlatform::Unix,
    );
    assert_eq!(empty, Ok(("e.bin".to_string(), Vec::new())));
}

#[test]
fn base64_export_reports_decode_error_with_path() {
    let out = prepare_base64_export(
        &WriteBase64FileInput { path: " out/x.bin ".to_string(), bytes_base64: "!!!!".to_string() },
        HostPlatform::Unix,
    );
    assert_eq!(
        out,
        Err(format!("{}out/x.bin: Invalid symbol 33, offset 0.", DECODE_FAILED_MESSAGE))
    );
}

#[test]
fn base64_export_checks_path_first() {
    let out = prepare_base64_export(
        &WriteBase64FileInput { path: "  ".to_string(), bytes_base64: "!!!!".to_string() },
        HostPlatform::Unix,
    );
    assert_eq!(out, Err(EMPTY_EXPORT_PATH_MESSAGE.to_string()));
}

#[test]
fn finish_base64_export_cases() {
    assert_eq!(
        finish_base64_export("p".to_string(), Ok(vec![1, 2])),
        Ok(("p".to_string(), vec![1, 2]))
    );
    assert_eq!(
        finish_base64_export("p".to_string(), Err("bad".to_string())),
        Err("解码导出文件内容失败 path=p: bad".to_string())
    );
}

#[test]
fn windows_prefixes_are_not_components() {
    let w = HostPlatform::Windows;
    assert_eq!(normalize_export_path("\\\\a\\..\\x", w), Ok("\\\\a\\..\\x".to_string()));
    assert_eq!(
        normalize_export_path("\\\\?\\C:\\a/../b", w),
        Ok("\\\\?\\C:\\a/../b".to_string())
    );
    assert_eq!(
        normalize_export_path("\\\\?\\C:\\a\\..\\b", w),
        Err(PARENT_DIR_EXPORT_PATH_MESSAGE.to_string())
    );
    assert_eq!(
        normalize_export_path("\\\\srv\\share\\..\\b", w),
        Err(PARENT_DIR_EXPORT_PATH_MESSAGE.to_string())
    );
    assert_eq!(normalize_export_path("a/../b", w), Err(PARENT_DIR_EXPORT_PATH_MESSAGE.to_string()));
}

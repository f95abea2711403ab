use goldsrc_addons::goldsrc::Platform;
use goldsrc_addons::handlers::add::metamod_target;
use goldsrc_addons::handlers::attributes::normalize_comment;
use goldsrc_addons::handlers::ctx::{check_entry_key, parse_platform, sanitize_file_key};

#[test]
fn entry_keys_are_checked() {
    assert!(check_entry_key(Platform::Amxx, "statsx.amxx").is_ok());
    assert!(check_entry_key(Platform::Amxx, "amxmodx_mm_i386.so").is_ok());
    let err = check_entry_key(Platform::Metamod, "addons/amxmodx/dlls/amxmodx_mm_i386.so").unwrap_err();
    assert_eq!((err.status, err.code), (422, "SYSTEM_ENTRY"));
    let err = check_entry_key(Platform::Metamod, "../x.so").unwrap_err();
    assert_eq!((err.status, err.code), (400, "INVALID_INPUT"));
    assert_eq!(err.message, "path must not contain dot segments");
    let err = sanitize_file_key("").unwrap_err();
    assert_eq!(err.message, "file name is empty");
}

#[test]
fn metamod_targets() {
    let (rel, line) = metamod_target("whb.so", &None).unwrap();
    assert_eq!(rel, "addons/whb/whb.so");
    assert_eq!(line, "linux addons/whb/whb.so");
    let (rel, line) = metamod_target("X.DLL", &Some("addons/x/x.dll".to_string())).unwrap();
    assert_eq!(rel, "addons/x/x.dll");
    assert_eq!(line, "win32 addons/x/x.dll");
    let err = metamod_target("x.dylib", &None).unwrap_err();
    assert_eq!((err.status, err.code), (422, "INVALID_FILE_TYPE"));
    let err = metamod_target("x.so", &Some("addons/y/y.so".to_string())).unwrap_err();
    assert_eq!((err.status, err.message.as_str()), (400, "path must point at the uploaded file"));
    let err = metamod_target("x.so", &Some("/addons/x.so".to_string())).unwrap_err();
    assert_eq!(err.message, "path must be relative");
}

#[test]
fn comments_are_normalized() {
    assert_eq!(normalize_comment(None).unwrap(), None);
    assert_eq!(normalize_comment(Some("  ; note  ".to_string())).unwrap().as_deref(), Some("note"));
    assert_eq!(normalize_comment(Some(" ;; ".to_string())).unwrap(), None);
    let err = normalize_comment(Some("a\tb".to_string())).unwrap_err();
    assert_eq!((err.status, err.message.as_str()), (400, "comment must not contain control characters"));
    let err = normalize_comment(Some("x".repeat(201))).unwrap_err();
    assert_eq!(err.message, "comment is too long");
    assert!(normalize_comment(Some("x".repeat(200))).is_ok());
}

#[test]
fn platform_param_is_required() {
    let params = vec![("platform".to_string(), "amxx".to_string())];
    assert_eq!(parse_platform(&params).unwrap(), Platform::Amxx);
    let err = parse_platform(&vec![("platform".to_string(), "sourcemod".to_string())]).unwrap_err();
    assert_eq!((err.status, err.code, err.message.as_str()), (404, "NOT_FOUND", "unknown platform"));
}

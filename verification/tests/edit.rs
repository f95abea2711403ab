use goldsrc_addons::goldsrc::ini::Dialect;
use goldsrc_addons::handlers::edit::{attributes_ini, register_ini, remove_ini, toggle_ini};

const AMXX: &[u8] = b"; AMX Mod X plugins\nadmin.amxx\nstatsx.amxx debug ; stats\n;parachute.amxx\n";

#[test]
fn toggle_ini_reports_missing_entry() {
    let err = toggle_ini(Dialect::Amxx, AMXX, "nope.amxx", true).unwrap_err();
    assert_eq!((err.status, err.code), (404, "PLUGIN_NOT_REGISTERED"));
    assert_eq!(err.message, "nope.amxx is not present in plugins.ini");
}

#[test]
fn toggle_ini_unchanged_returns_the_input() {
    let (changed, out) = toggle_ini(Dialect::Amxx, AMXX, "parachute.amxx", false).unwrap();
    assert!(!changed);
    assert_eq!(out, AMXX);
    let (changed, out) = toggle_ini(Dialect::Amxx, AMXX, "parachute.amxx", true).unwrap();
    assert!(changed);
    assert_eq!(out, b"; AMX Mod X plugins\nadmin.amxx\nstatsx.amxx debug ; stats\nparachute.amxx\n");
}

#[test]
fn register_ini_appends_replaces_or_refuses() {
    let err = register_ini(Dialect::Amxx, AMXX, "admin.amxx", "admin.amxx", true, false).unwrap_err();
    assert_eq!((err.status, err.code), (409, "ALREADY_REGISTERED"));
    assert_eq!(err.message, "admin.amxx is already present in plugins.ini");

    let (replaced, out) = register_ini(Dialect::Amxx, AMXX, "ADMIN.amxx", "admin.amxx", false, true).unwrap();
    assert!(replaced);
    assert_eq!(out, b"; AMX Mod X plugins\n;admin.amxx\nstatsx.amxx debug ; stats\n;parachute.amxx\n");

    let (replaced, out) = register_ini(Dialect::Amxx, b"", "new.amxx", "new.amxx", true, false).unwrap();
    assert!(!replaced);
    assert_eq!(out, b"new.amxx\n");
}

#[test]
fn remove_ini_names_the_plugin_file() {
    let (target, out) = remove_ini(Dialect::Amxx, AMXX, "statsx.amxx").unwrap();
    assert_eq!(target, "addons/amxmodx/plugins/statsx.amxx");
    assert_eq!(out, b"; AMX Mod X plugins\nadmin.amxx\n;parachute.amxx\n");

    let mm = b"win32 addons\\reunion\\reunion_mm.dll Reunion\r\n";
    let (target, out) = remove_ini(Dialect::Metamod, mm, "reunion_mm.dll").unwrap();
    assert_eq!(target, "addons/reunion/reunion_mm.dll");
    assert!(out.is_empty());

    let err = remove_ini(Dialect::Metamod, mm, "other.dll").unwrap_err();
    assert_eq!((err.status, err.code), (404, "PLUGIN_NOT_REGISTERED"));
}

#[test]
fn attributes_ini_rewrites_only_on_change() {
    let note = Some("stats".to_string());
    let (changed, debug, out) = attributes_ini(Dialect::Amxx, AMXX, "statsx.amxx", true, &note).unwrap();
    assert!(!changed);
    assert!(debug);
    assert_eq!(out, AMXX);

    let (changed, debug, out) = attributes_ini(Dialect::Amxx, AMXX, "parachute.amxx", true, &None).unwrap();
    assert!(changed);
    assert!(debug);
    assert_eq!(out, b"; AMX Mod X plugins\nadmin.amxx\nstatsx.amxx debug ; stats\n;parachute.amxx debug\n");
}

#[test]
fn attributes_ini_metamod_ignores_debug() {
    let mm = b"linux addons/x/x.so old words\n";
    let (changed, debug, out) = attributes_ini(Dialect::Metamod, mm, "x.so", true, &Some("New".to_string())).unwrap();
    assert!(changed);
    assert!(!debug);
    assert_eq!(out, b"linux addons/x/x.so New\n");
    let (changed, _, out) = attributes_ini(Dialect::Metamod, mm, "x.so", true, &None).unwrap();
    assert!(changed);
    assert_eq!(out, b"linux addons/x/x.so\n");
}

#[test]
fn attributes_ini_unreadable_comment_is_an_internal_error() {
    let ini = "x.amxx \u{fc};note\n".as_bytes();
    let err = attributes_ini(Dialect::Amxx, ini, "x.amxx", false, &None).unwrap_err();
    assert_eq!((err.status, err.code), (500, "INTERNAL_ERROR"));
    assert_eq!(err.message, "plugins.ini entry has an unreadable comment");
}

use goldsrc_addons::goldsrc::moddir::known_mod_dir;
use goldsrc_addons::goldsrc::paths::{
    file_name, file_stem, join, normalize_slashes, sanitize_file_name, sanitize_rel_path,
};
use goldsrc_addons::goldsrc::{is_amxx_loader_entry, Platform};
use goldsrc_addons::goldsrc::ini::Dialect;

#[test]
fn join_paths() {
    assert_eq!(join("/srv/gameap", "servers/cs"), "/srv/gameap/servers/cs");
    assert_eq!(join("/srv/gameap/", "/servers/cs"), "/srv/gameap/servers/cs");
    assert_eq!(join("/srv", ""), "/srv");
    assert_eq!(join("C:\\gameap", "servers/cs"), "C:\\gameap/servers/cs");
}

#[test]
fn join_edge_cases() {
    assert_eq!(join("", "cstrike"), "cstrike");
    assert_eq!(join("///", "///"), "");
    assert_eq!(join("/", "x"), "x");
    assert_eq!(join("a//", "//b/"), "a/b/");
}

#[test]
fn file_name_and_stem() {
    assert_eq!(file_name("addons/reunion/reunion_mm_i386.so"), "reunion_mm_i386.so");
    assert_eq!(file_name("addons\\reunion\\reunion.dll"), "reunion.dll");
    assert_eq!(file_name("admin.amxx"), "admin.amxx");
    assert_eq!(file_stem("admin.amxx"), "admin");
    assert_eq!(file_stem("reunion_mm_i386.so"), "reunion_mm_i386");
    assert_eq!(file_stem("noext"), "noext");
    assert_eq!(file_stem(".hidden"), ".hidden");
}

#[test]
fn file_name_of_trailing_separator_is_empty() {
    assert_eq!(file_name("addons/"), "");
    assert_eq!(file_stem("archive.tar.gz"), "archive.tar");
}

#[test]
fn normalizes_backslashes_only() {
    assert_eq!(normalize_slashes("addons\\reunion\\x.dll"), "addons/reunion/x.dll");
    assert_eq!(normalize_slashes("a/b"), "a/b");
}

#[test]
fn sanitize_file_names() {
    assert!(sanitize_file_name("statsx.amxx").is_ok());
    assert!(sanitize_file_name("").is_err());
    assert!(sanitize_file_name("a/b.amxx").is_err());
    assert!(sanitize_file_name("a\\b.amxx").is_err());
    assert!(sanitize_file_name("..").is_err());
    assert!(sanitize_file_name(&"x".repeat(300)).is_err());
}

#[test]
fn sanitize_file_name_errors_name_the_rule() {
    assert_eq!(sanitize_file_name(""), Err("file name is empty"));
    assert_eq!(sanitize_file_name(&"x".repeat(256)), Err("file name is too long"));
    assert_eq!(sanitize_file_name(&"x".repeat(255)), Ok(()));
    assert_eq!(sanitize_file_name("a\0b"), Err("file name must not contain path separators"));
    assert_eq!(sanitize_file_name("."), Err("file name must not be a dot segment"));
    // Byte length counts, not characters: 128 two-byte letters are 256 bytes.
    assert_eq!(sanitize_file_name(&"я".repeat(128)), Err("file name is too long"));
}

#[test]
fn sanitize_rel_paths() {
    assert!(sanitize_rel_path("addons/reunion/reunion_mm_i386.so").is_ok());
    assert!(sanitize_rel_path("/addons/x.so").is_err());
    assert!(sanitize_rel_path("addons/../secret").is_err());
    assert!(sanitize_rel_path("addons//x.so").is_err());
    assert!(sanitize_rel_path("addons\\x.so").is_err());
}

#[test]
fn sanitize_rel_path_errors_name_the_rule() {
    assert_eq!(sanitize_rel_path(""), Err("path is empty"));
    assert_eq!(sanitize_rel_path(&"a".repeat(1025)), Err("path is too long"));
    assert_eq!(sanitize_rel_path("a\\b"), Err("path must not contain backslashes"));
    assert_eq!(sanitize_rel_path("/a"), Err("path must be relative"));
    assert_eq!(sanitize_rel_path("a/"), Err("path must not contain empty segments"));
    assert_eq!(sanitize_rel_path("./a"), Err("path must not contain dot segments"));
}

#[test]
fn maps_known_codes() {
    assert_eq!(known_mod_dir("cstrike"), Some("cstrike"));
    assert_eq!(known_mod_dir("CS"), Some("cstrike"));
    assert_eq!(known_mod_dir("valve"), Some("valve"));
    assert_eq!(known_mod_dir("hl"), Some("valve"));
    assert_eq!(known_mod_dir("op4"), Some("gearbox"));
    assert_eq!(known_mod_dir("rust"), None);
}

#[test]
fn maps_every_alias() {
    assert_eq!(known_mod_dir("cs16"), Some("cstrike"));
    assert_eq!(known_mod_dir("HLDM"), Some("valve"));
    assert_eq!(known_mod_dir("cscz"), Some("czero"));
    assert_eq!(known_mod_dir("czero"), Some("czero"));
    assert_eq!(known_mod_dir("dod"), Some("dod"));
    assert_eq!(known_mod_dir("tfc"), Some("tfc"));
    assert_eq!(known_mod_dir("OpFor"), Some("gearbox"));
    assert_eq!(known_mod_dir("dmc"), Some("dmc"));
    assert_eq!(known_mod_dir("ricochet"), Some("ricochet"));
    assert_eq!(known_mod_dir("ag"), Some("ag"));
    assert_eq!(known_mod_dir("svencoop"), Some("svencoop"));
    assert_eq!(known_mod_dir(""), None);
}

#[test]
fn amxx_loader_entry_detection() {
    assert!(is_amxx_loader_entry("addons/amxmodx/dlls/amxmodx_mm_i386.so"));
    assert!(is_amxx_loader_entry("amxmodx_mm.dll"));
    assert!(!is_amxx_loader_entry("addons/reunion/reunion_mm_i386.so"));
}

#[test]
fn amxx_loader_detection_ignores_case_and_separators() {
    assert!(is_amxx_loader_entry("addons\\amxmodx\\dlls\\AMXMODX_MM.DLL"));
    assert!(!is_amxx_loader_entry("amxmodx_mm/other.so"));
}

#[test]
fn platform_route_params() {
    assert_eq!(Platform::from_route_param("metamod"), Some(Platform::Metamod));
    assert_eq!(Platform::from_route_param("amxx"), Some(Platform::Amxx));
    assert_eq!(Platform::from_route_param("AMXX"), None);
    assert_eq!(Platform::Metamod.dialect(), Dialect::Metamod);
    assert_eq!(Platform::Amxx.dialect(), Dialect::Amxx);
}

use goldsrc_addons::goldsrc::liblist::{metamod_dir_from, parse, Liblist};

const LIBLIST: &[u8] = br#"// Half-Life game dll description
game "Counter-Strike"
url_info "www.counter-strike.net"
type "multiplayer_only"
version "1.6"
mpentity "info_player_start"
gamedll "dlls\mp.dll"
gamedll_linux "dlls/cs.so"
gamedll_osx "dlls/cs.dylib"
"#;

#[test]
fn parses_vanilla_liblist() {
    let liblist = parse(LIBLIST);
    assert_eq!(liblist.gamedll.as_deref(), Some("dlls\\mp.dll"));
    assert_eq!(liblist.gamedll_linux.as_deref(), Some("dlls/cs.so"));
    assert_eq!(metamod_dir_from(&liblist), None);
}

#[test]
fn detects_metamod_variants() {
    let liblist = parse(b"gamedll_linux \"addons/metamod/dlls/metamod_i386.so\"\n");
    assert_eq!(metamod_dir_from(&liblist).as_deref(), Some("addons/metamod"));

    let liblist = parse(b"gamedll \"addons\\metamod-p\\dlls\\metamod.dll\"\n");
    assert_eq!(metamod_dir_from(&liblist).as_deref(), Some("addons/metamod-p"));

    let liblist = parse(b"gamedll_linux addons/Metamod-r/dlls/metamod_i386.so\n");
    assert_eq!(metamod_dir_from(&liblist).as_deref(), Some("addons/Metamod-r"));
}

#[test]
fn cp1251_and_crlf_tolerated() {
    let mut input = Vec::new();
    input.extend_from_slice(b"// \xEA\xEE\xEC\xEC\xE5\xED\xF2\r\n");
    input.extend_from_slice(b"gamedll_linux \"addons/metamod/dlls/metamod_i386.so\"\r\n");
    let liblist = parse(&input);
    assert_eq!(metamod_dir_from(&liblist).as_deref(), Some("addons/metamod"));
}

#[test]
fn later_keys_win_and_keys_ignore_case() {
    let liblist = parse(b"GAMEDLL a.dll\ngamedll \"b.dll\"\ngamedll_osx\tx.dylib\n");
    assert_eq!(liblist.gamedll.as_deref(), Some("b.dll"));
    assert_eq!(liblist.gamedll_osx.as_deref(), Some("x.dylib"));
    assert_eq!(liblist.gamedll_linux, None);
}

#[test]
fn lines_without_value_are_skipped() {
    let liblist = parse(b"gamedll\n  // gamedll_linux x.so\n\n");
    assert_eq!(liblist.gamedll, None);
    assert_eq!(liblist.gamedll_linux, None);
}

#[test]
fn metamod_dir_prefers_linux_then_windows_then_osx() {
    let liblist = Liblist {
        gamedll: Some("addons/metamod-p/dlls/metamod.dll".to_string()),
        gamedll_linux: Some("dlls/cs.so".to_string()),
        gamedll_osx: Some("addons/metamod-osx/x.dylib".to_string()),
    };
    assert_eq!(metamod_dir_from(&liblist).as_deref(), Some("addons/metamod-p"));
    let liblist = Liblist {
        gamedll: None,
        gamedll_linux: Some("ADDONS/MetaMod/x.so".to_string()),
        gamedll_osx: None,
    };
    assert_eq!(metamod_dir_from(&liblist).as_deref(), Some("ADDONS/MetaMod"));
    let liblist = Liblist { gamedll: Some("addons".to_string()), gamedll_linux: None, gamedll_osx: None };
    assert_eq!(metamod_dir_from(&liblist), None);
}

#[test]
fn invalid_utf8_is_read_lossily() {
    // A stray 0xFF inside the value becomes U+FFFD, it does not drop the line.
    let liblist = parse(b"gamedll_linux addons/meta\xFFmod/x.so\n");
    assert_eq!(liblist.gamedll_linux.as_deref(), Some("addons/meta\u{FFFD}mod/x.so"));
}

use goldsrc_addons::goldsrc::ini::{
    amxx_debug_comment, amxx_meta_body, try_amxx_debug_comment, Dialect, Document, EntryFields,
    EntryNotFound,
};

const AMXX_INI: &[u8] = b"; AMX Mod X plugins\n\nadmin.amxx\t\t; admin base\nadmincmd.amxx\n;statsx.amxx\ncsdm_main.amxx debug\n";

fn contains(haystack: &[u8], needle: &[u8]) -> bool {
    haystack.windows(needle.len()).any(|w| w == needle)
}

#[test]
fn round_trip_is_byte_identical() {
    let doc = Document::parse(Dialect::Amxx, AMXX_INI);
    assert_eq!(doc.to_bytes(), AMXX_INI);
}

#[test]
fn round_trip_crlf_bom_cp1251() {
    let mut input = Vec::new();
    input.extend_from_slice(b"\xEF\xBB\xBF; \xEA\xEE\xEC\xEC\xE5\xED\xF2\xE0\xF0\xE8\xE9\r\n");
    input.extend_from_slice(b"admin.amxx\r\n");
    input.extend_from_slice(b";statsx.amxx");
    let doc = Document::parse(Dialect::Amxx, &input);
    assert_eq!(doc.to_bytes(), input);
    let entries = doc.entries();
    assert_eq!(entries.len(), 2);
    assert!(entries[0].is_enabled());
    assert!(!entries[1].is_enabled());
}

#[test]
fn bom_line_entry_is_recognized() {
    let mut input = Vec::new();
    input.extend_from_slice(b"\xEF\xBB\xBFadmin.amxx\n");
    let doc = Document::parse(Dialect::Amxx, &input);
    assert_eq!(doc.entries().len(), 1);
    assert_eq!(doc.to_bytes(), input);
}

#[test]
fn classifies_comments_vs_disabled_entries() {
    let doc = Document::parse(Dialect::Amxx, AMXX_INI);
    let entries = doc.entries();
    assert_eq!(entries.len(), 4);
    assert_eq!(entries[0].entry_fields().key(), "admin.amxx");
    assert!(entries[0].is_enabled());
    assert_eq!(entries[2].entry_fields().key(), "statsx.amxx");
    assert!(!entries[2].is_enabled());
    match entries[3].entry_fields() {
        EntryFields::Amxx { file, rest } => {
            assert_eq!(file, "csdm_main.amxx");
            assert_eq!(rest, "debug");
        }
        _ => panic!("expected amxx fields"),
    }
}

#[test]
fn double_marker_entry_is_disabled_entry() {
    let doc = Document::parse(Dialect::Amxx, b";; statsx.amxx\n;\tparachute.amxx\n");
    let entries = doc.entries();
    assert_eq!(entries.len(), 2);
    assert!(entries.iter().all(|e| !e.is_enabled()));
}

#[test]
fn toggle_disable_and_enable_round_trip() {
    let mut doc = Document::parse(Dialect::Amxx, AMXX_INI);
    assert_eq!(doc.set_enabled("admin.amxx", false), Ok(true));
    let bytes = doc.to_bytes();
    assert!(bytes.windows(11).any(|w| w == b";admin.amxx"));

    assert_eq!(doc.set_enabled("admin.amxx", false), Ok(false));

    assert_eq!(doc.set_enabled("admin.amxx", true), Ok(true));
    assert_eq!(doc.to_bytes(), AMXX_INI);
}

#[test]
fn enable_strips_marker_run() {
    let mut doc = Document::parse(Dialect::Amxx, b";; \tstatsx.amxx\n");
    assert_eq!(doc.set_enabled("statsx.amxx", true), Ok(true));
    assert_eq!(doc.to_bytes(), b"statsx.amxx\n");
}

#[test]
fn toggle_missing_entry() {
    let mut doc = Document::parse(Dialect::Amxx, AMXX_INI);
    assert_eq!(doc.set_enabled("nope.amxx", true), Err(EntryNotFound));
}

#[test]
fn enabling_an_enabled_entry_changes_nothing() {
    let mut doc = Document::parse(Dialect::Amxx, AMXX_INI);
    assert_eq!(doc.set_enabled("admincmd.amxx", true), Ok(false));
    assert_eq!(doc.to_bytes(), AMXX_INI);
}

#[test]
fn metamod_dialect_parsing() {
    let ini = b"; Metamod plugins\nlinux addons/amxmodx/dlls/amxmodx_mm_i386.so\nwin32 addons\\reunion\\reunion_mm.dll Reunion\n;linux addons/whblocker/whblocker_mm_i386.so\nrandom garbage line\n";
    let doc = Document::parse(Dialect::Metamod, ini);
    assert_eq!(doc.to_bytes(), ini);
    let entries = doc.entries();
    assert_eq!(entries.len(), 3);
    match entries[0].entry_fields() {
        EntryFields::Metamod { platform, path, .. } => {
            assert_eq!(platform, "linux");
            assert_eq!(path, "addons/amxmodx/dlls/amxmodx_mm_i386.so");
        }
        _ => panic!("expected metamod fields"),
    }
    match entries[1].entry_fields() {
        EntryFields::Metamod { platform, path, rest } => {
            assert_eq!(platform, "win32");
            assert_eq!(path, "addons\\reunion\\reunion_mm.dll");
            assert_eq!(rest, "Reunion");
        }
        _ => panic!("expected metamod fields"),
    }
    assert!(!entries[2].is_enabled());
}

#[test]
fn metamod_find_by_basename_and_path() {
    let doc = Document::parse(Dialect::Metamod, b"linux addons/reunion/reunion_mm_i386.so\n");
    assert!(doc.find_entry("reunion_mm_i386.so").is_some());
    assert!(doc.find_entry("addons/reunion/reunion_mm_i386.so").is_some());
    assert!(doc.find_entry("other.so").is_none());
}

#[test]
fn find_entry_returns_the_first_match_and_entry_at_reads_it() {
    let doc = Document::parse(Dialect::Amxx, b"; x\nadmin.amxx\n;admin.amxx\n");
    let index = doc.find_entry("ADMIN.amxx").expect("entry exists");
    assert_eq!(index, 1);
    let entry = doc.entry_at(index).expect("entry line");
    assert!(entry.is_enabled());
    assert!(doc.entry_at(0).is_none());
    assert!(doc.entry_at(7).is_none());
}

#[test]
fn append_entry_matches_terminator_and_fixes_last_line() {
    let mut doc = Document::parse(Dialect::Amxx, b"admin.amxx\r\n;statsx.amxx");
    doc.append_entry("parachute.amxx", true);
    assert_eq!(doc.to_bytes(), b"admin.amxx\r\n;statsx.amxx\r\nparachute.amxx\r\n");

    let mut doc = Document::parse(Dialect::Amxx, b"");
    doc.append_entry("admin.amxx", false);
    assert_eq!(doc.to_bytes(), b";admin.amxx\n");
    assert!(!doc.entries().first().map(|e| e.is_enabled()).unwrap_or(true));
}

#[test]
fn appended_entry_is_found() {
    let mut doc = Document::parse(Dialect::Amxx, AMXX_INI);
    doc.append_entry("galileo.amxx", true);
    let index = doc.find_entry("galileo.amxx").expect("appended");
    assert!(doc.entry_at(index).expect("entry").is_enabled());
    assert!(doc.to_bytes().ends_with(b"csdm_main.amxx debug\ngalileo.amxx\n"));
}

#[test]
fn replace_entry_keeps_position_and_terminator() {
    let ini = b"linux addons/amxmodx/dlls/amxmodx_mm_i386.so\r\nlinux addons/reunion/old_reunion.so\r\nlinux addons/whb/whb.so\r\n";
    let mut doc = Document::parse(Dialect::Metamod, ini);
    let old = doc
        .replace_entry("old_reunion.so", "linux addons/reunion/reunion_mm_i386.so", true)
        .expect("entry exists");
    assert_eq!(old.entry_fields().key(), "old_reunion.so");
    assert_eq!(
        doc.to_bytes(),
        b"linux addons/amxmodx/dlls/amxmodx_mm_i386.so\r\nlinux addons/reunion/reunion_mm_i386.so\r\nlinux addons/whb/whb.so\r\n"
    );

    doc.replace_entry("whb.so", "linux addons/whb/whb.so", false)
        .expect("entry exists");
    assert!(doc.to_bytes().ends_with(b";linux addons/whb/whb.so\r\n"));
}

#[test]
fn replace_missing_entry() {
    let mut doc = Document::parse(Dialect::Amxx, AMXX_INI);
    assert!(doc.replace_entry("nope.amxx", "nope.amxx", true).is_err());
}

#[test]
fn remove_entry_deletes_line() {
    let mut doc = Document::parse(Dialect::Amxx, AMXX_INI);
    let entry = doc.remove_entry("admincmd.amxx").expect("entry exists");
    assert_eq!(entry.entry_fields().key(), "admincmd.amxx");
    let bytes = doc.to_bytes();
    assert!(!contains(&bytes, b"admincmd.amxx"));
    assert!(contains(&bytes, b"admin.amxx"));
}

#[test]
fn remove_missing_entry_changes_nothing() {
    let mut doc = Document::parse(Dialect::Amxx, AMXX_INI);
    assert!(doc.remove_entry("nope.amxx").is_err());
    assert_eq!(doc.to_bytes(), AMXX_INI);
}

#[test]
fn amxx_case_insensitive_extension() {
    let doc = Document::parse(Dialect::Amxx, b"Admin.AMXX\n");
    assert_eq!(doc.entries().len(), 1);
    assert!(doc.find_entry("admin.amxx").is_some());
}

const GROUPING_INI: &[u8] = b"; AMX Mod X plugins\n\
\n\
; AMXBans 1.6 GM\n\
amxbans_core.amxx\n\
amxbans_main.amxx\n\
\n\
; restrictnames.amxx\n\
; Admin Base\n\
;admin.amxx\t\t; admin base\n\
;admin_sql.amxx\n\
\n\
; Basic\n\
admincmd.amxx\t\t; basic admin console commands\n\
\n\
; Half-Life GunGame\n\
gungame.amxx\t\t\tdebug\n\
gg_respawnItems.amxx\tdebug\t; Respawn items after warm up GG\n\
\n\
; Configuration\n\
\n\
;pausecfg.amxx\t\t; allows to pause\n\
\n\
motd_mdl.amxx\n\
\n\
antisg.amxx\n\
server_info.amxx\n";

#[test]
fn groups_round_trip_preserves_bytes() {
    let doc = Document::parse(Dialect::Amxx, GROUPING_INI);
    assert_eq!(doc.to_bytes(), GROUPING_INI);
}

#[test]
fn groups_partition_named_and_other() {
    let doc = Document::parse(Dialect::Amxx, GROUPING_INI);
    let groups = doc.groups();

    let titles: Vec<Option<&str>> = groups.iter().map(|g| g.title.as_deref()).collect();
    assert_eq!(
        titles,
        vec![
            Some("AMXBans 1.6 GM"),
            None,
            Some("Admin Base"),
            Some("Basic"),
            Some("Half-Life GunGame"),
            Some("Configuration"),
            None,
            None,
        ]
    );

    let keys: Vec<Vec<&str>> = groups
        .iter()
        .map(|g| g.entries.iter().map(|e| e.entry_fields().key()).collect())
        .collect();
    assert_eq!(keys[0], ["amxbans_core.amxx", "amxbans_main.amxx"]);
    assert_eq!(keys[1], ["restrictnames.amxx"]);
    assert_eq!(keys[2], ["admin.amxx", "admin_sql.amxx"]);
    assert_eq!(keys[3], ["admincmd.amxx"]);
    assert_eq!(keys[5], ["pausecfg.amxx"]);
    assert_eq!(keys[6], ["motd_mdl.amxx"]);
    assert_eq!(keys[7], ["antisg.amxx", "server_info.amxx"]);
}

#[test]
fn groups_hold_every_entry_once_in_order() {
    let doc = Document::parse(Dialect::Amxx, GROUPING_INI);
    let flat: Vec<&str> = doc
        .groups()
        .iter()
        .flat_map(|g| g.entries.iter().map(|e| e.entry_fields().key()).collect::<Vec<_>>())
        .collect();
    let direct: Vec<&str> = doc.entries().iter().map(|e| e.entry_fields().key()).collect();
    assert_eq!(flat, direct);
    assert!(doc.groups().iter().all(|g| !g.entries.is_empty()));
}

#[test]
fn amxx_debug_and_comment_parsing() {
    assert_eq!(amxx_debug_comment(""), (false, None));
    assert_eq!(amxx_debug_comment("debug"), (true, None));
    assert_eq!(
        amxx_debug_comment("debug ; Respawn items after warm up GG"),
        (true, Some("Respawn items after warm up GG".to_string()))
    );
    assert_eq!(amxx_debug_comment("; admin base"), (false, Some("admin base".to_string())));
    assert_eq!(amxx_debug_comment(";"), (false, None));
    assert_eq!(amxx_debug_comment("; enable debug"), (false, Some("enable debug".to_string())));
}

#[test]
fn amxx_debug_comment_without_marker() {
    assert_eq!(amxx_debug_comment("debug extra words"), (true, None));
    assert_eq!(amxx_debug_comment("DEBUG"), (false, None));
    assert_eq!(amxx_debug_comment("x // slashes comment"), (false, Some("slashes comment".to_string())));
    assert_eq!(try_amxx_debug_comment("debug ; note"), Some((true, Some("note".to_string()))));
}

#[test]
fn amxx_debug_and_comment_from_document() {
    let doc = Document::parse(Dialect::Amxx, GROUPING_INI);
    let mut seen = std::collections::HashMap::new();
    for entry in doc.entries() {
        if let EntryFields::Amxx { file, rest } = entry.entry_fields() {
            seen.insert(file.clone(), amxx_debug_comment(rest));
        }
    }
    assert_eq!(seen["gungame.amxx"], (true, None));
    assert_eq!(
        seen["gg_respawnItems.amxx"],
        (true, Some("Respawn items after warm up GG".to_string()))
    );
    assert_eq!(
        seen["admincmd.amxx"],
        (false, Some("basic admin console commands".to_string()))
    );
    assert_eq!(seen["admin.amxx"], (false, Some("admin base".to_string())));
}

#[test]
fn amxx_meta_body_is_canonical() {
    assert_eq!(amxx_meta_body("x.amxx", false, None), "x.amxx");
    assert_eq!(amxx_meta_body("x.amxx", true, None), "x.amxx debug");
    assert_eq!(amxx_meta_body("x.amxx", true, Some("note")), "x.amxx debug ; note");
    assert_eq!(amxx_meta_body("x.amxx", false, Some("  ")), "x.amxx");
}

#[test]
fn meta_body_reads_back_as_written() {
    let body = amxx_meta_body("x.amxx", true, Some(" note "));
    let mut doc = Document::parse(Dialect::Amxx, b"");
    doc.append_entry(&body, true);
    match doc.entries()[0].entry_fields() {
        EntryFields::Amxx { file, rest } => {
            assert_eq!(file, "x.amxx");
            assert_eq!(amxx_debug_comment(rest), (true, Some("note".to_string())));
        }
        _ => panic!("expected amxx fields"),
    }
}

#[test]
fn edited_documents_read_back() {
    let mut doc = Document::parse(Dialect::Amxx, b"admin.amxx\r\n;statsx.amxx");
    doc.append_entry("galileo.amxx debug", false);
    doc.set_enabled("statsx.amxx", true).expect("present");
    doc.replace_entry("admin.amxx", "admin.amxx ; note", true).expect("present");
    let bytes = doc.to_bytes();
    let again = Document::parse(Dialect::Amxx, &bytes);
    assert_eq!(again.to_bytes(), bytes);
    let keys: Vec<(&str, bool)> = again
        .entries()
        .iter()
        .map(|e| (e.entry_fields().key(), e.is_enabled()))
        .collect();
    assert_eq!(keys, vec![("admin.amxx", true), ("statsx.amxx", true), ("galileo.amxx", false)]);
    doc.remove_entry("statsx.amxx").expect("present");
    assert_eq!(doc.to_bytes(), b"admin.amxx ; note\r\n;galileo.amxx debug\r\n");
}

#[test]
fn group_titles_are_trimmed() {
    let doc = Document::parse(Dialect::Amxx, b";;   Admin tools  \t\nadmin.amxx\n\n; \nstatsx.amxx\n");
    let groups = doc.groups();
    let titles: Vec<Option<&str>> = groups.iter().map(|g| g.title.as_deref()).collect();
    assert_eq!(titles, vec![Some("Admin tools"), None]);
}

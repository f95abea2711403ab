use goldsrc_addons::goldsrc::ini::{Dialect, Document};
use goldsrc_addons::handlers::rows::{amxx_rows, label_entries, loader_registered, metamod_rows, OTHER_GROUP};

#[test]
fn labels_number_named_groups_and_share_other() {
    let doc = Document::parse(Dialect::Amxx, b"; A\na.amxx\n\nb.amxx\n\n; B\nc.amxx\nd.amxx\n");
    let groups = doc.groups();
    let xs = label_entries(&groups);
    let labels: Vec<(u32, Option<&str>)> = xs.iter().map(|x| (x.1, x.2.as_deref())).collect();
    assert_eq!(
        labels,
        vec![(0, Some("A")), (OTHER_GROUP, None), (1, Some("B")), (1, Some("B"))]
    );
}

#[test]
fn amxx_rows_find_configs_ignoring_case() {
    let doc = Document::parse(Dialect::Amxx, b"statsx.amxx debug ; stats\n;CSDM_Main.amxx\nplain.amxx\n");
    let groups = doc.groups();
    let xs = label_entries(&groups);
    let plugins = vec!["statsx.amxx".to_string(), "plain.AMXX".to_string()];
    let configs = vec!["Stats.INI".to_string(), "csdm.cfg".to_string(), "plain.ini".to_string(), "PLAIN.cfg".to_string()];
    let rows = amxx_rows(&xs, &plugins, &configs, "cstrike").expect("readable");
    assert_eq!(rows.len(), 3);
    assert!(rows[0].debug);
    assert_eq!(rows[0].comment.as_deref(), Some("stats"));
    assert!(!rows[0].missing);
    assert_eq!(rows[0].config_path.as_deref(), Some("cstrike/addons/amxmodx/configs/Stats.INI"));
    assert!(rows[0].has_config);
    assert!(!rows[1].enabled);
    assert!(rows[1].missing);
    assert_eq!(rows[1].config_path.as_deref(), Some("cstrike/addons/amxmodx/configs/csdm.cfg"));
    // `.cfg` is tried before `.ini`, whatever the listing order.
    assert!(rows[2].missing);
    assert_eq!(rows[2].config_path.as_deref(), Some("cstrike/addons/amxmodx/configs/PLAIN.cfg"));
}

#[test]
fn amxx_rows_refuse_an_unreadable_comment() {
    let doc = Document::parse(Dialect::Amxx, "x.amxx \u{e9};note\n".as_bytes());
    let groups = doc.groups();
    let xs = label_entries(&groups);
    let err = amxx_rows(&xs, &vec![], &vec![], "cstrike").unwrap_err();
    assert_eq!((err.status, err.code), (500, "INTERNAL_ERROR"));
}

#[test]
fn metamod_rows_take_the_reported_missing_flags() {
    let ini = b"linux addons/amxmodx/dlls/amxmodx_mm_i386.so\nwin32 addons\\x\\x.dll X plugin\n";
    let doc = Document::parse(Dialect::Metamod, ini);
    let groups = doc.groups();
    let xs = label_entries(&groups);
    let rows = metamod_rows(&xs, &vec![false, true]);
    assert_eq!(rows.len(), 2);
    assert!(rows[0].system);
    assert_eq!(rows[0].file, "amxmodx_mm_i386.so");
    assert_eq!(rows[0].description, None);
    assert!(!rows[1].system);
    assert_eq!(rows[1].file, "x.dll");
    assert_eq!(rows[1].path, "addons\\x\\x.dll");
    assert_eq!(rows[1].description.as_deref(), Some("X plugin"));
    assert!(rows[1].missing);
    assert!(loader_registered(&rows));
    let disabled = Document::parse(Dialect::Metamod, b";linux addons/amxmodx/dlls/amxmodx_mm_i386.so\n");
    let groups = disabled.groups();
    let xs = label_entries(&groups);
    assert!(!loader_registered(&metamod_rows(&xs, &vec![false])));
}

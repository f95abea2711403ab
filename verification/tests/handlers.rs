use std::collections::{BTreeMap, BTreeSet};

use goldsrc_addons::handlers::{add, attributes, remove, state, toggle};
use goldsrc_addons::host_api::{
    CommandOutput, DirEntry, FileStat, GameInfo, HostApi, HostApiError, HostResult, NodeInfo,
    Recorded, ServerInfo,
};
use goldsrc_addons::http::ApiError;
use goldsrc_addons::model::{
    AddPluginRequest, RemovePluginRequest, SetAttributesRequest, ToggleRequest,
};
use goldsrc_addons::router::match_route;

/// In-memory node: servers, games, nodes, files and directories.
#[derive(Default)]
struct MockHost {
    servers: BTreeMap<u64, ServerInfo>,
    games: BTreeMap<String, GameInfo>,
    nodes: BTreeMap<u64, NodeInfo>,
    files: BTreeMap<String, Vec<u8>>,
    perms: BTreeMap<String, u32>,
    dirs: BTreeSet<String>,
    chmods: Vec<(String, u32)>,
    errors: Vec<String>,
}

const MOD: &str = "/srv/gameap/servers/cs/cstrike";

impl MockHost {
    fn goldsource() -> MockHost {
        let mut host = MockHost::default();
        host.servers.insert(
            3,
            ServerInfo { id: 3, game_code: "cstrike".into(), node_id: 1, dir: "servers/cs".into() },
        );
        host.games.insert(
            "cstrike".into(),
            GameInfo {
                code: "cstrike".into(),
                name: "Counter-Strike 1.6".into(),
                engine: "GoldSource".into(),
            },
        );
        host.nodes.insert(
            1,
            NodeInfo { id: 1, os: "linux".into(), work_path: "/srv/gameap".into() },
        );
        host.add_dir(MOD);
        host
    }

    fn add_dir(&mut self, path: &str) {
        let mut current = String::new();
        for segment in path.trim_start_matches('/').split('/') {
            current.push('/');
            current.push_str(segment);
            self.dirs.insert(current.clone());
        }
    }

    fn add_file(&mut self, path: &str, content: &[u8]) {
        if let Some(idx) = path.rfind('/') {
            self.add_dir(&path[..idx]);
        }
        self.files.insert(path.to_string(), content.to_vec());
    }

    fn file(&self, path: &str) -> Option<&[u8]> {
        self.files.get(path).map(Vec::as_slice)
    }
}

impl HostApi for MockHost {
    fn get_server(&mut self, id: u64) -> HostResult<Option<ServerInfo>> {
        Ok(self.servers.get(&id).cloned())
    }

    fn get_game(&mut self, code: &str) -> HostResult<Option<GameInfo>> {
        Ok(self.games.get(code).cloned())
    }

    fn get_node(&mut self, id: u64) -> HostResult<Option<NodeInfo>> {
        Ok(self.nodes.get(&id).cloned())
    }

    fn read_dir(&mut self, _node_id: u64, path: &str) -> HostResult<Option<Vec<DirEntry>>> {
        let path = path.trim_end_matches('/');
        if !self.dirs.contains(path) {
            return Ok(None);
        }
        let prefix = format!("{path}/");
        let mut entries = Vec::new();
        for dir in &self.dirs {
            if let Some(rest) = dir.strip_prefix(&prefix) {
                if !rest.is_empty() && !rest.contains('/') {
                    entries.push(DirEntry { name: rest.to_string(), is_dir: true });
                }
            }
        }
        for file in self.files.keys() {
            if let Some(rest) = file.strip_prefix(&prefix) {
                if !rest.is_empty() && !rest.contains('/') {
                    entries.push(DirEntry { name: rest.to_string(), is_dir: false });
                }
            }
        }
        Ok(Some(entries))
    }

    fn stat(&mut self, _node_id: u64, path: &str) -> HostResult<Option<FileStat>> {
        let path = path.trim_end_matches('/');
        if let Some(content) = self.files.get(path) {
            return Ok(Some(FileStat {
                is_dir: false,
                size: content.len() as u64,
                permissions: self.perms.get(path).copied().unwrap_or(0o644),
            }));
        }
        if self.dirs.contains(path) {
            return Ok(Some(FileStat { is_dir: true, size: 0, permissions: 0o755 }));
        }
        Ok(None)
    }

    fn download(&mut self, _node_id: u64, path: &str) -> HostResult<Vec<u8>> {
        self.files
            .get(path)
            .cloned()
            .ok_or_else(|| HostApiError::Op(format!("no such file: {path}")))
    }

    fn upload(&mut self, _node_id: u64, path: &str, content: &[u8], _permissions: u32) -> HostResult<()> {
        self.add_file(path, content);
        Ok(())
    }

    fn remove(&mut self, _node_id: u64, path: &str, _recursive: bool) -> HostResult<()> {
        if self.files.remove(path).is_none() {
            return Err(HostApiError::Op(format!("no such file: {path}")));
        }
        Ok(())
    }

    fn chmod(&mut self, _node_id: u64, path: &str, permissions: u32) -> HostResult<()> {
        if !self.files.contains_key(path) && !self.dirs.contains(path) {
            return Err(HostApiError::Op(format!("no such file: {path}")));
        }
        self.chmods.push((path.to_string(), permissions));
        self.perms.insert(path.to_string(), permissions);
        Ok(())
    }

    fn execute_command(&mut self, _node_id: u64, _command: &str, _work_dir: Option<&str>) -> HostResult<CommandOutput> {
        Ok(CommandOutput { output: String::new(), exit_code: 0 })
    }

    fn log_info(&mut self, _message: &str) {}

    fn log_error(&mut self, message: &str) {
        self.errors.push(message.to_string());
    }
}

fn params(method: &str, path: &str) -> Vec<(String, String)> {
    match_route(method, path).expect("route matches").1
}

fn toggle_req(file: &str, enabled: bool) -> Result<ToggleRequest, ApiError> {
    Ok(ToggleRequest { file: file.into(), enabled })
}

fn add_req(file: &str) -> AddPluginRequest {
    AddPluginRequest { file: file.into(), enable: true, path: None, force: false }
}

fn attrs_req(file: &str, debug: bool, comment: Option<&str>) -> Result<SetAttributesRequest, ApiError> {
    Ok(SetAttributesRequest { file: file.into(), debug, comment: comment.map(str::to_string) })
}

fn remove_body(file: &str) -> Result<RemovePluginRequest, ApiError> {
    Ok(RemovePluginRequest { file: file.into() })
}

fn code(err: &ApiError) -> (i32, &str) {
    (err.status, err.code)
}

fn ini_text(host: &MockHost, rel: &str) -> String {
    String::from_utf8_lossy(host.file(&format!("{MOD}/{rel}")).expect("ini exists")).into_owned()
}

fn full_setup() -> MockHost {
    let mut host = MockHost::goldsource();
    host.add_file(
        &format!("{MOD}/liblist.gam"),
        b"game \"Counter-Strike\"\ngamedll \"dlls\\mp.dll\"\ngamedll_linux \"addons/metamod/dlls/metamod_i386.so\"\n",
    );
    host.add_file(
        &format!("{MOD}/addons/metamod/plugins.ini"),
        b"linux addons/amxmodx/dlls/amxmodx_mm_i386.so\nlinux addons/reunion/reunion_mm_i386.so\n;linux addons/whblocker/whblocker_mm_i386.so\n",
    );
    host.add_file(&format!("{MOD}/addons/amxmodx/dlls/amxmodx_mm_i386.so"), b"elf");
    host.add_file(&format!("{MOD}/addons/reunion/reunion_mm_i386.so"), b"elf");
    host.add_file(
        &format!("{MOD}/addons/amxmodx/configs/plugins.ini"),
        b"; AMX Mod X plugins\nadmin.amxx\nstatsx.amxx\n;parachute.amxx\n",
    );
    host.add_file(&format!("{MOD}/addons/amxmodx/plugins/admin.amxx"), b"amxx");
    host.add_file(&format!("{MOD}/addons/amxmodx/plugins/statsx.amxx"), b"amxx");
    host.add_file(&format!("{MOD}/addons/amxmodx/plugins/parachute.amxx"), b"amxx");
    host.add_file(&format!("{MOD}/addons/amxmodx/configs/stats.ini"), b"cfg");
    host
}

const AMXX_INI: &str = "addons/amxmodx/configs/plugins.ini";
const MM_INI: &str = "addons/metamod/plugins.ini";

#[test]
fn state_full_setup() {
    let mut host = Recorded::new(full_setup());
    let resp = state::handle(&mut host, &params("GET", "/servers/3/state")).expect("200");

    assert_eq!(resp.mod_dir, "cstrike");
    assert_eq!(resp.engine, "GoldSource");
    assert_eq!(resp.paths.amxx_plugins_ini, "cstrike/addons/amxmodx/configs/plugins.ini");
    assert_eq!(resp.paths.metamod_plugins_ini, "cstrike/addons/metamod/plugins.ini");

    assert!(resp.metamod.installed);
    assert!(resp.metamod.dir_present);
    let mm_plugins = &resp.metamod.plugins;
    assert_eq!(mm_plugins.len(), 3);
    assert!(mm_plugins[0].system);
    assert_eq!(mm_plugins[1].file, "reunion_mm_i386.so");
    assert!(!mm_plugins[1].missing);
    assert!(!mm_plugins[2].enabled);
    assert!(mm_plugins[2].missing);

    assert!(resp.amxx.installed);
    assert!(resp.amxx.registered_in_metamod);
    let amxx_plugins = &resp.amxx.plugins;
    assert_eq!(amxx_plugins.len(), 3);
    assert_eq!(amxx_plugins[0].file, "admin.amxx");
    assert!(!amxx_plugins[0].has_config);
    assert_eq!(amxx_plugins[1].file, "statsx.amxx");
    assert!(amxx_plugins[1].has_config);
    assert_eq!(
        amxx_plugins[1].config_path.as_deref(),
        Some("cstrike/addons/amxmodx/configs/stats.ini")
    );
    assert!(!amxx_plugins[2].enabled);
}

#[test]
fn state_clean_server() {
    let mut host = Recorded::new(MockHost::goldsource());
    host.host.add_file(&format!("{MOD}/liblist.gam"), b"game \"Counter-Strike\"\ngamedll_linux \"dlls/cs.so\"\n");
    let resp = state::handle(&mut host, &params("GET", "/servers/3/state")).expect("200");
    assert!(!resp.metamod.installed);
    assert!(!resp.metamod.plugins_ini_exists);
    assert!(!resp.amxx.installed);
}

#[test]
fn state_rejects_non_goldsource() {
    let mut host = Recorded::new(full_setup());
    if let Some(game) = host.host.games.get_mut("cstrike") {
        game.engine = "Source".into();
    }
    let err = state::handle(&mut host, &params("GET", "/servers/3/state")).unwrap_err();
    assert_eq!(code(&err), (422, "UNSUPPORTED_ENGINE"));
}

#[test]
fn unsupported_engine_message_quotes_the_engine() {
    let mut host = Recorded::new(full_setup());
    if let Some(game) = host.host.games.get_mut("cstrike") {
        game.engine = "Source \"2\"".into();
    }
    let err = state::handle(&mut host, &params("GET", "/servers/3/state")).unwrap_err();
    assert_eq!(err.message, "server engine is \"Source \\\"2\\\"\", expected GoldSource");
}

#[test]
fn state_unknown_server() {
    let mut host = Recorded::new(full_setup());
    let err = state::handle(&mut host, &params("GET", "/servers/99/state")).unwrap_err();
    assert_eq!(code(&err), (404, "SERVER_NOT_FOUND"));
}

#[test]
fn toggle_amxx_plugin() {
    let mut host = Recorded::new(full_setup());
    let p = params("POST", "/servers/3/amxx/plugins/toggle");
    let resp = toggle::handle(&mut host, &p, toggle_req("statsx.amxx", false)).expect("200");
    assert!(resp.changed);
    assert_eq!(ini_text(&host.host, AMXX_INI), "; AMX Mod X plugins\nadmin.amxx\n;statsx.amxx\n;parachute.amxx\n");

    let resp = toggle::handle(&mut host, &p, toggle_req("statsx.amxx", false)).expect("200");
    assert!(!resp.changed);
}

#[test]
fn toggle_enables_commented_entry() {
    let mut host = Recorded::new(full_setup());
    let p = params("POST", "/servers/3/metamod/plugins/toggle");
    toggle::handle(&mut host, &p, toggle_req("whblocker_mm_i386.so", true)).expect("200");
    assert!(ini_text(&host.host, MM_INI).contains("\nlinux addons/whblocker/whblocker_mm_i386.so\n"));
}

#[test]
fn toggle_protects_amxx_loader_entry() {
    let mut host = Recorded::new(full_setup());
    let p = params("POST", "/servers/3/metamod/plugins/toggle");
    let err = toggle::handle(&mut host, &p, toggle_req("amxmodx_mm_i386.so", false)).unwrap_err();
    assert_eq!(code(&err), (422, "SYSTEM_ENTRY"));
}

#[test]
fn toggle_unknown_plugin() {
    let mut host = Recorded::new(full_setup());
    let p = params("POST", "/servers/3/amxx/plugins/toggle");
    let err = toggle::handle(&mut host, &p, toggle_req("nope.amxx", true)).unwrap_err();
    assert_eq!(code(&err), (404, "PLUGIN_NOT_REGISTERED"));
}

#[test]
fn toggle_body_error_comes_after_server_checks() {
    let mut host = Recorded::new(full_setup());
    let p = params("POST", "/servers/99/amxx/plugins/toggle");
    let err = toggle::handle(&mut host, &p, Err(ApiError::bad_request("request body is empty"))).unwrap_err();
    assert_eq!(code(&err), (404, "SERVER_NOT_FOUND"));
    let p = params("POST", "/servers/3/amxx/plugins/toggle");
    let err = toggle::handle(&mut host, &p, Err(ApiError::bad_request("request body is empty"))).unwrap_err();
    assert_eq!(code(&err), (400, "INVALID_INPUT"));
}

#[test]
fn add_amxx_plugin() {
    let mut host = Recorded::new(full_setup());
    let p = params("POST", "/servers/3/amxx/plugins");

    let err = add::handle(&mut host, &p, Ok(add_req("galileo.amxx"))).unwrap_err();
    assert_eq!(code(&err), (422, "FILE_NOT_UPLOADED"));

    host.host.add_file(&format!("{MOD}/addons/amxmodx/plugins/galileo.amxx"), b"amxx");
    let resp = add::handle(&mut host, &p, Ok(add_req("galileo.amxx"))).expect("201");
    assert_eq!(resp.status(), 201);
    assert!(ini_text(&host.host, AMXX_INI).ends_with("galileo.amxx\n"));

    let err = add::handle(&mut host, &p, Ok(add_req("galileo.amxx"))).unwrap_err();
    assert_eq!(code(&err), (409, "ALREADY_REGISTERED"));
}

#[test]
fn add_amxx_force_overwrites_existing() {
    let mut host = Recorded::new(full_setup());
    let p = params("POST", "/servers/3/amxx/plugins");

    let err = add::handle(&mut host, &p, Ok(add_req("statsx.amxx"))).unwrap_err();
    assert_eq!(err.status, 409);

    let req = AddPluginRequest { file: "statsx.amxx".into(), enable: false, path: None, force: true };
    let resp = add::handle(&mut host, &p, Ok(req)).expect("200");
    assert_eq!(resp.status(), 200);
    assert!(resp.replaced);
    assert_eq!(ini_text(&host.host, AMXX_INI), "; AMX Mod X plugins\nadmin.amxx\n;statsx.amxx\n;parachute.amxx\n");
}

#[test]
fn add_metamod_force_replaces_line_in_place() {
    let mut host = Recorded::new(full_setup());
    let p = params("POST", "/servers/3/metamod/plugins");
    host.host.add_file(&format!("{MOD}/addons/reunion/reunion_mm.dll"), b"pe");
    let req = AddPluginRequest {
        file: "reunion_mm.dll".into(),
        enable: true,
        path: Some("addons/reunion/reunion_mm.dll".into()),
        force: true,
    };
    let resp = add::handle(&mut host, &p, Ok(req)).expect("201");
    assert_eq!(resp.status(), 201);
    assert!(!resp.replaced);

    host.host.add_file(&format!("{MOD}/addons/reunion2/reunion_mm_i386.so"), b"elf");
    let req = AddPluginRequest {
        file: "reunion_mm_i386.so".into(),
        enable: true,
        path: Some("addons/reunion2/reunion_mm_i386.so".into()),
        force: true,
    };
    let resp = add::handle(&mut host, &p, Ok(req)).expect("200");
    assert_eq!(resp.status(), 200);
    let ini = ini_text(&host.host, MM_INI);
    let lines: Vec<&str> = ini.lines().collect();
    assert_eq!(lines[1], "linux addons/reunion2/reunion_mm_i386.so");
    assert_eq!(lines[2], ";linux addons/whblocker/whblocker_mm_i386.so");
}

#[test]
fn add_amxx_rejects_sources() {
    let mut host = Recorded::new(full_setup());
    let p = params("POST", "/servers/3/amxx/plugins");
    let err = add::handle(&mut host, &p, Ok(add_req("bhop.sma"))).unwrap_err();
    assert_eq!(code(&err), (422, "INVALID_FILE_TYPE"));
}

#[test]
fn add_metamod_plugin_disabled() {
    let mut host = Recorded::new(full_setup());
    host.host.add_file(&format!("{MOD}/addons/podbot/podbot_mm_i386.so"), b"elf");
    let p = params("POST", "/servers/3/metamod/plugins");
    let req = AddPluginRequest {
        file: "podbot_mm_i386.so".into(),
        enable: false,
        path: Some("addons/podbot/podbot_mm_i386.so".into()),
        force: false,
    };
    let resp = add::handle(&mut host, &p, Ok(req)).expect("201");
    assert_eq!(resp.status(), 201);
    assert_eq!(resp.line, "linux addons/podbot/podbot_mm_i386.so");
    assert!(ini_text(&host.host, MM_INI).ends_with(";linux addons/podbot/podbot_mm_i386.so\n"));
}

#[test]
fn add_metamod_default_path() {
    let mut host = Recorded::new(full_setup());
    host.host.add_file(&format!("{MOD}/addons/whb/whb.so"), b"elf");
    let p = params("POST", "/servers/3/metamod/plugins");
    let resp = add::handle(&mut host, &p, Ok(add_req("whb.so"))).expect("201");
    assert_eq!(resp.status(), 201);
    assert_eq!(resp.line, "linux addons/whb/whb.so");
}

#[test]
fn add_metamod_requires_metamod() {
    let mut host = Recorded::new(MockHost::goldsource());
    host.host.add_file(&format!("{MOD}/liblist.gam"), b"gamedll_linux \"dlls/cs.so\"\n");
    host.host.add_file(&format!("{MOD}/addons/whb/whb.so"), b"elf");
    let p = params("POST", "/servers/3/metamod/plugins");
    let err = add::handle(&mut host, &p, Ok(add_req("whb.so"))).unwrap_err();
    assert_eq!(code(&err), (409, "METAMOD_NOT_INSTALLED"));
}

#[test]
fn add_metamod_rejects_unknown_binary_type() {
    let mut host = Recorded::new(full_setup());
    host.host.add_file(&format!("{MOD}/addons/x/x.dylib"), b"macho");
    let p = params("POST", "/servers/3/metamod/plugins");
    let err = add::handle(&mut host, &p, Ok(add_req("x.dylib"))).unwrap_err();
    assert_eq!(code(&err), (422, "INVALID_FILE_TYPE"));
}

#[test]
fn remove_amxx_plugin_via_body() {
    let mut host = Recorded::new(full_setup());
    let p = params("DELETE", "/servers/3/amxx/plugins");
    let resp = remove::handle(&mut host, &p, false, remove_body("statsx.amxx"), None).expect("200");
    assert!(resp.entry_removed);
    assert!(resp.file_deleted);
    assert!(!ini_text(&host.host, AMXX_INI).contains("statsx.amxx"));
    assert!(host.host.file(&format!("{MOD}/addons/amxmodx/plugins/statsx.amxx")).is_none());
    assert!(host.host.file(&format!("{MOD}/addons/amxmodx/configs/stats.ini")).is_some());
}

#[test]
fn remove_metamod_plugin_via_query() {
    let mut host = Recorded::new(full_setup());
    let p = params("DELETE", "/servers/3/metamod/plugins");
    let empty = Err(ApiError::bad_request("request body is empty"));
    remove::handle(&mut host, &p, true, empty, Some("reunion_mm_i386.so".into())).expect("200");
    assert!(host.host.file(&format!("{MOD}/addons/reunion/reunion_mm_i386.so")).is_none());
    assert!(!ini_text(&host.host, MM_INI).contains("reunion"));
}

#[test]
fn remove_without_file_is_rejected() {
    let mut host = Recorded::new(full_setup());
    let p = params("DELETE", "/servers/3/metamod/plugins");
    let empty = Err(ApiError::bad_request("request body is empty"));
    let err = remove::handle(&mut host, &p, true, empty, None).unwrap_err();
    assert_eq!(code(&err), (400, "INVALID_INPUT"));
    assert_eq!(err.message, "file is required (body or ?file=)");
}

#[test]
fn remove_missing_file_degrades() {
    let mut host = Recorded::new(full_setup());
    host.host.files.remove(&format!("{MOD}/addons/amxmodx/plugins/statsx.amxx"));
    let p = params("DELETE", "/servers/3/amxx/plugins");
    let resp = remove::handle(&mut host, &p, false, remove_body("statsx.amxx"), None).expect("200");
    assert!(resp.entry_removed);
    assert!(!resp.file_deleted);
}

#[test]
fn unknown_route_is_json_404() {
    assert!(match_route("GET", "/nope").is_none());
    let err = ApiError::not_found("NOT_FOUND", "route not found");
    assert_eq!(code(&err), (404, "NOT_FOUND"));
}

#[test]
fn traversal_is_rejected() {
    let mut host = Recorded::new(full_setup());
    let p = params("POST", "/servers/3/amxx/plugins/toggle");
    let err = toggle::handle(&mut host, &p, toggle_req("../../liblist.gam", false)).unwrap_err();
    assert_eq!(err.status, 400);
}

#[test]
fn state_reports_groups_debug_and_comment() {
    let mut host = Recorded::new(full_setup());
    host.host.add_file(
        &format!("{MOD}/addons/amxmodx/configs/plugins.ini"),
        b"; Basic\nadmin.amxx\t; admin base\nstatsx.amxx\tdebug\t; stats\n\n; Fun\n\n;parachute.amxx\tdebug\n\nlone.amxx\n",
    );
    host.host.add_file(&format!("{MOD}/addons/amxmodx/plugins/lone.amxx"), b"amxx");

    let resp = state::handle(&mut host, &params("GET", "/servers/3/state")).expect("200");
    let plugins = &resp.amxx.plugins;
    assert_eq!(plugins.len(), 4);

    assert_eq!(plugins[0].file, "admin.amxx");
    assert_eq!(plugins[0].group_index, 0);
    assert_eq!(plugins[0].group_title.as_deref(), Some("Basic"));
    assert!(!plugins[0].debug);
    assert_eq!(plugins[0].comment.as_deref(), Some("admin base"));

    assert_eq!(plugins[1].file, "statsx.amxx");
    assert_eq!(plugins[1].group_index, 0);
    assert!(plugins[1].debug);
    assert_eq!(plugins[1].comment.as_deref(), Some("stats"));

    assert_eq!(plugins[2].file, "parachute.amxx");
    assert_eq!(plugins[2].group_index, 1);
    assert_eq!(plugins[2].group_title.as_deref(), Some("Fun"));
    assert!(plugins[2].debug);
    assert!(!plugins[2].enabled);

    assert_eq!(plugins[3].file, "lone.amxx");
    assert!(plugins[3].group_title.is_none());
    assert_eq!(plugins[3].group_index, 4294967295u32);
}

#[test]
fn attributes_set_debug_and_comment() {
    let mut host = Recorded::new(full_setup());
    let p = params("POST", "/servers/3/amxx/plugins/attributes");
    let resp = attributes::handle(&mut host, &p, attrs_req("statsx.amxx", true, Some("my note"))).expect("200");
    assert!(resp.changed);
    assert!(resp.debug);
    assert_eq!(resp.comment.as_deref(), Some("my note"));
    assert_eq!(
        ini_text(&host.host, AMXX_INI),
        "; AMX Mod X plugins\nadmin.amxx\nstatsx.amxx debug ; my note\n;parachute.amxx\n"
    );

    let resp = attributes::handle(&mut host, &p, attrs_req("statsx.amxx", false, Some("my note"))).expect("200");
    assert!(resp.changed);
    assert_eq!(
        ini_text(&host.host, AMXX_INI),
        "; AMX Mod X plugins\nadmin.amxx\nstatsx.amxx ; my note\n;parachute.amxx\n"
    );
}

#[test]
fn attributes_unchanged_is_noop() {
    let mut host = Recorded::new(full_setup());
    let p = params("POST", "/servers/3/amxx/plugins/attributes");
    let resp = attributes::handle(&mut host, &p, attrs_req("statsx.amxx", false, None)).expect("200");
    assert!(!resp.changed);
    assert_eq!(ini_text(&host.host, AMXX_INI), "; AMX Mod X plugins\nadmin.amxx\nstatsx.amxx\n;parachute.amxx\n");
}

#[test]
fn attributes_rejects_control_chars_in_comment() {
    let mut host = Recorded::new(full_setup());
    let p = params("POST", "/servers/3/amxx/plugins/attributes");
    let err = attributes::handle(&mut host, &p, attrs_req("statsx.amxx", false, Some("a\nb"))).unwrap_err();
    assert_eq!(err.status, 400);
    assert_eq!(ini_text(&host.host, AMXX_INI), "; AMX Mod X plugins\nadmin.amxx\nstatsx.amxx\n;parachute.amxx\n");
}

#[test]
fn attributes_metamod_sets_description() {
    let mut host = Recorded::new(full_setup());
    let p = params("POST", "/servers/3/metamod/plugins/attributes");
    let resp = attributes::handle(&mut host, &p, attrs_req("reunion_mm_i386.so", false, Some("Reunion"))).expect("200");
    assert!(resp.changed);
    let ini = ini_text(&host.host, MM_INI);
    assert!(ini.contains("linux addons/reunion/reunion_mm_i386.so Reunion\n"), "{}", ini);
}

#[test]
fn attributes_protects_amxx_loader_entry() {
    let mut host = Recorded::new(full_setup());
    let p = params("POST", "/servers/3/metamod/plugins/attributes");
    let err = attributes::handle(&mut host, &p, attrs_req("amxmodx_mm_i386.so", false, Some("x"))).unwrap_err();
    assert_eq!(code(&err), (422, "SYSTEM_ENTRY"));
}

#[test]
fn attributes_unknown_plugin() {
    let mut host = Recorded::new(full_setup());
    let p = params("POST", "/servers/3/amxx/plugins/attributes");
    let err = attributes::handle(&mut host, &p, attrs_req("nope.amxx", true, None)).unwrap_err();
    assert_eq!(code(&err), (404, "PLUGIN_NOT_REGISTERED"));
}

#[test]
fn host_errors_map_to_bad_gateway() {
    let err: ApiError = HostApiError::Call("boom".into()).into();
    assert_eq!(code(&err), (502, "HOST_CALL_FAILED"));
    assert_eq!(err.message, "boom");
    let err: ApiError = HostApiError::Op("gone".into()).into();
    assert_eq!(code(&err), (502, "NODE_OPERATION_FAILED"));
}

#[test]
fn add_amxx_requires_amxmodx() {
    let mut host = Recorded::new(MockHost::goldsource());
    host.host.add_file(&format!("{MOD}/liblist.gam"), b"gamedll_linux \"dlls/cs.so\"\n");
    let p = params("POST", "/servers/3/amxx/plugins");
    let err = add::handle(&mut host, &p, Ok(add_req("galileo.amxx"))).unwrap_err();
    assert_eq!(code(&err), (409, "AMXX_NOT_INSTALLED"));
    assert!(host.host.file(&format!("{MOD}/{AMXX_INI}")).is_none());
}

#[test]
fn add_amxx_creates_missing_ini() {
    let mut host = Recorded::new(MockHost::goldsource());
    host.host.add_file(&format!("{MOD}/liblist.gam"), b"gamedll_linux \"dlls/cs.so\"\n");
    host.host.add_file(&format!("{MOD}/addons/amxmodx/plugins/galileo.amxx"), b"amxx");
    let p = params("POST", "/servers/3/amxx/plugins");
    let resp = add::handle(&mut host, &p, Ok(add_req("galileo.amxx"))).expect("201");
    assert!(!resp.replaced);
    assert_eq!(resp.status(), 201);
    assert_eq!(ini_text(&host.host, AMXX_INI), "galileo.amxx\n");
}

#[test]
fn toggle_unchanged_leaves_ini_as_it_was() {
    let mut host = Recorded::new(full_setup());
    let before = ini_text(&host.host, AMXX_INI);
    let p = params("POST", "/servers/3/amxx/plugins/toggle");
    let resp = toggle::handle(&mut host, &p, toggle_req("admin.amxx", true)).expect("200");
    assert!(!resp.changed);
    assert!(resp.enabled);
    assert_eq!(ini_text(&host.host, AMXX_INI), before);
}

#[test]
fn remove_logs_failed_delete() {
    let mut host = Recorded::new(full_setup());
    host.host.files.remove(&format!("{MOD}/addons/amxmodx/plugins/statsx.amxx"));
    let p = params("DELETE", "/servers/3/amxx/plugins");
    let resp = remove::handle(&mut host, &p, false, remove_body("statsx.amxx"), None).expect("200");
    assert!(!resp.file_deleted);
    assert_eq!(
        host.host.errors,
        vec![format!(
            "goldsrc-addons: failed to delete {MOD}/addons/amxmodx/plugins/statsx.amxx: Op(\"no such file: {MOD}/addons/amxmodx/plugins/statsx.amxx\")"
        )]
    );

    let resp = remove::handle(&mut host, &p, false, remove_body("admin.amxx"), None).expect("200");
    assert!(resp.file_deleted);
    assert_eq!(host.host.errors.len(), 1);
}

#[test]
fn state_reports_missing_binaries_and_configs() {
    let mut host = Recorded::new(full_setup());
    host.host.files.remove(&format!("{MOD}/addons/reunion/reunion_mm_i386.so"));
    let p = params("GET", "/servers/3/state");
    let resp = state::handle(&mut host, &p).expect("200");
    let reunion = resp.metamod.plugins.iter().find(|x| x.file == "reunion_mm_i386.so").expect("row");
    assert!(reunion.missing);
    let amxx = resp.metamod.plugins.iter().find(|x| x.file == "amxmodx_mm_i386.so").expect("row");
    assert!(!amxx.missing);
    let statsx = resp.amxx.plugins.iter().find(|x| x.file == "statsx.amxx").expect("row");
    assert!(statsx.has_config);
    assert_eq!(resp.paths.metamod_dir, "cstrike/addons/metamod");
    assert_eq!(resp.paths.metamod_plugins_ini, "cstrike/addons/metamod/plugins.ini");
}

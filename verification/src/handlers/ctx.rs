//! Shared request context: server → game (engine gate) → node → mod dir.

use vstd::prelude::*;

use crate::goldsrc::{self, moddir, paths, Platform};
use crate::host_api::Recorded;
use crate::host_api::{DirEntry, FileStat, GameInfo, HostApi, HostApiError, HostCall, NodeInfo, ServerInfo};
use crate::http::ApiError;
use crate::router::{self, param};
use crate::text;

verus! {

/// Upper bound of subdirectories probed for liblist.gam.
const MOD_DIR_SCAN_CAP: usize = 16;

pub struct ServerCtx {
    pub server_id: u64,
    pub node_id: u64,
    pub game_code: String,
    pub engine: String,
    /// Absolute server root on the node.
    pub root_abs: String,
    /// Mod folder name, e.g. "cstrike".
    pub mod_dir: String,
    /// Absolute mod folder path.
    pub mod_abs: String,
}

/// The server id route parameter, when it is a decimal `u64`.
pub open spec fn server_id_spec(params: Seq<(String, String)>) -> Option<u64> {
    match router::param_spec(router::params_view(params), "id"@) {
        Some(v) => match text::parse_unsigned(v, 0xFFFF_FFFF_FFFF_FFFF) {
            Some(n) => Some(n as u64),
            None => None,
        },
        None => None,
    }
}

/// The platform route parameter, when it names one.
pub open spec fn platform_spec(params: Seq<(String, String)>) -> Option<Platform> {
    match router::param_spec(router::params_view(params), "platform"@) {
        Some(v) => goldsrc::platform_from_param(v),
        None => None,
    }
}

pub open spec fn is_error(r: ApiError, status: i32, code: &'static str, message: Seq<char>) -> bool {
    r.status == status && r.code == code && r.message@ == message
}

fn parse_server_id(params: &Vec<(String, String)>) -> (r: Option<u64>)
    ensures
        r == server_id_spec(params@),
{
    match param(params, "id") {
        Some(raw) => {
            let cs = text::chars_of(raw.as_str());
            assert(cs@.subrange(0, cs.len() as int) =~= cs@);
            match text::parse_decimal(&cs, 0, cs.len(), 0xFFFF_FFFF_FFFF_FFFFu64) {
                Some(n) => Some(n),
                None => None,
            }
        },
        None => None,
    }
}

/// Whether a game engine is GoldSource (ignoring ASCII case).
pub open spec fn engine_ok(engine: Seq<char>) -> bool {
    text::eq_ci(engine, "goldsource"@)
}

/// The message refusing a server whose engine is not GoldSource.
pub open spec fn engine_message(engine: Seq<char>) -> Seq<char> {
    "server engine is "@ + text::debug_text(engine) + ", expected GoldSource"@
}

/// The server, game and node a request is about, and the server root on the
/// node, from the panel's answers: each missing answer is a 404, a game whose
/// engine is not GoldSource a 422.
pub fn ctx_from(server: Option<ServerInfo>, game: Option<GameInfo>, node: Option<NodeInfo>) -> (r: Result<(ServerInfo, GameInfo, NodeInfo, String), ApiError>)
    ensures
        match server {
            None => r matches Err(e) && is_error(e, 404, "SERVER_NOT_FOUND", "server not found"@),
            Some(s) => match game {
                None => r matches Err(e) && is_error(e, 404, "GAME_NOT_FOUND", "game not found"@),
                Some(g) => if !engine_ok(g.engine@) {
                    r matches Err(e) && is_error(e, 422, "UNSUPPORTED_ENGINE", engine_message(g.engine@))
                } else {
                    match node {
                        None => r matches Err(e) && is_error(e, 404, "NODE_NOT_FOUND", "node not found"@),
                        Some(n) => r matches Ok((s2, g2, n2, root)) && s2 == s && g2 == g && n2 == n
                            && root@ == paths::join_spec(n.work_path@, s.dir@),
                    }
                },
            },
        },
{
    let server = match server {
        Some(s) => s,
        None => return Err(ApiError::not_found("SERVER_NOT_FOUND", "server not found")),
    };
    let game = match game {
        Some(g) => g,
        None => return Err(ApiError::not_found("GAME_NOT_FOUND", "game not found")),
    };
    if !text::eq_ignore_ascii_case(game.engine.as_str(), "goldsource") {
        let shown = text::debug_str(game.engine.as_str());
        let message = text::concat3("server engine is ", shown.as_str(), ", expected GoldSource");
        return Err(ApiError::unprocessable("UNSUPPORTED_ENGINE", message.as_str()));
    }
    let node = match node {
        Some(n) => n,
        None => return Err(ApiError::not_found("NODE_NOT_FOUND", "node not found")),
    };
    let root_abs = paths::join(node.work_path.as_str(), server.dir.as_str());
    Ok((server, game, node, root_abs))
}

/// Where a folder's liblist.gam is probed.
pub open spec fn probe_path(root: Seq<char>, dir: Seq<char>) -> Seq<char> {
    paths::join_spec(paths::join_spec(root, dir), "liblist.gam"@)
}

/// Whether a probe found liblist.gam as a file.
pub open spec fn says_file(a: Result<Option<FileStat>, HostApiError>) -> bool {
    a matches Ok(Some(st)) && !st.is_dir
}

/// The folders probed after the known one, in listing order: the first 16
/// directories of the listing from index `i` on (`seen` of them already
/// passed), the known folder skipped.
pub open spec fn scan_spec(hint: Option<Seq<char>>, es: Seq<DirEntry>, i: nat, seen: nat) -> Seq<Seq<char>>
    decreases es.len() - i,
{
    if i >= es.len() || seen >= 16 {
        Seq::empty()
    } else if es[i as int].is_dir {
        let rest = scan_spec(hint, es, i + 1, seen + 1);
        if hint == Some(es[i as int].name@) {
            rest
        } else {
            seq![es[i as int].name@] + rest
        }
    } else {
        scan_spec(hint, es, i + 1, seen)
    }
}

/// The folders to probe after the known one, from the server root's listing.
pub fn scan_dirs(hint: Option<&str>, entries: &Vec<DirEntry>) -> (r: Vec<String>)
    ensures
        crate::handlers::rows::names_view(r@) == scan_spec(
            match hint {
                Some(h) => Some(h@),
                None => None,
            },
            entries@,
            0,
            0,
        ),
{
    let ghost hv = hint_view(hint);
    let mut out: Vec<String> = Vec::new();
    let mut seen: usize = 0;
    let mut i: usize = 0;
    while i < entries.len() && seen < MOD_DIR_SCAN_CAP
        invariant
            i <= entries.len(),
            seen <= i,
            hv == hint_view(hint),
            crate::handlers::rows::names_view(out@) + scan_spec(hv, entries@, i as nat, seen as nat)
                == scan_spec(hv, entries@, 0, 0),
        decreases entries.len() - i,
    {
        let entry = &entries[i];
        let ghost before = crate::handlers::rows::names_view(out@);
        if entry.is_dir {
            let is_hint = match hint {
                Some(h) => text::str_eq(entry.name.as_str(), h),
                None => false,
            };
            assert(entry.name@ == entries@[i as int].name@);
            proof {
                if hint is Some {
                    assert(is_hint == (hint.unwrap()@ == entry.name@));
                }
            }
            assert(is_hint == (hv == Some(entries@[i as int].name@)));
            if !is_hint {
                out.push(entry.name.clone());
                assert(crate::handlers::rows::names_view(out@) =~= before.push(entries@[i as int].name@));
                assert(seq![entries@[i as int].name@] + scan_spec(hv, entries@, (i + 1) as nat, (seen + 1) as nat)
                    == scan_spec(hv, entries@, i as nat, seen as nat));
                assert(before.push(entries@[i as int].name@) + scan_spec(hv, entries@, (i + 1) as nat, (seen + 1) as nat)
                    =~= before + (seq![entries@[i as int].name@] + scan_spec(hv, entries@, (i + 1) as nat, (seen + 1) as nat)));
            }
            seen += 1;
        }
        i += 1;
    }
    assert(scan_spec(hv, entries@, i as nat, seen as nat) =~= Seq::<Seq<char>>::empty());
    assert(crate::handlers::rows::names_view(out@) + Seq::<Seq<char>>::empty() =~= crate::handlers::rows::names_view(out@));
    out
}

/// The outcome of probing `cands` in order, given the calls `u` that did it
/// (`None` when `u` are not those calls): the first folder whose probe finds
/// liblist.gam as a file, `None` when none does, or the first error.
pub open spec fn probe_result(node: u64, root: Seq<char>, cands: Seq<Seq<char>>, u: Seq<HostCall>) -> Option<Result<Option<Seq<char>>, HostApiError>>
    decreases cands.len(),
{
    if cands.len() == 0 {
        if u.len() == 0 { Some(Ok(None)) } else { None }
    } else if u.len() == 0 {
        None
    } else {
        match u[0] {
            HostCall::Stat(nd, p, a) => if nd == node && p == probe_path(root, cands[0]) {
                match a {
                    Err(h) => if u.len() == 1 { Some(Err(h)) } else { None },
                    Ok(_) => if says_file(a) {
                        if u.len() == 1 { Some(Ok(Some(cands[0]))) } else { None }
                    } else {
                        probe_result(node, root, cands.drop_first(), u.drop_first())
                    },
                }
            } else {
                None
            },
            _ => None,
        }
    }
}

/// The outcome of the mod folder search after the known folder: list the
/// server root, then probe the listed folders.
pub open spec fn scan_result(node: u64, root: Seq<char>, hint: Option<Seq<char>>, u: Seq<HostCall>) -> Option<Result<Option<Seq<char>>, HostApiError>> {
    if u.len() == 0 {
        None
    } else {
        match u[0] {
            HostCall::ReadDir(nd, p, a) => if nd == node && p == root {
                match a {
                    Err(h) => if u.len() == 1 { Some(Err(h)) } else { None },
                    Ok(None) => if u.len() == 1 { Some(Ok(None)) } else { None },
                    Ok(Some(es)) => probe_result(node, root, scan_spec(hint, es@, 0, 0), u.drop_first()),
                }
            } else {
                None
            },
            _ => None,
        }
    }
}

/// The outcome of the mod folder search, given the calls `u` that made it:
/// the known folder first, then the listed ones.
pub open spec fn mod_dir_result(node: u64, root: Seq<char>, hint: Option<Seq<char>>, u: Seq<HostCall>) -> Option<Result<Option<Seq<char>>, HostApiError>> {
    match hint {
        Some(h) => if u.len() == 0 {
            None
        } else {
            match u[0] {
                HostCall::Stat(nd, p, a) => if nd == node && p == probe_path(root, h) {
                    match a {
                        Err(x) => if u.len() == 1 { Some(Err(x)) } else { None },
                        Ok(_) => if says_file(a) {
                            if u.len() == 1 { Some(Ok(Some(h))) } else { None }
                        } else {
                            scan_result(node, root, hint, u.drop_first())
                        },
                    }
                } else {
                    None
                },
                _ => None,
            }
        },
        None => scan_result(node, root, hint, u),
    }
}

/// The calls made after `before`.
pub open spec fn made(before: Seq<HostCall>, after: Seq<HostCall>) -> Seq<HostCall> {
    after.skip(before.len() as int)
}

/// `after` is `before` with calls appended.
pub open spec fn appended(before: Seq<HostCall>, after: Seq<HostCall>) -> bool {
    before.len() <= after.len() && after.take(before.len() as int) == before
}

pub open spec fn not_found_message() -> Seq<char> {
    "could not locate the mod directory (liblist.gam) inside the server directory"@
}

/// What `ServerCtx::resolve` returns for server id `id`, given the calls `t`
/// it made: the panel's answers decide the lookups, then the mod folder
/// search; each host error becomes its 502 reply.
pub open spec fn resolve_spec(id: u64, t: Seq<HostCall>, r: Result<ServerCtx, ApiError>) -> bool {
    t.len() >= 1 && match t[0] {
        HostCall::GetServer(i, a) => i == id && match a {
            Err(h) => t.len() == 1 && r == Err::<ServerCtx, ApiError>(crate::http::host_error_spec(h)),
            Ok(None) => t.len() == 1 && (r matches Err(e) && is_error(e, 404, "SERVER_NOT_FOUND", "server not found"@)),
            Ok(Some(s)) => t.len() >= 2 && match t[1] {
                HostCall::GetGame(c, a) => c == s.game_code@ && match a {
                    Err(h) => t.len() == 2 && r == Err::<ServerCtx, ApiError>(crate::http::host_error_spec(h)),
                    Ok(None) => t.len() == 2 && (r matches Err(e) && is_error(e, 404, "GAME_NOT_FOUND", "game not found"@)),
                    Ok(Some(g)) => if !engine_ok(g.engine@) {
                        t.len() == 2 && (r matches Err(e) && is_error(e, 422, "UNSUPPORTED_ENGINE", engine_message(g.engine@)))
                    } else {
                        t.len() >= 3 && match t[2] {
                            HostCall::GetNode(ni, a) => ni == s.node_id && match a {
                                Err(h) => t.len() == 3 && r == Err::<ServerCtx, ApiError>(crate::http::host_error_spec(h)),
                                Ok(None) => t.len() == 3 && (r matches Err(e) && is_error(e, 404, "NODE_NOT_FOUND", "node not found"@)),
                                Ok(Some(n)) => {
                                    let root = paths::join_spec(n.work_path@, s.dir@);
                                    match mod_dir_result(n.id, root, moddir::known_mod_dir_spec(s.game_code@), t.skip(3)) {
                                        Some(Err(h)) => r == Err::<ServerCtx, ApiError>(crate::http::host_error_spec(h)),
                                        Some(Ok(None)) => r matches Err(e) && is_error(e, 422, "MOD_DIR_NOT_FOUND", not_found_message()),
                                        Some(Ok(Some(d))) => r matches Ok(ctx) && ctx.server_id == id && ctx.node_id == n.id
                                            && ctx.game_code == s.game_code && ctx.engine == g.engine && ctx.root_abs@ == root
                                            && ctx.mod_dir@ == d && ctx.mod_abs@ == paths::join_spec(root, d),
                                        None => false,
                                    }
                                },
                            },
                            _ => false,
                        }
                    },
                },
                _ => false,
            },
        },
        _ => false,
    }
}

impl ServerCtx {
    /// Resolves the server of a request: its id from the route, then the
    /// panel's server, game and node, then the mod folder on the node.
    pub fn resolve<H: HostApi>(host: &mut Recorded<H>, params: &Vec<(String, String)>) -> (r: Result<ServerCtx, ApiError>)
        ensures
        final(host).errors@ == old(host).errors@,
            appended(old(host).calls@, final(host).calls@),
            crate::host_api::extends_reading(old(host).calls@, final(host).calls@),
            match server_id_spec(params@) {
                None => made(old(host).calls@, final(host).calls@).len() == 0
                    && (r matches Err(e) && is_error(e, 400, "INVALID_INPUT", "invalid server id"@)),
                Some(id) => resolve_spec(id, made(old(host).calls@, final(host).calls@), r),
            },
    {
        let ghost c0 = host.calls@;
        proof { crate::host_api::lemma_extends_reading_refl(c0); }
        let server_id = match parse_server_id(params) {
            Some(id) => id,
            None => {
                let e = ApiError::bad_request("invalid server id");
                assert(made(c0, host.calls@) =~= Seq::<HostCall>::empty());
                return Err(e);
            },
        };
        let server = match host.get_server(server_id) {
            Ok(s) => s,
            Err(h) => {
                proof { crate::host_api::lemma_extends_reading_push(c0, c0, HostCall::GetServer(server_id, Err(h))); }
                assert(made(c0, host.calls@) =~= seq![HostCall::GetServer(server_id, Err(h))]);
                return Err(ApiError::from(h));
            },
        };
        let ghost c1 = host.calls@;
        proof { crate::host_api::lemma_extends_reading_push(c0, c0, HostCall::GetServer(server_id, Ok(server))); }
        assert(made(c0, c1) =~= seq![HostCall::GetServer(server_id, Ok(server))]);
        let game = match &server {
            Some(s) => match host.get_game(s.game_code.as_str()) {
                Ok(g) => g,
                Err(h) => {
                    proof { crate::host_api::lemma_extends_reading_push(c0, c1, HostCall::GetGame(s.game_code@, Err(h))); }
                    assert(made(c0, host.calls@) =~= made(c0, c1).push(HostCall::GetGame(s.game_code@, Err(h))));
                    return Err(ApiError::from(h));
                },
            },
            None => None,
        };
        let ghost c2 = host.calls@;
        proof {
            if server is Some {
                crate::host_api::lemma_extends_reading_push(c0, c1, HostCall::GetGame(server.unwrap().game_code@, Ok(game)));
                assert(made(c0, c2) =~= made(c0, c1).push(HostCall::GetGame(server.unwrap().game_code@, Ok(game))));
            }
        }
        let lookup_node = match (&server, &game) {
            (Some(_), Some(g)) => text::eq_ignore_ascii_case(g.engine.as_str(), "goldsource"),
            _ => false,
        };
        let node = if lookup_node {
            let node_id = match &server {
                Some(s) => s.node_id,
                None => 0,
            };
            match host.get_node(node_id) {
                Ok(n) => n,
                Err(h) => {
                    proof { crate::host_api::lemma_extends_reading_push(c0, c2, HostCall::GetNode(node_id, Err(h))); }
                    assert(made(c0, host.calls@) =~= made(c0, c2).push(HostCall::GetNode(node_id, Err(h))));
                    return Err(ApiError::from(h));
                },
            }
        } else {
            None
        };
        let ghost c3 = host.calls@;
        proof {
            if lookup_node {
                crate::host_api::lemma_extends_reading_push(c0, c2, HostCall::GetNode(server.unwrap().node_id, Ok(node)));
                assert(made(c0, c3) =~= made(c0, c2).push(HostCall::GetNode(server.unwrap().node_id, Ok(node))));
            }
        }
        let (server, game, node, root_abs) = match ctx_from(server, game, node) {
            Ok(t) => t,
            Err(e) => return Err(e),
        };
        let hint = moddir::known_mod_dir(server.game_code.as_str());
        let found = resolve_mod_dir(host, node.id, root_abs.as_str(), hint);
        proof {
            crate::host_api::lemma_extends_reading_trans(c0, c3, host.calls@);
            assert(made(c0, c3).len() == 3);
            assert(made(c0, host.calls@).skip(3) =~= made(c3, host.calls@));
            assert(made(c0, host.calls@).take(3) =~= made(c0, c3));
            assert(made(c0, host.calls@)[0] == made(c0, c3)[0]);
            assert(made(c0, host.calls@)[1] == made(c0, c3)[1]);
            assert(made(c0, host.calls@)[2] == made(c0, c3)[2]);
        }
        let mod_dir = match found {
            Ok(Some(d)) => d,
            Ok(None) => return Err(
                ApiError::unprocessable(
                    "MOD_DIR_NOT_FOUND",
                    "could not locate the mod directory (liblist.gam) inside the server directory",
                ),
            ),
            Err(h) => return Err(ApiError::from(h)),
        };
        let mod_abs = paths::join(root_abs.as_str(), mod_dir.as_str());
        Ok(ServerCtx {
            server_id,
            node_id: node.id,
            game_code: server.game_code,
            engine: game.engine,
            root_abs,
            mod_dir,
            mod_abs,
        })
    }

    /// Path relative to the server dir, for the frontend file-manager API.
    pub fn rel(&self, mod_relative: &str) -> (r: String)
        ensures
            r@ == paths::join_spec(self.mod_dir@, mod_relative@),
    {
        paths::join(self.mod_dir.as_str(), mod_relative)
    }
}

/// The calls made from `a` to `c` are those from `a` to `b`, then from `b` to `c`.
pub proof fn lemma_made_concat(a: Seq<HostCall>, b: Seq<HostCall>, c: Seq<HostCall>)
    requires
        appended(a, b),
        appended(b, c),
    ensures
        appended(a, c),
        made(a, c) == made(a, b) + made(b, c),
{
    assert(c.take(a.len() as int) =~= c.take(b.len() as int).take(a.len() as int));
    assert(made(a, c) =~= made(a, b) + made(b, c)) by {
        assert forall|k: int| 0 <= k < made(a, b).len() implies made(a, c)[k] == made(a, b)[k] by {
            assert(made(a, c)[k] == c[a.len() + k]);
            assert(c[a.len() + k] == c.take(b.len() as int)[a.len() + k]);
        }
    }
}

/// `c` probed folder `d` of `root` and found no liblist.gam file.
pub open spec fn missed_probe(c: HostCall, node: u64, root: Seq<char>, d: Seq<char>) -> bool {
    c matches HostCall::Stat(nd, p, a) && nd == node && p == probe_path(root, d) && a is Ok && !says_file(a)
}

/// The known folder was probed without finding liblist.gam (or there is none).
pub open spec fn hint_missed(node: u64, root: Seq<char>, hint: Option<Seq<char>>, c0: Seq<HostCall>, c1: Seq<HostCall>) -> bool {
    appended(c0, c1) && match hint {
        Some(h) => made(c0, c1).len() == 1 && missed_probe(made(c0, c1)[0], node, root, h),
        None => c1 == c0,
    }
}

proof fn lemma_scan_step(node: u64, root: Seq<char>, hint: Option<Seq<char>>, entries: Vec<DirEntry>, c1: Seq<HostCall>, c2: Seq<HostCall>, c: Seq<HostCall>)
    requires
        appended(c1, c2),
        appended(c2, c),
        made(c1, c2) == seq![HostCall::ReadDir(node, root, Ok(Some(entries)))],
    ensures
        appended(c1, c),
        scan_result(node, root, hint, made(c1, c)) == probe_result(node, root, scan_spec(hint, entries@, 0, 0), made(c2, c)),
{
    lemma_made_concat(c1, c2, c);
    assert(made(c1, c)[0] == made(c1, c2)[0]);
    assert(made(c1, c).drop_first() =~= made(c2, c));
}

proof fn lemma_mod_dir_split(node: u64, root: Seq<char>, hint: Option<Seq<char>>, c0: Seq<HostCall>, c1: Seq<HostCall>, c: Seq<HostCall>)
    requires
        hint_missed(node, root, hint, c0, c1),
        appended(c1, c),
    ensures
        mod_dir_result(node, root, hint, made(c0, c)) == scan_result(node, root, hint, made(c1, c)),
{
    lemma_made_concat(c0, c1, c);
    match hint {
        Some(h) => {
            assert(made(c0, c)[0] == made(c0, c1)[0]);
            assert(made(c0, c).drop_first() =~= made(c1, c));
        },
        None => {
            assert(made(c0, c) =~= made(c1, c));
        },
    }
}

pub open spec fn hint_view(hint: Option<&str>) -> Option<Seq<char>> {
    match hint {
        Some(h) => Some(h@),
        None => None,
    }
}

/// Probes one folder of the server root for liblist.gam.
fn has_liblist<H: HostApi>(host: &mut Recorded<H>, node_id: u64, root_abs: &str, dir: &str) -> (r: Result<bool, HostApiError>)
    ensures
    final(host).errors@ == old(host).errors@,
        appended(old(host).calls@, final(host).calls@),
        crate::host_api::extends_reading(old(host).calls@, final(host).calls@),
        made(old(host).calls@, final(host).calls@).len() == 1,
        made(old(host).calls@, final(host).calls@)[0] matches HostCall::Stat(nd, p, a) && nd == node_id
            && p == probe_path(root_abs@, dir@) && r == (match a {
                Err(h) => Err::<bool, HostApiError>(h),
                Ok(_) => Ok::<bool, HostApiError>(says_file(a)),
            }),
{
    let ghost c0 = host.calls@;
    let dir_abs = paths::join(root_abs, dir);
    let liblist = paths::join(dir_abs.as_str(), "liblist.gam");
    let a = host.stat(node_id, liblist.as_str());
    proof {
        crate::host_api::lemma_extends_reading_refl(c0);
        crate::host_api::lemma_extends_reading_push(c0, c0, HostCall::Stat(node_id, liblist@, a));
        assert(made(c0, host.calls@) =~= seq![HostCall::Stat(node_id, liblist@, a)]);
        assert(host.calls@.take(c0.len() as int) =~= c0);
    }
    match a {
        Ok(Some(s)) => Ok(!s.is_dir),
        Ok(None) => Ok(false),
        Err(h) => Err(h),
    }
}

/// Skipping probes that found no file does not change the outcome.
proof fn lemma_probe_prefix(node: u64, root: Seq<char>, cands: Seq<Seq<char>>, u: Seq<HostCall>, k: nat)
    requires
        k <= cands.len(),
        k <= u.len(),
        forall|j: int| 0 <= j < k ==> missed_probe(#[trigger] u[j], node, root, cands[j]),
    ensures
        probe_result(node, root, cands, u) == probe_result(node, root, cands.skip(k as int), u.skip(k as int)),
    decreases k,
{
    if k > 0 {
        assert(u[0] == u[0]);
        assert(missed_probe(u[0], node, root, cands[0]));
        assert forall|j: int| 0 <= j < k - 1 implies missed_probe(#[trigger] u.drop_first()[j], node, root, cands.drop_first()[j]) by {
            assert(u.drop_first()[j] == u[j + 1]);
            assert(cands.drop_first()[j] == cands[j + 1]);
        }
        lemma_probe_prefix(node, root, cands.drop_first(), u.drop_first(), (k - 1) as nat);
        assert(cands.drop_first().skip(k - 1) =~= cands.skip(k as int));
        assert(u.drop_first().skip(k - 1) =~= u.skip(k as int));
    } else {
        assert(cands.skip(0) =~= cands);
        assert(u.skip(0) =~= u);
    }
}

/// Finds the folder holding liblist.gam: the known folder `hint` first, then
/// up to 16 subdirectories of the server root in listing order.
fn resolve_mod_dir<H: HostApi>(host: &mut Recorded<H>, node_id: u64, root_abs: &str, hint: Option<&str>) -> (r: Result<Option<String>, HostApiError>)
    ensures
    final(host).errors@ == old(host).errors@,
        appended(old(host).calls@, final(host).calls@),
        crate::host_api::extends_reading(old(host).calls@, final(host).calls@),
        mod_dir_result(node_id, root_abs@, hint_view(hint), made(old(host).calls@, final(host).calls@)) == Some(match r {
            Ok(Some(d)) => Ok::<Option<Seq<char>>, HostApiError>(Some(d@)),
            Ok(None) => Ok::<Option<Seq<char>>, HostApiError>(None),
            Err(h) => Err::<Option<Seq<char>>, HostApiError>(h),
        }),
{
    let ghost c0 = host.calls@;
    proof { crate::host_api::lemma_extends_reading_refl(c0); }
    if let Some(dir) = hint {
        match has_liblist(host, node_id, root_abs, dir) {
            Ok(true) => return Ok(Some(dir.to_owned())),
            Ok(false) => {},
            Err(h) => return Err(h),
        }
    }
    let ghost c1 = host.calls@;
    assert(hint_missed(node_id, root_abs@, hint_view(hint), c0, c1)) by {
        if hint is None {
            assert(c1 == c0);
        }
        assert(c1.take(c0.len() as int) =~= c0);
    }
    let listing = host.read_dir(node_id, root_abs);
    let ghost c2 = host.calls@;
    proof {
        crate::host_api::lemma_extends_reading_push(c0, c1, HostCall::ReadDir(node_id, root_abs@, listing));
        assert(c2.take(c1.len() as int) =~= c1);
        assert(c2.take(c2.len() as int) =~= c2);
        assert(made(c1, c2) =~= seq![HostCall::ReadDir(node_id, root_abs@, listing)]);
    }
    let entries = match listing {
        Ok(Some(e)) => e,
        Ok(None) => {
            proof { assert(made(c1, c2) =~= seq![HostCall::ReadDir(node_id, root_abs@, listing)]); }
            proof { lemma_mod_dir_split(node_id, root_abs@, hint_view(hint), c0, c1, host.calls@); }
            return Ok(None);
        },
        Err(h) => {
            proof { assert(made(c1, c2) =~= seq![HostCall::ReadDir(node_id, root_abs@, listing)]); }
            proof { lemma_mod_dir_split(node_id, root_abs@, hint_view(hint), c0, c1, host.calls@); }
            return Err(h);
        },
    };
    let cands = scan_dirs(hint, &entries);
    let ghost cv = crate::handlers::rows::names_view(cands@);
    let mut k: usize = 0;
    while k < cands.len()
        invariant
            k <= cands.len(),
            cv == crate::handlers::rows::names_view(cands@),
            cv == scan_spec(hint_view(hint), entries@, 0, 0),
            c0 == old(host).calls@,
            host.errors@ == old(host).errors@,
            hint_missed(node_id, root_abs@, hint_view(hint), c0, c1),
            appended(c1, c2),
            made(c1, c2) == seq![HostCall::ReadDir(node_id, root_abs@, Ok(Some(entries)))],
            appended(c2, host.calls@),
            crate::host_api::extends_reading(c0, host.calls@),
            made(c2, host.calls@).len() == k,
            forall|j: int| 0 <= j < k ==> missed_probe(#[trigger] made(c2, host.calls@)[j], node_id, root_abs@, cv[j]),
        decreases cands.len() - k,
    {
        let ghost before = host.calls@;
        let hit = has_liblist(host, node_id, root_abs, cands[k].as_str());
        proof {
            crate::host_api::lemma_extends_reading_trans(c0, before, host.calls@);
            assert(host.calls@ =~= before.push(made(before, host.calls@)[0]));
            assert(made(c2, host.calls@) =~= made(c2, before).push(made(before, host.calls@)[0]));
            assert(host.calls@.take(c2.len() as int) =~= c2);
            assert(cv[k as int] == cands@[k as int]@);
        }
        match hit {
            Ok(true) => {
                proof {
                    lemma_probe_prefix(node_id, root_abs@, cv, made(c2, host.calls@), k as nat);
                    assert(cv.skip(k as int)[0] == cv[k as int]);
                    assert(made(c2, host.calls@).skip(k as int) =~= seq![made(c2, host.calls@)[k as int]]);
                    lemma_scan_step(node_id, root_abs@, hint_view(hint), entries, c1, c2, host.calls@);
                    lemma_mod_dir_split(node_id, root_abs@, hint_view(hint), c0, c1, host.calls@);
                    assert(crate::host_api::extends_reading(c0, host.calls@));
                }
                let d = cands[k].clone();
                assert(crate::host_api::extends_reading(c0, host.calls@));
                return Ok(Some(d));
            },
            Err(h) => {
                proof {
                    lemma_probe_prefix(node_id, root_abs@, cv, made(c2, host.calls@), k as nat);
                    assert(made(c2, host.calls@).skip(k as int) =~= seq![made(c2, host.calls@)[k as int]]);
                    lemma_scan_step(node_id, root_abs@, hint_view(hint), entries, c1, c2, host.calls@);
                    lemma_mod_dir_split(node_id, root_abs@, hint_view(hint), c0, c1, host.calls@);
                }
                return Err(h);
            },
            Ok(false) => {},
        }
        k += 1;
    }
    proof {
        lemma_probe_prefix(node_id, root_abs@, cv, made(c2, host.calls@), k as nat);
        assert(cv.skip(k as int) =~= Seq::<Seq<char>>::empty());
        assert(made(c2, host.calls@).skip(k as int) =~= Seq::<HostCall>::empty());
        lemma_scan_step(node_id, root_abs@, hint_view(hint), entries, c1, c2, host.calls@);
        lemma_mod_dir_split(node_id, root_abs@, hint_view(hint), c0, c1, host.calls@);
    }
    Ok(None)
}


pub fn parse_platform(params: &Vec<(String, String)>) -> (r: Result<Platform, ApiError>)
    ensures
        match platform_spec(params@) {
            Some(p) => r == Ok::<Platform, ApiError>(p),
            None => r matches Err(e) && is_error(e, 404, "NOT_FOUND", "unknown platform"@),
        },
{
    match param(params, "platform") {
        Some(raw) => match Platform::from_route_param(raw.as_str()) {
            Some(p) => Ok(p),
            None => Err(ApiError::not_found("NOT_FOUND", "unknown platform")),
        },
        None => Err(ApiError::not_found("NOT_FOUND", "unknown platform")),
    }
}

/// The check a request `file` field gets: a path when it holds '/', else a
/// bare file name.
pub open spec fn file_key_check(file: Seq<char>) -> Result<(), &'static str> {
    if text::contains_any(file, seq!['/']) {
        paths::rel_path_check(file, text::byte_len(file))
    } else {
        paths::file_name_check(file, text::byte_len(file))
    }
}

/// Validates a `file` request field: a bare name, or (metamod) an ini path.
pub fn sanitize_file_key(file: &str) -> (r: Result<(), ApiError>)
    ensures
        match file_key_check(file@) {
            Ok(()) => r is Ok,
            Err(m) => r matches Err(e) && is_error(e, 400, "INVALID_INPUT", m@),
        },
{
    let cs = text::chars_of(file);
    let slash = text::find_char(&cs, '/', 0);
    let has_slash = slash < cs.len();
    proof {
        if has_slash {
            assert(seq!['/'].contains(cs@[slash as int])) by { assert(seq!['/'][0] == '/'); }
        } else {
            assert forall|i: int| 0 <= i < file@.len() implies !seq!['/'].contains(#[trigger] file@[i]) by {
                lemma_find_from_none(cs@, '/', 0, i);
                if seq!['/'].contains(file@[i]) {
                    let k = choose|k: int| 0 <= k < 1 && seq!['/'][k] == file@[i];
                    assert(seq!['/'][k] == '/');
                }
            }
        }
    }
    let result = if has_slash {
        paths::sanitize_rel_path(file)
    } else {
        paths::sanitize_file_name(file)
    };
    match result {
        Ok(()) => Ok(()),
        Err(m) => Err(ApiError::bad_request(m)),
    }
}

proof fn lemma_find_from_none(s: Seq<char>, c: char, i: nat, j: int)
    requires
        text::find_from(s, c, i) >= s.len(),
        i <= j < s.len(),
    ensures
        s[j] != c,
    decreases j - i,
{
    if s[i as int] != c && (i as int) < j {
        lemma_find_from_none(s, c, i + 1, j);
    }
}

/// Checks the entry key of a request: a valid file key, and not the AMX Mod X
/// loader entry of Metamod, which the platform manages.
pub fn check_entry_key(platform: Platform, file: &str) -> (r: Result<(), ApiError>)
    ensures
        match file_key_check(file@) {
            Err(m) => r matches Err(e) && is_error(e, 400, "INVALID_INPUT", m@),
            Ok(()) => if platform == Platform::Metamod && goldsrc::is_amxx_loader_spec(file@) {
                r matches Err(e) && is_error(e, 422, "SYSTEM_ENTRY", "the AMX Mod X loader entry is managed by the platform"@)
            } else {
                r is Ok
            },
        },
{
    sanitize_file_key(file)?;
    if platform == Platform::Metamod && goldsrc::is_amxx_loader_entry(file) {
        return Err(ApiError::unprocessable("SYSTEM_ENTRY", "the AMX Mod X loader entry is managed by the platform"));
    }
    Ok(())
}

} // verus!

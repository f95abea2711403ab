//! POST /servers/{id}/{platform}/plugins — register an uploaded plugin file.

use vstd::prelude::*;

use crate::goldsrc::{self, paths, Platform};
use crate::goldsrc::ini::{opt_chars, Dialect};
use crate::handlers::ctx::{self, appended, made, ServerCtx};
use crate::handlers::{edit, liblist_outcome, liblist_path, metamod_dir_spec, platform_ini_spec};
use crate::host_api::Recorded;
use crate::host_api::{HostApi, HostApiError, HostCall};
use crate::http::{host_error_spec, ApiError};
use crate::model::{AddPluginRequest, AddPluginResponse};
use crate::text::{self, chars_of, lower_chars};

verus! {

/// The ini keyword of a Metamod binary: `linux` for `.so`, `win32` for
/// `.dll` (the text after the last '.', ignoring ASCII case).
pub open spec fn platform_keyword_spec(file: Seq<char>) -> Option<Seq<char>> {
    let ext = file.skip(super::super::goldsrc::amxxpc::last_index(file, '.') + 1);
    if text::eq_ci(ext, "so"@) {
        Some("linux"@)
    } else if text::eq_ci(ext, "dll"@) {
        Some("win32"@)
    } else {
        None
    }
}

/// Default location of an uploaded Metamod binary: `addons/<stem>/<file>`.
pub open spec fn default_metamod_path(file: Seq<char>) -> Seq<char> {
    "addons/"@ + paths::file_stem_spec(file) + "/"@ + file
}

/// Where an uploaded Metamod binary `file` lives (mod-relative: `path` when
/// given, else `addons/<stem>/<file>`) and the ini line that loads it; or
/// the status, code and message refusing them.
pub open spec fn target_spec(file: Seq<char>, path: Option<Seq<char>>) -> Result<(Seq<char>, Seq<char>), (i32, &'static str, Seq<char>)> {
    match platform_keyword_spec(file) {
        None => Err((422i32, "INVALID_FILE_TYPE", "Metamod plugins must be .so or .dll binaries"@)),
        Some(k) => match path {
            Some(p) => match paths::rel_path_check(p, text::byte_len(p)) {
                Err(m) => Err((400i32, "INVALID_INPUT", m@)),
                Ok(()) => if !text::eq_ci(paths::file_name_spec(p), file) {
                    Err((400i32, "INVALID_INPUT", "path must point at the uploaded file"@))
                } else {
                    Ok((p, k + " "@ + p))
                },
            },
            None => Ok((default_metamod_path(file), k + " "@ + default_metamod_path(file))),
        },
    }
}

/// What the ini at `path` on `node` held before a registration, from the
/// calls `u` that read it: how many calls that took, and its bytes (none when
/// the file is missing) or the host error. `None` when `u` are not those calls.
pub open spec fn existing_ini(node: u64, path: Seq<char>, u: Seq<HostCall>) -> Option<(nat, Result<Seq<u8>, HostApiError>)> {
    if u.len() == 0 {
        None
    } else {
        match u[0] {
            HostCall::Stat(n, p, a) => if n != node || p != path {
                None
            } else {
                match a {
                    Err(h) => Some((1nat, Err(h))),
                    Ok(None) => Some((1nat, Ok(Seq::<u8>::empty()))),
                    Ok(Some(_)) => if u.len() < 2 {
                        None
                    } else {
                        match u[1] {
                            HostCall::Download(n2, p2, a2) => if n2 != node || p2 != path {
                                None
                            } else {
                                match a2 {
                                    Err(h) => Some((2nat, Err(h))),
                                    Ok(b) => Some((2nat, Ok(b@))),
                                }
                            },
                            _ => None,
                        }
                    },
                }
            },
            _ => None,
        }
    }
}

/// What registering `line` for `file` in the ini at `path` on `node`
/// answered, given the calls `u` it made: the ini was read (empty when
/// missing); unless an entry already answers to `file` and `force` is off,
/// the edited bytes were uploaded to the same path, and the reply tells
/// whether an entry was replaced.
pub open spec fn registered(
    node: u64,
    path: Seq<char>,
    dialect: Dialect,
    file: Seq<char>,
    line: Seq<char>,
    enable: bool,
    force: bool,
    u: Seq<HostCall>,
    r: Result<AddPluginResponse, ApiError>,
) -> bool {
    match existing_ini(node, path, u) {
        None => false,
        Some((k, Err(h))) => u.len() == k && r == Err::<AddPluginResponse, ApiError>(host_error_spec(h)),
        Some((k, Ok(b))) => match edit::register_spec(dialect, b, file, line, enable, force) {
            None => u.len() == k && (r matches Err(e) && edit::already_registered(e, file)),
            Some((replaced, out)) => u.len() == k + 1 && match u[k as int] {
                HostCall::Upload(n, p, content, perm, a) => n == node && p == path && content == out && perm == 0o644u32 && match a {
                    Err(h) => r == Err::<AddPluginResponse, ApiError>(host_error_spec(h)),
                    Ok(_) => r matches Ok(resp) && resp.file@ == file && resp.enabled == enable && resp.line@ == line
                        && resp.replaced == replaced,
                },
                _ => false,
            },
        },
    }
}

/// The refusal of an AMX Mod X plugin that is not in the plugins folder.
pub open spec fn amxx_missing_message(file: Seq<char>) -> Seq<char> {
    file + " was not found in "@ + (goldsrc::AMXX_PLUGINS_DIR@ + "; upload it first"@)
}

/// What adding an AMX Mod X plugin answered, given the calls `u` it made:
/// a compiled `.amxx` name, AMX Mod X installed, the file uploaded to the
/// plugins folder, then its registration in AMX Mod X's plugins.ini.
pub open spec fn amxx_added(c: ServerCtx, req: AddPluginRequest, u: Seq<HostCall>, r: Result<AddPluginResponse, ApiError>) -> bool {
    if !text::ends_with(text::lower_seq(req.file@), ".amxx"@) {
        u.len() == 0 && (r matches Err(e) && ctx::is_error(e, 422, "INVALID_FILE_TYPE", "AMX Mod X plugins must be compiled .amxx files"@))
    } else {
        u.len() >= 1 && match u[0] {
            HostCall::Stat(n, p, a) => n == c.node_id && p == paths::join_spec(c.mod_abs@, goldsrc::AMXX_DIR@) && match a {
                Err(h) => u.len() == 1 && r == Err::<AddPluginResponse, ApiError>(host_error_spec(h)),
                Ok(st) => if !(st matches Some(d) && d.is_dir) {
                    u.len() == 1 && (r matches Err(e) && ctx::is_error(e, 409, "AMXX_NOT_INSTALLED", "AMX Mod X is not installed on this server"@))
                } else {
                    u.len() >= 2 && match u[1] {
                        HostCall::Stat(n2, p2, a2) => n2 == c.node_id
                            && p2 == paths::join_spec(paths::join_spec(c.mod_abs@, goldsrc::AMXX_PLUGINS_DIR@), req.file@) && match a2 {
                            Err(h) => u.len() == 2 && r == Err::<AddPluginResponse, ApiError>(host_error_spec(h)),
                            Ok(None) => u.len() == 2 && (r matches Err(e) && ctx::is_error(e, 422, "FILE_NOT_UPLOADED", amxx_missing_message(req.file@))),
                            Ok(Some(_)) => registered(c.node_id, paths::join_spec(c.mod_abs@, goldsrc::AMXX_PLUGINS_INI@), Dialect::Amxx,
                                req.file@, req.file@, req.enable, req.force, u.skip(2), r),
                        },
                        _ => false,
                    }
                },
            },
            _ => false,
        }
    }
}

/// What adding a Metamod plugin answered, given the calls `u` it made: its
/// location and line, Metamod installed according to liblist.gam, the binary
/// uploaded there, then its registration in Metamod's plugins.ini.
pub open spec fn metamod_added(c: ServerCtx, req: AddPluginRequest, u: Seq<HostCall>, r: Result<AddPluginResponse, ApiError>) -> bool {
    match target_spec(req.file@, opt_chars(req.path)) {
        Err((st, code, m)) => u.len() == 0 && (r matches Err(e) && ctx::is_error(e, st, code, m)),
        Ok((rel, line)) => match liblist_outcome(c.node_id, liblist_path(c), u) {
            None => false,
            Some((k, Err(h))) => u.len() == k && r == Err::<AddPluginResponse, ApiError>(host_error_spec(h)),
            Some((k, Ok(l))) => if !metamod_dir_spec(l).1 {
                u.len() == k && (r matches Err(e) && ctx::is_error(e, 409, "METAMOD_NOT_INSTALLED", "Metamod is not installed on this server"@))
            } else {
                u.len() >= k + 1 && match u[k as int] {
                    HostCall::Stat(n, p, a) => n == c.node_id && p == paths::join_spec(c.mod_abs@, rel) && match a {
                        Err(h) => u.len() == k + 1 && r == Err::<AddPluginResponse, ApiError>(host_error_spec(h)),
                        Ok(None) => u.len() == k + 1
                            && (r matches Err(e) && ctx::is_error(e, 422, "FILE_NOT_UPLOADED", rel + " was not found; upload it first"@)),
                        Ok(Some(_)) => registered(c.node_id, paths::join_spec(c.mod_abs@, platform_ini_spec(Platform::Metamod, metamod_dir_spec(l).0)),
                            Dialect::Metamod, req.file@, line, req.enable, req.force, u.skip(k + 1int), r),
                    },
                    _ => false,
                }
            },
        },
    }
}

/// What an add request answered once its server resolved to `c`, given the
/// calls `u` made after that.
pub open spec fn add_answered(params: Seq<(String, String)>, body: Result<AddPluginRequest, ApiError>, c: ServerCtx, u: Seq<HostCall>, r: Result<AddPluginResponse, ApiError>) -> bool {
    match ctx::platform_spec(params) {
        None => u.len() == 0 && (r matches Err(e) && ctx::is_error(e, 404, "NOT_FOUND", "unknown platform"@)),
        Some(p) => match body {
            Err(e) => u.len() == 0 && r == Err::<AddPluginResponse, ApiError>(e),
            Ok(req) => match paths::file_name_check(req.file@, text::byte_len(req.file@)) {
                Err(m) => u.len() == 0 && (r matches Err(e) && ctx::is_error(e, 400, "INVALID_INPUT", m@)),
                Ok(()) => match p {
                    Platform::Amxx => amxx_added(c, req, u, r),
                    Platform::Metamod => metamod_added(c, req, u, r),
                },
            },
        },
    }
}

/// What an add request answered, given the calls `t` it made: an invalid
/// server id, the server not resolved, or what came after resolving it.
pub open spec fn add_spec(params: Seq<(String, String)>, body: Result<AddPluginRequest, ApiError>, t: Seq<HostCall>, r: Result<AddPluginResponse, ApiError>) -> bool {
    match ctx::server_id_spec(params) {
        None => t.len() == 0 && (r matches Err(e) && ctx::is_error(e, 400, "INVALID_INPUT", "invalid server id"@)),
        Some(id) => {
            ||| (r matches Err(e) && ctx::resolve_spec(id, t, Err::<ServerCtx, ApiError>(e)))
            ||| exists|k: int, c: ServerCtx|
                #![trigger ctx::resolve_spec(id, t.take(k), Ok::<ServerCtx, ApiError>(c))]
                0 <= k <= t.len() && ctx::resolve_spec(id, t.take(k), Ok::<ServerCtx, ApiError>(c))
                    && add_answered(params, body, c, t.skip(k), r)
        },
    }
}

pub fn handle<H: HostApi>(host: &mut Recorded<H>, params: &Vec<(String, String)>, body: Result<AddPluginRequest, ApiError>) -> (r: Result<AddPluginResponse, ApiError>)
    ensures
        appended(old(host).calls@, final(host).calls@),
        add_spec(params@, body, made(old(host).calls@, final(host).calls@), r),
{
    let ghost c0 = host.calls@;
    let context = match ServerCtx::resolve(host, params) {
        Ok(c) => c,
        Err(e) => return Err(e),
    };
    let ghost c1 = host.calls@;
    let ghost id = ctx::server_id_spec(params@).unwrap();
    proof {
        let t = made(c0, c1);
        assert(t.take(t.len() as int) =~= t);
        assert(t.skip(t.len() as int) =~= Seq::<HostCall>::empty());
        assert(ctx::resolve_spec(id, t.take(t.len() as int), Ok::<ServerCtx, ApiError>(context)));
    }
    let platform = match ctx::parse_platform(params) {
        Ok(p) => p,
        Err(e) => return Err(e),
    };
    let request = match body {
        Ok(req) => req,
        Err(e) => return Err(e),
    };
    match paths::sanitize_file_name(request.file.as_str()) {
        Ok(()) => {},
        Err(m) => return Err(ApiError::bad_request(m)),
    }
    let r = match platform {
        Platform::Amxx => add_amxx(host, &context, &request),
        Platform::Metamod => add_metamod(host, &context, &request),
    };
    proof {
        ctx::lemma_made_concat(c0, c1, host.calls@);
        let t = made(c0, host.calls@);
        let k = made(c0, c1).len() as int;
        assert(t.take(k) =~= made(c0, c1));
        assert(t.skip(k) =~= made(c1, host.calls@));
        assert(ctx::resolve_spec(id, t.take(k), Ok::<ServerCtx, ApiError>(context)));
    }
    r
}

fn add_amxx<H: HostApi>(host: &mut Recorded<H>, context: &ServerCtx, request: &AddPluginRequest) -> (r: Result<AddPluginResponse, ApiError>)
    ensures
        appended(old(host).calls@, final(host).calls@),
        amxx_added(*context, *request, made(old(host).calls@, final(host).calls@), r),
{
    let ghost c0 = host.calls@;
    if !text::chars_ends_with(&lower_chars(&chars_of(request.file.as_str())), ".amxx") {
        assert(made(c0, host.calls@) =~= Seq::<HostCall>::empty());
        assert(host.calls@.take(c0.len() as int) =~= c0);
        return Err(ApiError::unprocessable("INVALID_FILE_TYPE", "AMX Mod X plugins must be compiled .amxx files"));
    }
    let amxx_dir_abs = paths::join(context.mod_abs.as_str(), goldsrc::AMXX_DIR);
    let a = host.stat(context.node_id, amxx_dir_abs.as_str());
    let ghost c1 = host.calls@;
    assert(made(c0, c1) =~= seq![HostCall::Stat(context.node_id, amxx_dir_abs@, a)]);
    assert(c1.take(c0.len() as int) =~= c0);
    let installed = match a {
        Err(h) => return Err(ApiError::from(h)),
        Ok(Some(s)) => s.is_dir,
        Ok(None) => false,
    };
    if !installed {
        return Err(ApiError::conflict("AMXX_NOT_INSTALLED", "AMX Mod X is not installed on this server"));
    }
    let plugins_abs = paths::join(context.mod_abs.as_str(), goldsrc::AMXX_PLUGINS_DIR);
    let file_abs = paths::join(plugins_abs.as_str(), request.file.as_str());
    let a2 = host.stat(context.node_id, file_abs.as_str());
    let ghost c2 = host.calls@;
    assert(made(c0, c2) =~= seq![HostCall::Stat(context.node_id, amxx_dir_abs@, a), HostCall::Stat(context.node_id, file_abs@, a2)]);
    assert(c2.take(c0.len() as int) =~= c0);
    match a2 {
        Err(h) => return Err(ApiError::from(h)),
        Ok(None) => {
            let tail = text::concat2(goldsrc::AMXX_PLUGINS_DIR, "; upload it first");
            let message = text::concat3(request.file.as_str(), " was not found in ", tail.as_str());
            return Err(ApiError::unprocessable("FILE_NOT_UPLOADED", message.as_str()));
        },
        Ok(Some(_)) => {},
    }
    let ini_abs = paths::join(context.mod_abs.as_str(), goldsrc::AMXX_PLUGINS_INI);
    let r = register_entry(host, context, ini_abs.as_str(), Dialect::Amxx, request.file.as_str(), request.file.as_str(), request.enable, request.force);
    proof {
        ctx::lemma_made_concat(c0, c2, host.calls@);
        assert(made(c0, host.calls@).skip(2) =~= made(c2, host.calls@));
        assert(made(c0, host.calls@)[0] == made(c0, c2)[0]);
        assert(made(c0, host.calls@)[1] == made(c0, c2)[1]);
    }
    r
}

fn platform_keyword(file: &str) -> (r: Option<&'static str>)
    ensures
        match r {
            Some(k) => platform_keyword_spec(file@) == Some(k@),
            None => platform_keyword_spec(file@) is None,
        },
{
    let cs = chars_of(file);
    let mut i = cs.len();
    assert(cs@.take(i as int) =~= cs@);
    while i > 0 && cs[i - 1] != '.'
        invariant
            i <= cs.len(),
            cs@ == file@,
            goldsrc::amxxpc::last_index(cs@, '.') == goldsrc::amxxpc::last_index(cs@.take(i as int), '.'),
        decreases i,
    {
        assert(cs@.take(i as int).drop_last() =~= cs@.take(i - 1));
        i -= 1;
    }
    proof {
        if i > 0 {
            assert(cs@.take(i as int).last() == '.');
        }
    }
    let mut ext: Vec<char> = Vec::new();
    text::push_range(&mut ext, &cs, i, cs.len());
    assert(ext@ =~= file@.skip(goldsrc::amxxpc::last_index(file@, '.') + 1));
    let lowered = lower_chars(&ext);
    proof {
        reveal_strlit("so");
        reveal_strlit("dll");
        assert(text::lower_seq("so"@) =~= "so"@);
        assert(text::lower_seq("dll"@) =~= "dll"@);
    }
    if text::chars_eq(&lowered, "so") {
        proof { lemma_eq_ci_lower(ext@, "so"@); }
        Some("linux")
    } else if text::chars_eq(&lowered, "dll") {
        proof { lemma_eq_ci_lower(ext@, "dll"@); lemma_eq_ci_lower(ext@, "so"@); }
        Some("win32")
    } else {
        proof { lemma_eq_ci_lower(ext@, "dll"@); lemma_eq_ci_lower(ext@, "so"@); }
        None
    }
}

/// Comparing with a lowercase word ignoring ASCII case is comparing the
/// lowered text with it.
proof fn lemma_eq_ci_lower(s: Seq<char>, w: Seq<char>)
    requires
        text::lower_seq(w) == w,
    ensures
        text::eq_ci(s, w) == (text::lower_seq(s) == w),
{
}

fn add_metamod<H: HostApi>(host: &mut Recorded<H>, context: &ServerCtx, request: &AddPluginRequest) -> (r: Result<AddPluginResponse, ApiError>)
    ensures
        appended(old(host).calls@, final(host).calls@),
        metamod_added(*context, *request, made(old(host).calls@, final(host).calls@), r),
{
    let ghost c0 = host.calls@;
    let (rel, line) = match metamod_target(request.file.as_str(), &request.path) {
        Ok(x) => x,
        Err(e) => {
            assert(made(c0, host.calls@) =~= Seq::<HostCall>::empty());
            assert(host.calls@.take(c0.len() as int) =~= c0);
            return Err(e);
        },
    };
    let liblist = match super::read_liblist(host, context) {
        Ok(l) => l,
        Err(e) => return Err(e),
    };
    let ghost c1 = host.calls@;
    let (mm_dir, installed) = super::metamod_dir(&liblist);
    if !installed {
        return Err(ApiError::conflict("METAMOD_NOT_INSTALLED", "Metamod is not installed on this server"));
    }
    let file_abs = paths::join(context.mod_abs.as_str(), rel.as_str());
    let a = host.stat(context.node_id, file_abs.as_str());
    let ghost c2 = host.calls@;
    proof {
        let u = made(c0, c2);
        let k = made(c0, c1).len() as int;
        assert(c2.take(c0.len() as int) =~= c1.take(c0.len() as int));
        assert(u =~= made(c0, c1).push(HostCall::Stat(context.node_id, file_abs@, a)));
        assert(u.take(k) =~= made(c0, c1));
        super::lemma_liblist_outcome_prefix(context.node_id, liblist_path(*context), made(c0, c1), u);
    }
    match a {
        Err(h) => return Err(ApiError::from(h)),
        Ok(None) => {
            let message = text::concat2(rel.as_str(), " was not found; upload it first");
            return Err(ApiError::unprocessable("FILE_NOT_UPLOADED", message.as_str()));
        },
        Ok(Some(_)) => {},
    }
    let ini_rel = super::platform_ini_rel(Platform::Metamod, mm_dir.as_str());
    let ini_abs = paths::join(context.mod_abs.as_str(), ini_rel.as_str());
    let r = register_entry(host, context, ini_abs.as_str(), Dialect::Metamod, request.file.as_str(), line.as_str(), request.enable, request.force);
    proof {
        ctx::lemma_made_concat(c0, c2, host.calls@);
        let u = made(c0, host.calls@);
        let k = made(c0, c1).len() as int;
        assert(u.take(k + 1) =~= made(c0, c2));
        assert(u.skip(k + 1) =~= made(c2, host.calls@));
        assert(u[k] == made(c0, c2)[k]);
        assert(u.take(k) =~= made(c0, c1));
        super::lemma_liblist_outcome_prefix(context.node_id, liblist_path(*context), made(c0, c1), u);
    }
    r
}

/// Appends the entry line, or with `force` rewrites an existing entry's line
/// in place so the load order is preserved.
fn register_entry<H: HostApi>(
    host: &mut Recorded<H>,
    context: &ServerCtx,
    ini_abs: &str,
    dialect: Dialect,
    file: &str,
    line: &str,
    enable: bool,
    force: bool,
) -> (r: Result<AddPluginResponse, ApiError>)
    ensures
        appended(old(host).calls@, final(host).calls@),
        registered(context.node_id, ini_abs@, dialect, file@, line@, enable, force, made(old(host).calls@, final(host).calls@), r),
{
    let ghost c0 = host.calls@;
    let a = host.stat(context.node_id, ini_abs);
    assert(made(c0, host.calls@) =~= seq![HostCall::Stat(context.node_id, ini_abs@, a)]);
    assert(host.calls@.take(c0.len() as int) =~= c0);
    let bytes = match a {
        Err(h) => return Err(ApiError::from(h)),
        Ok(None) => Vec::new(),
        Ok(Some(_)) => {
            let ghost c1 = host.calls@;
            let d = host.download(context.node_id, ini_abs);
            assert(host.calls@.take(c0.len() as int) =~= c1.take(c0.len() as int));
            assert(made(c0, host.calls@) =~= seq![HostCall::Stat(context.node_id, ini_abs@, a), HostCall::Download(context.node_id, ini_abs@, d)]);
            assert(host.calls@.take(c0.len() as int) =~= c0);
            match d {
                Err(h) => return Err(ApiError::from(h)),
                Ok(b) => b,
            }
        },
    };
    let ghost c2 = host.calls@;
    assert(existing_ini(context.node_id, ini_abs@, made(c0, c2)) == Some((made(c0, c2).len(), Ok::<Seq<u8>, HostApiError>(bytes@))));
    let (replaced, out) = match edit::register_ini(dialect, bytes.as_slice(), file, line, enable, force) {
        Ok(x) => x,
        Err(e) => return Err(e),
    };
    let u = host.upload(context.node_id, ini_abs, out.as_slice(), super::INI_FILE_PERMISSIONS);
    proof {
        assert(host.calls@.take(c0.len() as int) =~= c2.take(c0.len() as int));
        assert(made(c0, host.calls@) =~= made(c0, c2).push(HostCall::Upload(context.node_id, ini_abs@, out@, 0o644u32, u)));
        assert(made(c0, host.calls@)[0] == made(c0, c2)[0]);
        if made(c0, c2).len() == 2 {
            assert(made(c0, host.calls@)[1] == made(c0, c2)[1]);
        }
    }
    match u {
        Err(h) => return Err(ApiError::from(h)),
        Ok(()) => {},
    }
    Ok(AddPluginResponse { file: file.to_owned(), enabled: enable, line: line.to_owned(), replaced })
}

/// Where an uploaded Metamod binary `file` lives (mod-relative, `path` when
/// given, else `addons/<stem>/<file>`) and the ini line that loads it.
pub fn metamod_target(file: &str, path: &Option<String>) -> (r: Result<(String, String), ApiError>)
    ensures
        match target_spec(file@, opt_chars(*path)) {
            Err((st, code, m)) => r matches Err(e) && ctx::is_error(e, st, code, m),
            Ok((rel, line)) => r matches Ok((a, b)) && a@ == rel && b@ == line,
        },
        match platform_keyword_spec(file@) {
            None => r matches Err(e) && ctx::is_error(e, 422, "INVALID_FILE_TYPE", "Metamod plugins must be .so or .dll binaries"@),
            Some(k) => match *path {
                Some(p) => match paths::rel_path_check(p@, text::byte_len(p@)) {
                    Err(m) => r matches Err(e) && ctx::is_error(e, 400, "INVALID_INPUT", m@),
                    Ok(()) => if !text::eq_ci(paths::file_name_spec(p@), file@) {
                        r matches Err(e) && ctx::is_error(e, 400, "INVALID_INPUT", "path must point at the uploaded file"@)
                    } else {
                        r matches Ok((rel, line)) && rel@ == p@ && line@ == k + " "@ + p@
                    },
                },
                None => r matches Ok((rel, line)) && rel@ == default_metamod_path(file@)
                    && line@ == k + " "@ + default_metamod_path(file@),
            },
        },
{
    let keyword = match platform_keyword(file) {
        Some(k) => k,
        None => return Err(ApiError::unprocessable("INVALID_FILE_TYPE", "Metamod plugins must be .so or .dll binaries")),
    };
    let rel = match path {
        Some(p) => {
            match paths::sanitize_rel_path(p.as_str()) {
                Ok(()) => {},
                Err(m) => return Err(ApiError::bad_request(m)),
            }
            if !text::eq_ignore_ascii_case(paths::file_name(p.as_str()), file) {
                return Err(ApiError::bad_request("path must point at the uploaded file"));
            }
            p.clone()
        },
        None => {
            let head = text::concat3("addons/", paths::file_stem(file), "/");
            text::concat2(head.as_str(), file)
        },
    };
    let line = text::concat3(keyword, " ", rel.as_str());
    Ok((rel, line))
}

} // verus!

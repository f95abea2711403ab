pub mod add;
pub mod attributes;
pub mod config_lookup;
pub mod ctx;
pub mod edit;
pub mod listing;
pub mod mod_folder;
pub mod remove;
pub mod rows;
pub mod state;
pub mod toggle;
pub mod trace;

use vstd::prelude::*;

use crate::goldsrc::{self, liblist, paths, Platform};
use crate::host_api::Recorded;
use crate::host_api::{HostApi, HostCall, HostApiError};
use crate::http::ApiError;
use crate::text;

use ctx::{appended, made, ServerCtx};

verus! {

const INI_FILE_PERMISSIONS: u32 = 0o644;

/// What reading liblist.gam at `path` on node `node` gave, from the calls `t`
/// that did it: how many calls it took and the liblist read (empty when the
/// file is missing), or the host error. `None` when `t` are not those calls.
pub open spec fn liblist_outcome(node: u64, path: Seq<char>, t: Seq<HostCall>) -> Option<(nat, Result<liblist::LiblistModel, HostApiError>)> {
    if t.len() == 0 {
        None
    } else {
        match t[0] {
            HostCall::Stat(n, p, a) => if n == node && p == path {
                match a {
                    Err(h) => Some((1nat, Err(h))),
                    Ok(None) => Some((1nat, Ok(liblist::LiblistModel { gamedll: None, gamedll_linux: None, gamedll_osx: None }))),
                    Ok(Some(_)) => if t.len() < 2 {
                        None
                    } else {
                        match t[1] {
                            HostCall::Download(n2, p2, a2) => if n2 == node && p2 == path {
                                match a2 {
                                    Err(h) => Some((2nat, Err(h))),
                                    Ok(b) => Some((2nat, Ok(liblist::liblist_spec(text::split_by(b@, 10u8))))),
                                }
                            } else {
                                None
                            },
                            _ => None,
                        }
                    },
                }
            } else {
                None
            },
            _ => None,
        }
    }
}

/// Where the mod's liblist.gam is.
pub open spec fn liblist_path(ctx: ServerCtx) -> Seq<char> {
    paths::join_spec(ctx.mod_abs@, "liblist.gam"@)
}

/// Reads liblist.gam of the mod; a missing file yields an empty Liblist.
fn read_liblist<H: HostApi>(host: &mut Recorded<H>, ctx: &ServerCtx) -> (r: Result<liblist::Liblist, ApiError>)
    ensures
    final(host).errors@ == old(host).errors@,
        appended(old(host).calls@, final(host).calls@),
        crate::host_api::extends_reading(old(host).calls@, final(host).calls@),
        match liblist_outcome(ctx.node_id, liblist_path(*ctx), made(old(host).calls@, final(host).calls@)) {
            Some((k, o)) => k == made(old(host).calls@, final(host).calls@).len() && match o {
                Ok(l) => r matches Ok(x) && x@ == l,
                Err(h) => r == Err::<liblist::Liblist, ApiError>(crate::http::host_error_spec(h)),
            },
            None => false,
        },
{
    let ghost c0 = host.calls@;
    proof { crate::host_api::lemma_extends_reading_refl(c0); }
    let liblist_abs = paths::join(ctx.mod_abs.as_str(), "liblist.gam");
    let a = host.stat(ctx.node_id, liblist_abs.as_str());
    let ghost c1 = host.calls@;
    proof {
        crate::host_api::lemma_extends_reading_push(c0, c0, HostCall::Stat(ctx.node_id, liblist_abs@, a));
        assert(made(c0, c1) =~= seq![HostCall::Stat(ctx.node_id, liblist_abs@, a)]);
    }
    match a {
        Err(h) => return Err(ApiError::from(h)),
        Ok(None) => return Ok(liblist::Liblist::default()),
        Ok(Some(_)) => {},
    }
    let d = host.download(ctx.node_id, liblist_abs.as_str());
    proof {
        crate::host_api::lemma_extends_reading_push(c0, c1, HostCall::Download(ctx.node_id, liblist_abs@, d));
        assert(made(c0, host.calls@) =~= seq![HostCall::Stat(ctx.node_id, liblist_abs@, a), HostCall::Download(ctx.node_id, liblist_abs@, d)]);
    }
    match d {
        Err(h) => Err(ApiError::from(h)),
        Ok(bytes) => Ok(liblist::parse(bytes.as_slice())),
    }
}

/// The metamod addons directory the liblist points at, else the default one.
pub open spec fn metamod_dir_spec(l: liblist::LiblistModel) -> (Seq<char>, bool) {
    match liblist::first_metamod_dir(seq![l.gamedll_linux, l.gamedll, l.gamedll_osx]) {
        Some(d) => (d, true),
        None => ("addons/metamod"@, false),
    }
}

/// Metamod addons dir (mod-relative) and whether liblist actually points at it.
fn metamod_dir(liblist: &liblist::Liblist) -> (r: (String, bool))
    ensures
        (r.0@, r.1) == metamod_dir_spec(liblist@),
{
    match liblist::metamod_dir_from(liblist) {
        Some(dir) => (dir, true),
        None => (goldsrc::METAMOD_DIR_DEFAULT.to_owned(), false),
    }
}

/// plugins.ini location (mod-relative) for a platform.
pub open spec fn platform_ini_spec(platform: Platform, metamod_dir: Seq<char>) -> Seq<char> {
    match platform {
        Platform::Metamod => paths::join_spec(metamod_dir, "plugins.ini"@),
        Platform::Amxx => "addons/amxmodx/configs/plugins.ini"@,
    }
}

fn platform_ini_rel(platform: Platform, metamod_dir: &str) -> (r: String)
    ensures
        r@ == platform_ini_spec(platform, metamod_dir@),
{
    match platform {
        Platform::Metamod => paths::join(metamod_dir, "plugins.ini"),
        Platform::Amxx => goldsrc::AMXX_PLUGINS_INI.to_owned(),
    }
}

/// The message refusing an edit when the platform's plugins.ini is missing.
pub open spec fn ini_missing_message(platform: Platform) -> Seq<char> {
    "plugins.ini not found \u{2014} is "@ + (match platform {
        Platform::Metamod => "Metamod"@,
        Platform::Amxx => "AMX Mod X"@,
    }) + " installed?"@
}

/// The absolute plugins.ini path of a platform, given the mod's liblist.
pub open spec fn ini_path(ctx: ServerCtx, platform: Platform, l: liblist::LiblistModel) -> Seq<char> {
    paths::join_spec(ctx.mod_abs@, platform_ini_spec(platform, metamod_dir_spec(l).0))
}

/// What `require_platform_ini` returns, given the calls `t` it made: read
/// liblist.gam, then check that the platform's plugins.ini exists.
pub open spec fn require_ini_spec(ctx: ServerCtx, platform: Platform, t: Seq<HostCall>, r: Result<String, ApiError>) -> bool {
    match liblist_outcome(ctx.node_id, liblist_path(ctx), t) {
        Some((k, Err(h))) => t.len() == k && r == Err::<String, ApiError>(crate::http::host_error_spec(h)),
        Some((k, Ok(l))) => t.len() == k + 1 && match t[k as int] {
            HostCall::Stat(n, p, a) => n == ctx.node_id && p == ini_path(ctx, platform, l) && match a {
                Err(h) => r == Err::<String, ApiError>(crate::http::host_error_spec(h)),
                Ok(None) => r matches Err(e) && ctx::is_error(e, 404, "PLUGINS_INI_NOT_FOUND", ini_missing_message(platform)),
                Ok(Some(_)) => r matches Ok(q) && q@ == p,
            },
            _ => false,
        },
        None => false,
    }
}

/// Resolves the plugins.ini absolute path for mutations; 404 when the file
/// does not exist (platform not installed).
fn require_platform_ini<H: HostApi>(host: &mut Recorded<H>, ctx: &ServerCtx, platform: Platform) -> (r: Result<String, ApiError>)
    ensures
    final(host).errors@ == old(host).errors@,
        appended(old(host).calls@, final(host).calls@),
        crate::host_api::extends_reading(old(host).calls@, final(host).calls@),
        require_ini_spec(*ctx, platform, made(old(host).calls@, final(host).calls@), r),
{
    let ghost c0 = host.calls@;
    let liblist = read_liblist(host, ctx)?;
    let ghost c1 = host.calls@;
    let (mm_dir, _) = metamod_dir(&liblist);
    let ini_rel = platform_ini_rel(platform, mm_dir.as_str());
    let ini_abs = paths::join(ctx.mod_abs.as_str(), ini_rel.as_str());
    let a = host.stat(ctx.node_id, ini_abs.as_str());
    proof {
        crate::host_api::lemma_extends_reading_push(c0, c1, HostCall::Stat(ctx.node_id, ini_abs@, a));
        assert(host.calls@.take(c1.len() as int) =~= c1);
        ctx::lemma_made_concat(c0, c1, host.calls@);
        assert(made(c1, host.calls@) =~= seq![HostCall::Stat(ctx.node_id, ini_abs@, a)]);
        let t = made(c0, host.calls@);
        assert(t.take(made(c0, c1).len() as int) =~= made(c0, c1));
        lemma_liblist_outcome_prefix(ctx.node_id, liblist_path(*ctx), made(c0, c1), t);
        assert(t[made(c0, c1).len() as int] == HostCall::Stat(ctx.node_id, ini_abs@, a));
    }
    match a {
        Err(h) => Err(ApiError::from(h)),
        Ok(None) => {
            let name = match platform {
                Platform::Metamod => "Metamod",
                Platform::Amxx => "AMX Mod X",
            };
            let message = text::concat3("plugins.ini not found \u{2014} is ", name, " installed?");
            Err(ApiError::not_found("PLUGINS_INI_NOT_FOUND", message.as_str()))
        },
        Ok(Some(_)) => Ok(ini_abs),
    }
}

/// The steps every editing route starts with: resolve the server, read the
/// platform from the route, take the decoded request `body` (whose entry key
/// is `key`) and check that key.
fn accept_request<H: HostApi, B>(host: &mut Recorded<H>, params: &Vec<(String, String)>, body: Result<B, ApiError>, key: &str) -> (r: Result<(ServerCtx, Platform, B), ApiError>)
    ensures
    final(host).errors@ == old(host).errors@,
        appended(old(host).calls@, final(host).calls@),
        crate::host_api::extends_reading(old(host).calls@, final(host).calls@),
        trace::accepted(params@, trace::body_key(body, key@), made(old(host).calls@, final(host).calls@), match r {
            Ok((c, p, _)) => Ok::<(ServerCtx, Platform), ApiError>((c, p)),
            Err(e) => Err::<(ServerCtx, Platform), ApiError>(e),
        }),
        r matches Ok((c, p, b)) ==> body == Ok::<B, ApiError>(b),
{
    let context = match ServerCtx::resolve(host, params) {
        Ok(c) => c,
        Err(e) => return Err(e),
    };
    let platform = match ctx::parse_platform(params) {
        Ok(p) => p,
        Err(e) => return Err(e),
    };
    let request = match body {
        Ok(b) => b,
        Err(e) => return Err(e),
    };
    match ctx::check_entry_key(platform, key) {
        Ok(()) => {},
        Err(e) => return Err(e),
    }
    Ok((context, platform, request))
}

/// Locates the platform's plugins.ini, then downloads it.
fn fetch_ini<H: HostApi>(host: &mut Recorded<H>, ctx: &ServerCtx, platform: Platform) -> (r: Result<(String, Vec<u8>), ApiError>)
    ensures
    final(host).errors@ == old(host).errors@,
        appended(old(host).calls@, final(host).calls@),
        crate::host_api::extends_reading(old(host).calls@, final(host).calls@),
        made(old(host).calls@, final(host).calls@).len() > 0,
        r matches Ok((q, b)) ==> {
            &&& require_ini_spec(*ctx, platform, made(old(host).calls@, final(host).calls@).drop_last(), Ok::<String, ApiError>(q))
            &&& trace::downloaded(made(old(host).calls@, final(host).calls@).last()) == Some((ctx.node_id, q@, b@))
        },
        r matches Err(e) ==> trace::fetch_failed(*ctx, platform, made(old(host).calls@, final(host).calls@), e),
{
    let ghost c0 = host.calls@;
    let ini_abs = match require_platform_ini(host, ctx, platform) {
        Ok(q) => q,
        Err(e) => return Err(e),
    };
    let ghost c1 = host.calls@;
    let d = host.download(ctx.node_id, ini_abs.as_str());
    proof {
        crate::host_api::lemma_extends_reading_push(c0, c1, HostCall::Download(ctx.node_id, ini_abs@, d));
        assert(host.calls@.take(c0.len() as int) =~= c1.take(c0.len() as int));
        assert(made(c0, host.calls@) =~= made(c0, c1).push(HostCall::Download(ctx.node_id, ini_abs@, d)));
        assert(made(c0, host.calls@).drop_last() =~= made(c0, c1));
    }
    match d {
        Ok(b) => Ok((ini_abs, b)),
        Err(h) => Err(ApiError::from(h)),
    }
}

/// Calls after a whole liblist read do not change what the read gave.
proof fn lemma_liblist_outcome_prefix(node: u64, path: Seq<char>, u: Seq<HostCall>, t: Seq<HostCall>)
    requires
        u.len() <= t.len(),
        t.take(u.len() as int) == u,
        liblist_outcome(node, path, u) matches Some((k, _)) && k == u.len(),
    ensures
        liblist_outcome(node, path, t) == liblist_outcome(node, path, u),
{
    assert(t[0] == u[0]);
    if u.len() >= 2 {
        assert(t[1] == u[1]);
    }
}

} // verus!

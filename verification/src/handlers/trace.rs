//! The shape of what a mutating route asks the node: the calls that locate
//! the server and its `plugins.ini`, the download, and the upload (and, for
//! removal, the deletion) that follow.

use vstd::prelude::*;

use crate::goldsrc::{self, Platform};
use crate::goldsrc::ini::Dialect;
use crate::handlers::ctx::{self, appended, made, ServerCtx};
use crate::handlers::{liblist_path, require_ini_spec};
use crate::host_api::HostCall;
use crate::http::ApiError;

verus! {

/// The node, path and bytes of a successful download.
pub open spec fn downloaded(c: HostCall) -> Option<(u64, Seq<char>, Seq<u8>)> {
    match c {
        HostCall::Download(n, p, a) => match a {
            Ok(b) => Some((n, p, b@)),
            Err(_) => None,
        },
        _ => None,
    }
}

/// A successful upload of `content` to `path` on `node`, with the permissions
/// of a plugins.ini.
pub open spec fn uploaded(c: HostCall, node: u64, path: Seq<char>, content: Seq<u8>) -> bool {
    c matches HostCall::Upload(n, p, b, perm, a) && n == node && p == path && b == content && perm == 0o644u32 && a is Ok
}

/// The calls `u` resolved server `id` and found its platform's plugins.ini
/// at `path` on `node`.
pub open spec fn located(id: u64, platform: Platform, u: Seq<HostCall>, node: u64, path: Seq<char>) -> bool {
    exists|k: int, c: ServerCtx, q: String|
        #![trigger ctx::resolve_spec(id, u.take(k), Ok::<ServerCtx, ApiError>(c)), require_ini_spec(c, platform, u.skip(k), Ok::<String, ApiError>(q))]
        0 <= k <= u.len() && ctx::resolve_spec(id, u.take(k), Ok::<ServerCtx, ApiError>(c)) && c.node_id == node
            && require_ini_spec(c, platform, u.skip(k), Ok::<String, ApiError>(q)) && q@ == path
}

/// The calls `t` are those of `located` followed by the download of the ini;
/// gives the node, path and bytes read.
pub open spec fn read_ini(id: u64, platform: Platform, t: Seq<HostCall>, j: int) -> Option<(u64, Seq<char>, Seq<u8>)> {
    if 0 <= j < t.len() {
        match downloaded(t[j]) {
            Some((n, p, b)) => if located(id, platform, t.take(j), n, p) { Some((n, p, b)) } else { None },
            None => None,
        }
    } else {
        None
    }
}

/// `e` refuses an entry key: an invalid file key, or the loader entry of
/// Metamod.
pub open spec fn key_refusal(platform: Platform, file: Seq<char>, e: ApiError) -> bool {
    match ctx::file_key_check(file) {
        Err(m) => ctx::is_error(e, 400, "INVALID_INPUT", m@),
        Ok(()) => platform == Platform::Metamod && goldsrc::is_amxx_loader_spec(file)
            && ctx::is_error(e, 422, "SYSTEM_ENTRY", "the AMX Mod X loader entry is managed by the platform"@),
    }
}

pub open spec fn key_ok(platform: Platform, file: Seq<char>) -> bool {
    ctx::file_key_check(file) is Ok && !(platform == Platform::Metamod && goldsrc::is_amxx_loader_spec(file))
}

/// What the first steps of an editing route give, for the route parameters,
/// the requested entry key (or why the request gave none) and the calls `t`
/// they made: an invalid server id, or the server resolved; then an unknown
/// platform, the request's own refusal, a refused key, or the server and
/// platform to work on.
pub open spec fn accepted(params: Seq<(String, String)>, key: Result<Seq<char>, ApiError>, t: Seq<HostCall>, r: Result<(ServerCtx, Platform), ApiError>) -> bool {
    match ctx::server_id_spec(params) {
        None => t.len() == 0 && (r matches Err(e) && ctx::is_error(e, 400, "INVALID_INPUT", "invalid server id"@)),
        Some(id) => {
            ||| (r matches Err(e) && ctx::resolve_spec(id, t, Err::<ServerCtx, ApiError>(e)))
            ||| exists|c: ServerCtx| #[trigger] ctx::resolve_spec(id, t, Ok::<ServerCtx, ApiError>(c)) && match ctx::platform_spec(params) {
                None => r matches Err(e) && ctx::is_error(e, 404, "NOT_FOUND", "unknown platform"@),
                Some(p) => match key {
                    Err(e) => r == Err::<(ServerCtx, Platform), ApiError>(e),
                    Ok(f) => if key_ok(p, f) {
                        r == Ok::<(ServerCtx, Platform), ApiError>((c, p))
                    } else {
                        r matches Err(e) && key_refusal(p, f, e)
                    },
                },
            }
        },
    }
}

/// Locating or downloading the platform's plugins.ini of the server `c`
/// failed with `e`, given the calls `u` that tried: the ini is missing or
/// the node failed while looking for it, or its download failed.
pub open spec fn fetch_failed(c: ServerCtx, platform: Platform, u: Seq<HostCall>, e: ApiError) -> bool {
    ||| require_ini_spec(c, platform, u, Err::<String, ApiError>(e))
    ||| (u.len() > 0 && exists|q: String| #[trigger] require_ini_spec(c, platform, u.drop_last(), Ok::<String, ApiError>(q))
        && (u.last() matches HostCall::Download(n, p, a) && n == c.node_id && p == q@
            && (a matches Err(h) && e == crate::http::host_error_spec(h))))
}

/// `e` is a refusal before the ini was read, given the requested entry key
/// (or why the request gave none) and the calls `t`: the first steps
/// refused, or, once they accepted, the ini could not be located or read.
pub open spec fn refused_early(params: Seq<(String, String)>, key: Result<Seq<char>, ApiError>, t: Seq<HostCall>, e: ApiError) -> bool {
    ||| accepted(params, key, t, Err::<(ServerCtx, Platform), ApiError>(e))
    ||| (ctx::platform_spec(params) matches Some(p) && exists|k: int, c: ServerCtx|
        #![trigger accepted(params, key, t.take(k), Ok::<(ServerCtx, Platform), ApiError>((c, p)))]
        0 <= k <= t.len() && accepted(params, key, t.take(k), Ok::<(ServerCtx, Platform), ApiError>((c, p)))
            && fetch_failed(c, p, t.skip(k), e))
}

/// The call `c` uploaded `content` to `path` on `node`, with the permissions
/// of a plugins.ini, and failed; `e` is the reply to that failure.
pub open spec fn upload_failed(c: HostCall, node: u64, path: Seq<char>, content: Seq<u8>, e: ApiError) -> bool {
    c matches HostCall::Upload(n, p, b, perm, a) && n == node && p == path && b == content && perm == 0o644u32
        && (a matches Err(h) && e == crate::http::host_error_spec(h))
}

/// The requested key of a body that decoded into `body`, its key being `key`.
pub open spec fn body_key<B>(body: Result<B, ApiError>, key: Seq<char>) -> Result<Seq<char>, ApiError> {
    match body {
        Ok(_) => Ok(key),
        Err(e) => Err(e),
    }
}

/// The ini dialect of a platform.
pub open spec fn dialect_of(p: Platform) -> Dialect {
    match p {
        Platform::Metamod => Dialect::Metamod,
        Platform::Amxx => Dialect::Amxx,
    }
}

/// The last call of a nonempty tail is the last call of the whole.
pub proof fn lemma_last_of_tail(c0: Seq<HostCall>, c1: Seq<HostCall>, c2: Seq<HostCall>)
    requires
        appended(c0, c1),
        appended(c1, c2),
        made(c1, c2).len() > 0,
    ensures
        made(c0, c2).len() > 0,
        made(c0, c2).last() == made(c1, c2).last(),
{
    ctx::lemma_made_concat(c0, c1, c2);
}

/// Resolving the server, then locating and downloading its ini, read it.
pub proof fn lemma_opened(id: u64, platform: Platform, c0: Seq<HostCall>, c1: Seq<HostCall>, c2: Seq<HostCall>, c: ServerCtx, q: String, b: Seq<u8>)
    requires
        appended(c0, c1),
        appended(c1, c2),
        ctx::resolve_spec(id, made(c0, c1), Ok::<ServerCtx, ApiError>(c)),
        made(c1, c2).len() > 0,
        require_ini_spec(c, platform, made(c1, c2).drop_last(), Ok::<String, ApiError>(q)),
        downloaded(made(c1, c2).last()) == Some((c.node_id, q@, b)),
    ensures
        appended(c0, c2),
        made(c0, c2).len() > 0,
        read_ini(id, platform, made(c0, c2), made(c0, c2).len() - 1) == Some((c.node_id, q@, b)),
{
    ctx::lemma_made_concat(c0, c1, c2);
    let t = made(c0, c2);
    let j = t.len() - 1;
    let k = made(c0, c1).len() as int;
    let u = t.take(j);
    assert(u.take(k) =~= made(c0, c1));
    assert(u.skip(k) =~= made(c1, c2).drop_last());
    assert(t[j] == made(c1, c2).last());
    assert(located(id, platform, u, c.node_id, q@));
}

/// A failure while locating or downloading the ini, after the first steps
/// accepted the request, is an early refusal.
pub proof fn lemma_fetch_err(params: Seq<(String, String)>, key: Result<Seq<char>, ApiError>, p: Platform, c: ServerCtx, c0: Seq<HostCall>, c1: Seq<HostCall>, c2: Seq<HostCall>, e: ApiError)
    requires
        appended(c0, c1),
        appended(c1, c2),
        ctx::platform_spec(params) == Some(p),
        accepted(params, key, made(c0, c1), Ok::<(ServerCtx, Platform), ApiError>((c, p))),
        fetch_failed(c, p, made(c1, c2), e),
    ensures
        appended(c0, c2),
        refused_early(params, key, made(c0, c2), e),
{
    ctx::lemma_made_concat(c0, c1, c2);
    let t = made(c0, c2);
    let k = made(c0, c1).len() as int;
    assert(t.take(k) =~= made(c0, c1));
    assert(t.skip(k) =~= made(c1, c2));
    assert(accepted(params, key, t.take(k), Ok::<(ServerCtx, Platform), ApiError>((c, p))));
}

/// Calls made after a read do not change what it read.
pub proof fn lemma_read_ini_prefix(id: u64, platform: Platform, t: Seq<HostCall>, u: Seq<HostCall>, j: int)
    requires
        t.len() <= u.len(),
        u.take(t.len() as int) == t,
        0 <= j < t.len(),
    ensures
        read_ini(id, platform, u, j) == read_ini(id, platform, t, j),
{
    assert(u[j] == u.take(t.len() as int)[j]);
    assert(u.take(j) =~= t.take(j));
}

/// The calls `t` resolved server `id` to `c`, found the platform's
/// plugins.ini at `q` and downloaded the bytes `b` from it.
pub open spec fn opens(id: u64, platform: Platform, t: Seq<HostCall>, c: ServerCtx, q: String, b: Seq<u8>) -> bool {
    &&& t.len() > 0
    &&& exists|k: int|
        #![trigger ctx::resolve_spec(id, t.take(k), Ok::<ServerCtx, ApiError>(c))]
        0 <= k < t.len() && ctx::resolve_spec(id, t.take(k), Ok::<ServerCtx, ApiError>(c))
            && require_ini_spec(c, platform, t.subrange(k, t.len() - 1), Ok::<String, ApiError>(q))
    &&& downloaded(t.last()) == Some((c.node_id, q@, b))
}

/// Resolving the server, then locating and downloading its ini, opens it.
pub proof fn lemma_opens(id: u64, platform: Platform, c0: Seq<HostCall>, c1: Seq<HostCall>, c2: Seq<HostCall>, c: ServerCtx, q: String, b: Seq<u8>)
    requires
        appended(c0, c1),
        appended(c1, c2),
        ctx::resolve_spec(id, made(c0, c1), Ok::<ServerCtx, ApiError>(c)),
        made(c1, c2).len() > 0,
        require_ini_spec(c, platform, made(c1, c2).drop_last(), Ok::<String, ApiError>(q)),
        downloaded(made(c1, c2).last()) == Some((c.node_id, q@, b)),
    ensures
        appended(c0, c2),
        opens(id, platform, made(c0, c2), c, q, b),
{
    ctx::lemma_made_concat(c0, c1, c2);
    let t = made(c0, c2);
    let k = made(c0, c1).len() as int;
    assert(t.take(k) =~= made(c0, c1));
    assert(t.subrange(k, t.len() - 1) =~= made(c1, c2).drop_last());
    assert(t.last() == made(c1, c2).last());
}

} // verus!

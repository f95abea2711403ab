//! DELETE /servers/{id}/{platform}/plugins — drop the ini entry and the file.

use vstd::prelude::*;

use crate::goldsrc::{paths, Platform};
use crate::handlers::ctx::{self, ServerCtx};
use crate::host_api::Recorded;
use crate::host_api::{HostApi, HostApiError, HostCall};
use crate::handlers::ctx::{appended, made};
use crate::handlers::{edit, trace};
use crate::http::ApiError;
use crate::model::{RemovePluginRequest, RemovePluginResponse};
use crate::text;

verus! {

/// The file a removal names: from the JSON body, or (bodies being dropped by
/// some proxies) from the `?file=` query parameter when the body is empty.
pub open spec fn requested_file(
    body_empty: bool,
    body: Result<RemovePluginRequest, ApiError>,
    query_file: Option<String>,
) -> Option<Seq<char>> {
    if body_empty {
        match query_file {
            Some(f) => Some(f@),
            None => None,
        }
    } else {
        match body {
            Ok(req) => Some(req.file@),
            Err(_) => None,
        }
    }
}

/// The text the derived `Debug` gives for a host error.
pub open spec fn host_error_text(err: HostApiError) -> Seq<char> {
    match err {
        HostApiError::Call(m) => "Call("@ + text::debug_text(m@) + ")"@,
        HostApiError::Op(m) => "Op("@ + text::debug_text(m@) + ")"@,
    }
}

/// What a removal logs, given the calls `t` it made and its reply `r`: when
/// the plugin file could not be deleted, one error naming the file and the
/// node's error; nothing otherwise.
pub open spec fn removal_log(t: Seq<HostCall>, r: Result<RemovePluginResponse, ApiError>) -> Seq<Seq<char>> {
    if r matches Ok(resp) && !resp.file_deleted && t.len() > 0 {
        match t.last() {
            HostCall::Remove(_, path, _, Err(h)) => seq!["goldsrc-addons: failed to delete "@ + path + ": "@ + host_error_text(h)],
            _ => Seq::empty(),
        }
    } else {
        Seq::empty()
    }
}

fn describe_host_error(err: &HostApiError) -> (r: String)
    ensures
        r@ == host_error_text(*err),
{
    match err {
        HostApiError::Call(m) => {
            let inner = text::debug_str(m.as_str());
            text::concat3("Call(", inner.as_str(), ")")
        },
        HostApiError::Op(m) => {
            let inner = text::debug_str(m.as_str());
            text::concat3("Op(", inner.as_str(), ")")
        },
    }
}

/// The entry key a removal asks for, or why the request gave none; `None`
/// when the body was empty and no `?file=` was given.
pub open spec fn requested_key(
    body_empty: bool,
    body: Result<RemovePluginRequest, ApiError>,
    query_file: Option<String>,
) -> Option<Result<Seq<char>, ApiError>> {
    if body_empty {
        match query_file {
            Some(f) => Some(Ok(f@)),
            None => None,
        }
    } else {
        match body {
            Ok(req) => Some(Ok(req.file@)),
            Err(e) => Some(Err(e)),
        }
    }
}

/// The refusal of a removal that names no file.
pub open spec fn missing_file(e: ApiError) -> bool {
    ctx::is_error(e, 400, "INVALID_INPUT", "file is required (body or ?file=)"@)
}

/// A removal answered `resp`, given the calls `t` it made: the key passed,
/// the ini was located and read, its entry's line was dropped and the result
/// uploaded to the same path, then the entry's plugin file (never recursively)
/// was deleted, and `file_deleted` tells whether that succeeded.
pub open spec fn removed(
    params: Seq<(String, String)>,
    body_empty: bool,
    body: Result<RemovePluginRequest, ApiError>,
    query_file: Option<String>,
    t: Seq<HostCall>,
    resp: RemovePluginResponse,
) -> bool {
    &&& ctx::server_id_spec(params) is Some
    &&& ctx::platform_spec(params) is Some
    &&& requested_file(body_empty, body, query_file) == Some(resp.file@)
    &&& resp.entry_removed
    &&& t.len() >= 3
    &&& {
        let id = ctx::server_id_spec(params).unwrap();
        let p = ctx::platform_spec(params).unwrap();
        &&& trace::key_ok(p, resp.file@)
        &&& exists|c: ServerCtx, q: String, b: Seq<u8>|
            #[trigger] trace::opens(id, p, t.take(t.len() - 2), c, q, b) && {
                &&& edit::remove_spec(trace::dialect_of(p), b, resp.file@) is Some
                &&& {
                    let (target, out) = edit::remove_spec(trace::dialect_of(p), b, resp.file@).unwrap();
                    &&& trace::uploaded(t[t.len() - 2], c.node_id, q@, out)
                    &&& t.last() matches HostCall::Remove(nd, path, rec, a)
                    &&& nd == c.node_id && path == paths::join_spec(c.mod_abs@, target) && !rec
                    &&& resp.file_deleted == (a is Ok)
                }
            }
    }
}

/// Why a removal was refused with `e`, given the calls `t` it made: an early
/// refusal (no file named being refused once the server and platform were
/// known), no entry of the ini answers to the key, or the upload of the
/// edited ini failed.
pub open spec fn remove_refused(
    params: Seq<(String, String)>,
    body_empty: bool,
    body: Result<RemovePluginRequest, ApiError>,
    query_file: Option<String>,
    t: Seq<HostCall>,
    e: ApiError,
) -> bool {
    ||| (requested_key(body_empty, body, query_file) matches Some(k) && trace::refused_early(params, k, t, e))
    ||| (requested_key(body_empty, body, query_file) is None
        && exists|m: ApiError| #[trigger] missing_file(m)
            && trace::accepted(params, Err::<Seq<char>, ApiError>(m), t, Err::<(ServerCtx, Platform), ApiError>(e)))
    ||| {
        &&& ctx::server_id_spec(params) is Some
        &&& ctx::platform_spec(params) is Some
        &&& requested_file(body_empty, body, query_file) is Some
        &&& {
            let id = ctx::server_id_spec(params).unwrap();
            let p = ctx::platform_spec(params).unwrap();
            let f = requested_file(body_empty, body, query_file).unwrap();
            &&& exists|c: ServerCtx, q: String, b: Seq<u8>|
                #[trigger] trace::opens(id, p, t, c, q, b) && edit::remove_spec(trace::dialect_of(p), b, f) is None
            &&& edit::not_registered(e, f)
        }
    }
    ||| {
        &&& ctx::server_id_spec(params) is Some
        &&& ctx::platform_spec(params) is Some
        &&& requested_file(body_empty, body, query_file) is Some
        &&& t.len() >= 2
        &&& {
            let id = ctx::server_id_spec(params).unwrap();
            let p = ctx::platform_spec(params).unwrap();
            let f = requested_file(body_empty, body, query_file).unwrap();
            exists|c: ServerCtx, q: String, b: Seq<u8>|
                #[trigger] trace::opens(id, p, t.take(t.len() - 1), c, q, b)
                && (edit::remove_spec(trace::dialect_of(p), b, f) matches Some((_, out))
                    && trace::upload_failed(t.last(), c.node_id, q@, out, e))
        }
    }
}

/// `body_empty` tells whether the request had no body; `body` is its decoding
/// otherwise, and `query_file` the first `file` query value.
pub fn handle<H: HostApi>(
    host: &mut Recorded<H>,
    params: &Vec<(String, String)>,
    body_empty: bool,
    body: Result<RemovePluginRequest, ApiError>,
    query_file: Option<String>,
) -> (r: Result<RemovePluginResponse, ApiError>)
    ensures
        appended(old(host).calls@, final(host).calls@),
        ctx::server_id_spec(params@) is None ==> made(old(host).calls@, final(host).calls@).len() == 0
            && (r matches Err(e) && ctx::is_error(e, 400, "INVALID_INPUT", "invalid server id"@)),
        r matches Ok(resp) ==> removed(params@, body_empty, body, query_file, made(old(host).calls@, final(host).calls@), resp),
        r matches Err(e) ==> remove_refused(params@, body_empty, body, query_file, made(old(host).calls@, final(host).calls@), e),
        final(host).errors@ == old(host).errors@ + removal_log(made(old(host).calls@, final(host).calls@), r),
{
    let ghost c0 = host.calls@;
    let ghost e0 = host.errors@;
    let ghost rk = requested_key(body_empty, body, query_file);
    let ghost rf = requested_file(body_empty, body, query_file);
    let requested: Result<String, ApiError> = if body_empty {
        match query_file {
            Some(f) => Ok(f),
            None => Err(ApiError::bad_request("file is required (body or ?file=)")),
        }
    } else {
        match body {
            Ok(req) => Ok(req.file),
            Err(e) => Err(e),
        }
    };
    let key = match &requested {
        Ok(f) => f.clone(),
        Err(_) => String::new(),
    };
    proof {
        match rk {
            Some(k) => { assert(trace::body_key(requested, key@) == k); },
            None => { assert(missing_file(requested->Err_0)); },
        }
    }
    let (context, platform, file) = match super::accept_request(host, params, requested, key.as_str()) {
        Ok(x) => x,
        Err(e) => return Err(e),
    };
    let ghost c1 = host.calls@;
    let ghost id = ctx::server_id_spec(params@).unwrap();
    proof { assert(rf == Some(file@)); }
    let (ini_abs, bytes) = match super::fetch_ini(host, &context, platform) {
        Ok(x) => x,
        Err(e) => {
            proof { trace::lemma_fetch_err(params@, rk.unwrap(), platform, context, c0, c1, host.calls@, e); }
            return Err(e);
        },
    };
    let ghost c2 = host.calls@;
    proof {
        trace::lemma_opens(id, platform, c0, c1, c2, context, ini_abs, bytes@);
    }
    let (target_rel, out) = match edit::remove_ini(platform.dialect(), bytes.as_slice(), file.as_str()) {
        Ok(x) => x,
        Err(e) => return Err(e),
    };
    let u = host.upload(context.node_id, ini_abs.as_str(), out.as_slice(), super::INI_FILE_PERMISSIONS);
    let ghost c3 = host.calls@;
    proof {
        assert(c3.take(c0.len() as int) =~= c2.take(c0.len() as int));
        assert(made(c0, c3) =~= made(c0, c2).push(HostCall::Upload(context.node_id, ini_abs@, out@, 0o644u32, u)));
        assert(made(c0, c3).take(made(c0, c3).len() - 1) =~= made(c0, c2));
    }
    match u {
        Ok(()) => {},
        Err(h) => return Err(ApiError::from(h)),
    }
    let target_abs = paths::join(context.mod_abs.as_str(), target_rel.as_str());
    // Keep configs and the plugin directory; a failed file delete (already
    // gone, custom layout) degrades to file_deleted=false.
    let d = host.remove(context.node_id, target_abs.as_str(), false);
    let ghost c4 = host.calls@;
    proof {
        assert(c4.take(c0.len() as int) =~= c3.take(c0.len() as int));
        assert(made(c0, c4) =~= made(c0, c3).push(HostCall::Remove(context.node_id, target_abs@, false, d)));
        assert(made(c0, c4).take(made(c0, c4).len() - 2) =~= made(c0, c2));
    }
    let ghost mut logged: Seq<Seq<char>> = Seq::empty();
    let file_deleted = match d {
        Ok(()) => true,
        Err(err) => {
            let what = describe_host_error(&err);
            let head = text::concat3("goldsrc-addons: failed to delete ", target_abs.as_str(), ": ");
            let message = text::concat2(head.as_str(), what.as_str());
            host.log_error(message.as_str());
            proof {
                assert(message@ == "goldsrc-addons: failed to delete "@ + target_abs@ + ": "@ + host_error_text(err));
                logged = seq![message@];
            }
            false
        },
    };
    let resp = RemovePluginResponse { file, entry_removed: true, file_deleted };
    proof {
        let t = made(c0, host.calls@);
        assert(t == made(c0, c4));
        assert(t.last() == HostCall::Remove(context.node_id, target_abs@, false, d));
        assert(removal_log(t, Ok::<RemovePluginResponse, ApiError>(resp)) == logged);
        assert(host.errors@ =~= e0 + logged);
    }
    Ok(resp)
}

} // verus!

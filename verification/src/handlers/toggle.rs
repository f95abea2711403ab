//! POST /servers/{id}/{platform}/plugins/toggle — comment/uncomment an entry.

use vstd::prelude::*;

use crate::handlers::ctx;
use crate::host_api::Recorded;
use crate::host_api::{HostApi, HostCall};
use crate::handlers::ctx::{appended, made};
use crate::handlers::{edit, trace};
use crate::http::ApiError;
use crate::model::{ToggleRequest, ToggleResponse};

verus! {

/// A toggle answered `resp`, given the calls `t` it made: the request's entry
/// key passed, the ini was located and read, and either its line changed and
/// the edited bytes were uploaded to the same path, or nothing changed and
/// nothing was written.
pub open spec fn toggled(params: Seq<(String, String)>, body: Result<ToggleRequest, ApiError>, t: Seq<HostCall>, resp: ToggleResponse) -> bool {
    &&& ctx::server_id_spec(params) is Some
    &&& ctx::platform_spec(params) is Some
    &&& body is Ok
    &&& {
        let id = ctx::server_id_spec(params).unwrap();
        let p = ctx::platform_spec(params).unwrap();
        let req = body.unwrap();
        &&& resp.file@ == req.file@
        &&& resp.enabled == req.enabled
        &&& trace::key_ok(p, req.file@)
        &&& if resp.changed {
            &&& t.len() >= 2
            &&& trace::read_ini(id, p, t, t.len() - 2) is Some
            &&& {
                let (n, path, b) = trace::read_ini(id, p, t, t.len() - 2).unwrap();
                &&& edit::toggle_spec(trace::dialect_of(p), b, req.file@, req.enabled) matches Some((c, out)) && c
                    && trace::uploaded(t.last(), n, path, out)
            }
        } else {
            &&& t.len() >= 1
            &&& trace::read_ini(id, p, t, t.len() - 1) is Some
            &&& edit::toggle_spec(trace::dialect_of(p), trace::read_ini(id, p, t, t.len() - 1).unwrap().2, req.file@, req.enabled)
                matches Some((c, _)) && !c
            &&& crate::host_api::extends_reading(Seq::empty(), t)
        }
    }
}

/// The entry key a toggle request asks for, or why it gave none.
pub open spec fn request_key(body: Result<ToggleRequest, ApiError>) -> Result<Seq<char>, ApiError> {
    match body {
        Ok(req) => Ok(req.file@),
        Err(e) => Err(e),
    }
}

/// Why a toggle was refused with `e`, given the calls `t` it made: an early
/// refusal, no entry of the ini answers to the key, or the upload of the
/// edited ini failed.
pub open spec fn toggle_refused(params: Seq<(String, String)>, body: Result<ToggleRequest, ApiError>, t: Seq<HostCall>, e: ApiError) -> bool {
    ||| trace::refused_early(params, request_key(body), t, e)
    ||| {
        &&& ctx::server_id_spec(params) is Some
        &&& ctx::platform_spec(params) is Some
        &&& body is Ok
        &&& t.len() >= 1
        &&& {
            let id = ctx::server_id_spec(params).unwrap();
            let p = ctx::platform_spec(params).unwrap();
            let req = body.unwrap();
            &&& trace::read_ini(id, p, t, t.len() - 1) is Some
            &&& edit::toggle_spec(trace::dialect_of(p), trace::read_ini(id, p, t, t.len() - 1).unwrap().2, req.file@, req.enabled) is None
            &&& edit::not_registered(e, req.file@)
        }
    }
    ||| {
        &&& ctx::server_id_spec(params) is Some
        &&& ctx::platform_spec(params) is Some
        &&& body is Ok
        &&& t.len() >= 2
        &&& {
            let id = ctx::server_id_spec(params).unwrap();
            let p = ctx::platform_spec(params).unwrap();
            let req = body.unwrap();
            &&& trace::read_ini(id, p, t, t.len() - 2) is Some
            &&& {
                let (n, path, b) = trace::read_ini(id, p, t, t.len() - 2).unwrap();
                &&& edit::toggle_spec(trace::dialect_of(p), b, req.file@, req.enabled) matches Some((c, out))
                &&& c && trace::upload_failed(t.last(), n, path, out, e)
            }
        }
    }
}

/// `body` is the request body as decoded by the caller (a decoding failure
/// is reported only after the route parameters were checked).
pub fn handle<H: HostApi>(host: &mut Recorded<H>, params: &Vec<(String, String)>, body: Result<ToggleRequest, ApiError>) -> (r: Result<ToggleResponse, ApiError>)
    ensures
        appended(old(host).calls@, final(host).calls@),
        ctx::server_id_spec(params@) is None ==> made(old(host).calls@, final(host).calls@).len() == 0
            && (r matches Err(e) && ctx::is_error(e, 400, "INVALID_INPUT", "invalid server id"@)),
        r matches Ok(resp) ==> toggled(params@, body, made(old(host).calls@, final(host).calls@), resp),
        r matches Err(e) ==> toggle_refused(params@, body, made(old(host).calls@, final(host).calls@), e),
{
    let ghost c0 = host.calls@;
    let key = match &body {
        Ok(req) => req.file.clone(),
        Err(_) => String::new(),
    };
    proof { assert(trace::body_key(body, key@) == request_key(body)); }
    let (context, platform, request) = match super::accept_request(host, params, body, key.as_str()) {
        Ok(x) => x,
        Err(e) => return Err(e),
    };
    let ghost c1 = host.calls@;
    let ghost id = ctx::server_id_spec(params@).unwrap();
    let (ini_abs, bytes) = match super::fetch_ini(host, &context, platform) {
        Ok(x) => x,
        Err(e) => {
            proof { trace::lemma_fetch_err(params@, request_key(body), platform, context, c0, c1, host.calls@, e); }
            return Err(e);
        },
    };
    let ghost c2 = host.calls@;
    proof {
        trace::lemma_opened(id, platform, c0, c1, c2, context, ini_abs, bytes@);
        crate::host_api::lemma_extends_reading_trans(c0, c1, c2);
    }
    let (changed, out) = match edit::toggle_ini(platform.dialect(), bytes.as_slice(), request.file.as_str(), request.enabled) {
        Ok(x) => x,
        Err(e) => return Err(e),
    };
    if changed {
        let u = host.upload(context.node_id, ini_abs.as_str(), out.as_slice(), super::INI_FILE_PERMISSIONS);
        proof {
            assert(host.calls@.take(c0.len() as int) =~= c2.take(c0.len() as int));
            assert(made(c0, host.calls@) =~= made(c0, c2).push(HostCall::Upload(context.node_id, ini_abs@, out@, 0o644u32, u)));
            assert(made(c0, host.calls@).take(made(c0, host.calls@).len() - 1) =~= made(c0, c2));
            trace::lemma_read_ini_prefix(id, platform, made(c0, c2), made(c0, host.calls@), made(c0, c2).len() - 1);
        }
        match u {
            Ok(()) => {},
            Err(h) => return Err(ApiError::from(h)),
        }
    } else {
        proof {
            assert(crate::host_api::extends_reading(Seq::empty(), made(c0, c2))) by {
                assert(made(c0, c2).take(0) =~= Seq::<HostCall>::empty());
                assert forall|k: int| 0 <= k < made(c0, c2).len() implies !crate::host_api::is_write(#[trigger] made(c0, c2)[k]) by {
                    assert(made(c0, c2)[k] == c2[c0.len() + k]);
                }
            }
        }
    }
    Ok(ToggleResponse { file: request.file, enabled: request.enabled, changed })
}

} // verus!

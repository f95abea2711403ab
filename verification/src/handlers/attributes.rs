//! POST /servers/{id}/{platform}/plugins/attributes — set an entry's debug
//! flag and inline comment, rewriting only that line.

use vstd::prelude::*;

use crate::goldsrc::ini::opt_chars;
use crate::goldsrc::Platform;
use crate::handlers::ctx::{self, ServerCtx};
use crate::host_api::Recorded;
use crate::host_api::{HostApi, HostCall};
use crate::handlers::ctx::{appended, made};
use crate::handlers::{edit, trace};
use crate::http::ApiError;
use crate::model::{SetAttributesRequest, SetAttributesResponse};
use crate::text::{self, chars_of, push_range, string_from_chars, trim_bounds};

verus! {

const MAX_COMMENT_LEN: usize = 200;

/// `s` without its leading run of `;`, `#` and `/`.
pub open spec fn trim_start_marks(s: Seq<char>) -> Seq<char>
    decreases s.len(),
{
    if s.len() > 0 && (s.first() == ';' || s.first() == '#' || s.first() == '/') {
        trim_start_marks(s.drop_first())
    } else {
        s
    }
}

/// A requested comment's text: trimmed, a leading marker run the user may
/// have typed removed, trimmed again.
pub open spec fn comment_request_text(raw: Seq<char>) -> Seq<char> {
    text::trim_ws(trim_start_marks(text::trim_ws(raw)))
}

/// Outcome of normalizing a requested comment.
pub open spec fn normalize_spec(comment: Option<Seq<char>>) -> Result<Option<Seq<char>>, Seq<char>> {
    match comment {
        None => Ok(None),
        Some(raw) => if exists|i: int| 0 <= i < raw.len() && text::is_control(#[trigger] raw[i]) {
            Err("comment must not contain control characters"@)
        } else {
            let t = comment_request_text(raw);
            if t.len() > 200 {
                Err("comment is too long"@)
            } else if t.len() == 0 {
                Ok(None)
            } else {
                Ok(Some(t))
            }
        },
    }
}

/// Validates and normalizes an incoming comment: rejects control characters
/// (which would split the ini line), strips a leading marker the user may have
/// typed, trims, and enforces a length cap. Empty result becomes `None`.
pub fn normalize_comment(comment: Option<String>) -> (r: Result<Option<String>, ApiError>)
    ensures
        match normalize_spec(opt_chars(comment)) {
            Ok(t) => r matches Ok(o) && opt_chars(o) == t,
            Err(m) => r matches Err(e) && ctx::is_error(e, 400, "INVALID_INPUT", m),
        },
{
    let raw = match comment {
        None => return Ok(None),
        Some(raw) => raw,
    };
    let cs = chars_of(raw.as_str());
    let mut i: usize = 0;
    while i < cs.len()
        invariant
            i <= cs.len(),
            cs@ == raw@,
            opt_chars(comment) == Some(raw@),
            forall|j: int| 0 <= j < i ==> !text::is_control(#[trigger] cs@[j]),
        decreases cs.len() - i,
    {
        let u = cs[i] as u32;
        if u <= 0x1F || (0x7F <= u && u <= 0x9F) {
            assert(text::is_control(raw@[i as int]));
            assert(normalize_spec(opt_chars(Some(raw))) == Err::<Option<Seq<char>>, Seq<char>>("comment must not contain control characters"@));
            let e = ApiError::bad_request("comment must not contain control characters");
            assert(ctx::is_error(e, 400, "INVALID_INPUT", "comment must not contain control characters"@));
            return Err(e);
        }
        i += 1;
    }
    let (a, b) = trim_bounds(&cs, 0);
    assert(cs@.skip(0) =~= cs@);
    let mut m = a;
    while m < b && (cs[m] == ';' || cs[m] == '#' || cs[m] == '/')
        invariant
            a <= m <= b <= cs.len(),
            trim_start_marks(cs@.subrange(m as int, b as int)) == trim_start_marks(cs@.subrange(a as int, b as int)),
        decreases b - m,
    {
        assert(cs@.subrange(m as int, b as int).drop_first() =~= cs@.subrange(m + 1, b as int));
        m += 1;
    }
    let mut mid: Vec<char> = Vec::new();
    push_range(&mut mid, &cs, m, b);
    assert(mid@ =~= trim_start_marks(text::trim_ws(raw@)));
    let (x, y) = trim_bounds(&mid, 0);
    assert(mid@.skip(0) =~= mid@);
    if y - x > MAX_COMMENT_LEN {
        return Err(ApiError::bad_request("comment is too long"));
    }
    if x == y {
        return Ok(None);
    }
    let mut out: Vec<char> = Vec::new();
    push_range(&mut out, &mid, x, y);
    assert(out@ =~= comment_request_text(raw@));
    Ok(Some(string_from_chars(&out)))
}

/// The entry key an attributes request asks for, or why it gave none.
pub open spec fn request_key(body: Result<SetAttributesRequest, ApiError>) -> Result<Seq<char>, ApiError> {
    match body {
        Ok(req) => Ok(req.file@),
        Err(e) => Err(e),
    }
}

/// A request for new attributes answered `resp`, given the calls `t` it
/// made: the key and comment passed, the ini was located and read, and
/// either the entry's line changed and the edited bytes were uploaded to the
/// same path, or nothing changed and nothing was written.
pub open spec fn attributes_set(params: Seq<(String, String)>, body: Result<SetAttributesRequest, ApiError>, t: Seq<HostCall>, resp: SetAttributesResponse) -> bool {
    &&& ctx::server_id_spec(params) is Some
    &&& ctx::platform_spec(params) is Some
    &&& body is Ok
    &&& {
        let id = ctx::server_id_spec(params).unwrap();
        let p = ctx::platform_spec(params).unwrap();
        let req = body.unwrap();
        &&& resp.file@ == req.file@
        &&& trace::key_ok(p, req.file@)
        &&& normalize_spec(opt_chars(req.comment)) == Ok::<Option<Seq<char>>, Seq<char>>(opt_chars(resp.comment))
        &&& resp.debug == (p == Platform::Amxx && req.debug)
        &&& if resp.changed {
            &&& t.len() >= 2
            &&& exists|c: ServerCtx, q: String, b: Seq<u8>|
                #[trigger] trace::opens(id, p, t.take(t.len() - 1), c, q, b)
                && (edit::attributes_spec(trace::dialect_of(p), b, req.file@, req.debug, opt_chars(resp.comment)) matches Some((ch, d, out))
                && ch && d == resp.debug && trace::uploaded(t.last(), c.node_id, q@, out))
        } else {
            &&& exists|c: ServerCtx, q: String, b: Seq<u8>|
                #[trigger] trace::opens(id, p, t, c, q, b)
                && (edit::attributes_spec(trace::dialect_of(p), b, req.file@, req.debug, opt_chars(resp.comment)) matches Some((ch, d, _))
                && !ch && d == resp.debug)
            &&& crate::host_api::extends_reading(Seq::empty(), t)
        }
    }
}

/// Why a request for new attributes was refused with `e`, given the calls `t`
/// it made: an early refusal, a comment that cannot be written (checked once
/// the key passed, before the ini is looked for), the entry of the ini is
/// missing or unreadable, or the upload of the edited ini failed.
pub open spec fn attributes_refused(params: Seq<(String, String)>, body: Result<SetAttributesRequest, ApiError>, t: Seq<HostCall>, e: ApiError) -> bool {
    ||| trace::refused_early(params, request_key(body), t, e)
    ||| {
        &&& ctx::server_id_spec(params) is Some
        &&& ctx::platform_spec(params) is Some
        &&& body is Ok
        &&& {
            let id = ctx::server_id_spec(params).unwrap();
            let p = ctx::platform_spec(params).unwrap();
            let req = body.unwrap();
            ||| (exists|c: ServerCtx| #[trigger] trace::accepted(params, Ok::<Seq<char>, ApiError>(req.file@), t, Ok::<(ServerCtx, Platform), ApiError>((c, p))))
                && (normalize_spec(opt_chars(req.comment)) matches Err(m) && ctx::is_error(e, 400, "INVALID_INPUT", m))
            ||| exists|c: ServerCtx, q: String, b: Seq<u8>|
                #[trigger] trace::opens(id, p, t, c, q, b)
                && normalize_spec(opt_chars(req.comment)) is Ok
                && edit::attributes_spec(trace::dialect_of(p), b, req.file@, req.debug, normalize_spec(opt_chars(req.comment))->Ok_0) is None
                && edit::attributes_refusal(trace::dialect_of(p), b, req.file@, e)
            ||| t.len() >= 2 && exists|c: ServerCtx, q: String, b: Seq<u8>|
                #[trigger] trace::opens(id, p, t.take(t.len() - 1), c, q, b)
                && normalize_spec(opt_chars(req.comment)) is Ok
                && (edit::attributes_spec(trace::dialect_of(p), b, req.file@, req.debug, normalize_spec(opt_chars(req.comment))->Ok_0)
                    matches Some((ch, _, out)) && ch && trace::upload_failed(t.last(), c.node_id, q@, out, e))
        }
    }
}

pub fn handle<H: HostApi>(host: &mut Recorded<H>, params: &Vec<(String, String)>, body: Result<SetAttributesRequest, ApiError>) -> (r: Result<SetAttributesResponse, ApiError>)
    ensures
        appended(old(host).calls@, final(host).calls@),
        ctx::server_id_spec(params@) is None ==> made(old(host).calls@, final(host).calls@).len() == 0
            && (r matches Err(e) && ctx::is_error(e, 400, "INVALID_INPUT", "invalid server id"@)),
        r matches Ok(resp) ==> attributes_set(params@, body, made(old(host).calls@, final(host).calls@), resp),
        r matches Err(e) ==> attributes_refused(params@, body, made(old(host).calls@, final(host).calls@), e),
{
    let ghost c0 = host.calls@;
    let key = match &body {
        Ok(req) => req.file.clone(),
        Err(_) => String::new(),
    };
    proof { assert(trace::body_key(body, key@) == request_key(body)); }
    let (context, platform, request) = match super::accept_request(host, params, body, key.as_str()) {
        Ok(x) => x,
        Err(e) => return Err(e),
    };
    let ghost c1 = host.calls@;
    let ghost id = ctx::server_id_spec(params@).unwrap();
    let ghost raw_comment = opt_chars(request.comment);
    // Reject/strip user input that could inject a new line into plugins.ini.
    let comment = match normalize_comment(request.comment) {
        Ok(c) => c,
        Err(e) => return Err(e),
    };
    let (ini_abs, bytes) = match super::fetch_ini(host, &context, platform) {
        Ok(x) => x,
        Err(e) => {
            proof { trace::lemma_fetch_err(params@, request_key(body), platform, context, c0, c1, host.calls@, e); }
            return Err(e);
        },
    };
    let ghost c2 = host.calls@;
    proof {
        trace::lemma_opens(id, platform, c0, c1, c2, context, ini_abs, bytes@);
        crate::host_api::lemma_extends_reading_trans(c0, c1, c2);
    }
    let (changed, desired_debug, out) = match edit::attributes_ini(
        platform.dialect(),
        bytes.as_slice(),
        request.file.as_str(),
        request.debug,
        &comment,
    ) {
        Ok(x) => x,
        Err(e) => return Err(e),
    };
    if changed {
        let u = host.upload(context.node_id, ini_abs.as_str(), out.as_slice(), super::INI_FILE_PERMISSIONS);
        proof {
            assert(host.calls@.take(c0.len() as int) =~= c2.take(c0.len() as int));
            assert(made(c0, host.calls@) =~= made(c0, c2).push(HostCall::Upload(context.node_id, ini_abs@, out@, 0o644u32, u)));
            assert(made(c0, host.calls@).take(made(c0, host.calls@).len() - 1) =~= made(c0, c2));
        }
        match u {
            Ok(()) => {},
            Err(h) => return Err(ApiError::from(h)),
        }
    } else {
        proof {
            assert(crate::host_api::extends_reading(Seq::empty(), made(c0, c2))) by {
                assert(made(c0, c2).take(0) =~= Seq::<HostCall>::empty());
                assert forall|k: int| 0 <= k < made(c0, c2).len() implies !crate::host_api::is_write(#[trigger] made(c0, c2)[k]) by {
                    assert(made(c0, c2)[k] == c2[c0.len() + k]);
                }
            }
        }
    }
    Ok(SetAttributesResponse { file: request.file, debug: desired_debug, comment, changed })
}

} // verus!

//! GET /servers/{id}/state — assembles the Metamod/AMXX picture of a server.

use vstd::prelude::*;

use crate::goldsrc::ini;
use crate::goldsrc::{self, liblist, paths, Platform};
use crate::handlers::{liblist_outcome, liblist_path, metamod_dir_spec, platform_ini_spec};
use crate::handlers::ctx::{self, appended, made, ServerCtx};
use crate::handlers::rows::{self, OTHER_GROUP};
use crate::handlers::listing::{self, base_of, cache_find, listed, listing_step, parent_of};
use crate::host_api::Recorded;
use crate::host_api::{answer_error, HostApi, HostApiError, HostCall};
use crate::http::ApiError;
use crate::model::{
    AmxxPluginEntry, AmxxState, MetamodPluginEntry, MetamodState, StatePaths, StateResponse,
};
use crate::text::{self, chars_of, string_from_chars};

verus! {

/// Directory listings already fetched: mod-relative dir → file names
/// (`None` when the directory is missing).
type DirCache = Vec<(String, Option<Vec<String>>)>;

/// A cached listing: the file names of a directory, `None` when it is missing.
spec fn listing_view(l: Option<Vec<String>>) -> Option<Seq<Seq<char>>> {
    match l {
        Some(v) => Some(rows::names_view(v@)),
        None => None,
    }
}

spec fn cache_view(c: Seq<(String, Option<Vec<String>>)>) -> Seq<(Seq<char>, Option<Seq<Seq<char>>>)> {
    c.map_values(|e: (String, Option<Vec<String>>)| (e.0@, listing_view(e.1)))
}

/// What reading the ini at `path` on `node` gave, from the calls `u` that
/// did it: how many calls that took, and its bytes (`None` when the file is
/// missing) or the host error. `None` when `u` are not those calls.
pub open spec fn ini_read(node: u64, path: Seq<char>, u: Seq<HostCall>) -> Option<(nat, Result<Option<Seq<u8>>, HostApiError>)> {
    if u.len() == 0 {
        None
    } else {
        match u[0] {
            HostCall::Stat(n, p, a) => if n != node || p != path {
                None
            } else {
                match a {
                    Err(h) => Some((1nat, Err(h))),
                    Ok(None) => Some((1nat, Ok(None))),
                    Ok(Some(_)) => if u.len() < 2 {
                        None
                    } else {
                        match u[1] {
                            HostCall::Download(n2, p2, a2) => if n2 != node || p2 != path {
                                None
                            } else {
                                match a2 {
                                    Err(h) => Some((2nat, Err(h))),
                                    Ok(b) => Some((2nat, Ok(Some(b@)))),
                                }
                            },
                            _ => None,
                        }
                    },
                }
            },
            _ => None,
        }
    }
}

fn read_ini_document<H: HostApi>(host: &mut Recorded<H>, ctx: &ServerCtx, ini_rel: &str, dialect: ini::Dialect) -> (r: Result<Option<ini::Document>, HostApiError>)
    ensures
        appended(old(host).calls@, final(host).calls@),
        ini_read(ctx.node_id, paths::join_spec(ctx.mod_abs@, ini_rel@), made(old(host).calls@, final(host).calls@)) matches Some((k, o))
            && k == made(old(host).calls@, final(host).calls@).len() && match o {
                Err(h) => r == Err::<Option<ini::Document>, HostApiError>(h),
                Ok(None) => r matches Ok(None),
                Ok(Some(b)) => r matches Ok(Some(d)) && d@.dialect == dialect && d@.lines == ini::split_lines(b),
            },
{
    let ghost c0 = host.calls@;
    let ini_abs = paths::join(ctx.mod_abs.as_str(), ini_rel);
    let a = host.stat(ctx.node_id, ini_abs.as_str());
    assert(host.calls@.take(c0.len() as int) =~= c0);
    assert(made(c0, host.calls@) =~= seq![HostCall::Stat(ctx.node_id, ini_abs@, a)]);
    match a {
        Err(h) => return Err(h),
        Ok(None) => return Ok(None),
        Ok(Some(_)) => {},
    }
    let ghost c1 = host.calls@;
    let d = host.download(ctx.node_id, ini_abs.as_str());
    assert(host.calls@.take(c0.len() as int) =~= c1.take(c0.len() as int));
    assert(made(c0, host.calls@) =~= seq![HostCall::Stat(ctx.node_id, ini_abs@, a), HostCall::Download(ctx.node_id, ini_abs@, d)]);
    let bytes = match d {
        Err(h) => return Err(h),
        Ok(b) => b,
    };
    let doc = ini::Document::parse(dialect, bytes.as_slice());
    Ok(Some(doc))
}

fn copy_names(names: &Vec<String>) -> (r: Vec<String>)
    ensures
        r@.map_values(|s: String| s@) == names@.map_values(|s: String| s@),
{
    let mut out: Vec<String> = Vec::new();
    let mut i: usize = 0;
    while i < names.len()
        invariant
            i <= names.len(),
            out@.len() == i,
            forall|j: int| 0 <= j < i ==> (#[trigger] out@[j])@ == names@[j]@,
        decreases names.len() - i,
    {
        let s = names[i].clone();
        out.push(s);
        i += 1;
    }
    assert(out@.map_values(|s: String| s@) =~= names@.map_values(|s: String| s@));
    out
}

/// File names directly inside a mod-relative directory (empty when missing).
/// A directory listed before is answered from `cache`; otherwise its listing
/// is fetched and added at the end of `cache`.
fn list_dir_names<H: HostApi>(host: &mut Recorded<H>, ctx: &ServerCtx, cache: &mut DirCache, dir_rel: &str) -> (r: Result<Vec<String>, HostApiError>)
    ensures
        appended(old(host).calls@, final(host).calls@),
        listing_step(ctx.node_id, ctx.mod_abs@, cache_view(old(cache)@), cache_view(final(cache)@),
            made(old(host).calls@, final(host).calls@), dir_rel@, match r {
                Ok(v) => Ok::<Seq<Seq<char>>, HostApiError>(rows::names_view(v@)),
                Err(h) => Err::<Seq<Seq<char>>, HostApiError>(h),
            }),
{
    let ghost cv = cache_view(cache@);
    let ghost c0 = host.calls@;
    assert(c0.take(c0.len() as int) =~= c0);
    let mut i: usize = 0;
    while i < cache.len()
        invariant
            i <= cache.len(),
            host.calls@ == c0,
            c0.take(c0.len() as int) == c0,
            cv == cache_view(cache@),
            cache_find(cv, dir_rel@, i as nat) == cache_find(cv, dir_rel@, 0),
        decreases cache.len() - i,
    {
        assert(cv[i as int].0 == cache@[i as int].0@);
        if text::str_eq(cache[i].0.as_str(), dir_rel) {
            let found = match &cache[i].1 {
                Some(names) => copy_names(names),
                None => Vec::new(),
            };
            assert(rows::names_view(found@) =~= listed(cv[i as int].1));
            assert(made(c0, host.calls@) =~= Seq::<HostCall>::empty());
            return Ok(found);
        }
        i += 1;
    }
    let dir_abs = paths::join(ctx.mod_abs.as_str(), dir_rel);
    let a = host.read_dir(ctx.node_id, dir_abs.as_str());
    assert(host.calls@.take(c0.len() as int) =~= c0);
    assert(made(c0, host.calls@) =~= seq![HostCall::ReadDir(ctx.node_id, dir_abs@, a)]);
    let names = match a {
        Err(h) => return Err(h),
        Ok(Some(entries)) => {
            let mut names: Vec<String> = Vec::new();
            let mut j: usize = 0;
            assert(entries@.take(0) =~= Seq::<crate::host_api::DirEntry>::empty());
            while j < entries.len()
                invariant
                    j <= entries.len(),
                    rows::names_view(names@) == listing::file_names(entries@.take(j as int)),
                decreases entries.len() - j,
            {
                assert(entries@.take(j + 1).drop_last() =~= entries@.take(j as int));
                if !entries[j].is_dir {
                    names.push(entries[j].name.clone());
                    assert(rows::names_view(names@) =~= listing::file_names(entries@.take(j as int)).push(entries@[j as int].name@));
                }
                j += 1;
            }
            assert(entries@.take(entries.len() as int) =~= entries@);
            Some(names)
        },
        Ok(None) => None,
    };
    let result = match &names {
        Some(n) => copy_names(n),
        None => Vec::new(),
    };
    let ghost l = listing_view(names);
    assert(rows::names_view(result@) =~= listed(l));
    let key = dir_rel.to_owned();
    cache.push((key, names));
    assert(cache_view(cache@) =~= cv.push((dir_rel@, l)));
    Ok(result)
}

/// Existence check for a mod-relative file path via its parent dir listing:
/// whether the listing of its directory, now in `cache`, holds its name.
fn file_exists_cached<H: HostApi>(host: &mut Recorded<H>, ctx: &ServerCtx, cache: &mut DirCache, file_rel: &str) -> (r: Result<bool, HostApiError>)
    ensures
        appended(old(host).calls@, final(host).calls@),
        r matches Err(h) ==> made(old(host).calls@, final(host).calls@).len() > 0
            && answer_error(made(old(host).calls@, final(host).calls@).last()) == Some(h),
        exists|res: Result<Seq<Seq<char>>, HostApiError>|
            #[trigger] listing_step(ctx.node_id, ctx.mod_abs@, cache_view(old(cache)@), cache_view(final(cache)@),
                made(old(host).calls@, final(host).calls@), parent_of(file_rel@), res) && match r {
                Ok(b) => res matches Ok(ns) && b == ns.contains(base_of(file_rel@)),
                Err(h) => res == Err::<Seq<Seq<char>>, HostApiError>(h),
            },
{
    let cs = chars_of(file_rel);
    let mut i = cs.len();
    assert(cs@.take(i as int) =~= cs@);
    while i > 0 && cs[i - 1] != '/'
        invariant
            i <= cs.len(),
            cs@ == file_rel@,
            crate::goldsrc::amxxpc::last_index(cs@, '/') == crate::goldsrc::amxxpc::last_index(cs@.take(i as int), '/'),
        decreases i,
    {
        assert(cs@.take(i as int).drop_last() =~= cs@.take(i - 1));
        i -= 1;
    }
    let (parent, name) = if i > 0 {
        assert(cs@.take(i as int).last() == '/');
        let mut p: Vec<char> = Vec::new();
        text::push_range(&mut p, &cs, 0, i - 1);
        let mut n: Vec<char> = Vec::new();
        text::push_range(&mut n, &cs, i, cs.len());
        assert(p@ =~= parent_of(file_rel@));
        assert(n@ =~= base_of(file_rel@));
        (string_from_chars(&p), string_from_chars(&n))
    } else {
        assert(crate::goldsrc::amxxpc::last_index(cs@.take(0), '/') == -1);
        (String::new(), file_rel.to_owned())
    };
    assert(parent@ == parent_of(file_rel@));
    assert(name@ == base_of(file_rel@));
    let ghost cv = cache_view(cache@);
    let names = match list_dir_names(host, ctx, cache, parent.as_str()) {
        Ok(n) => n,
        Err(h) => return Err(h),
    };
    Ok(rows::names_contain(&names, name.as_str()))
}

/// What a probe of the directory `path` on `node` found: whether it is a
/// directory; `None` when `c` is no such successful probe.
pub open spec fn probed_dir(c: HostCall, node: u64, path: Seq<char>) -> Option<bool> {
    match c {
        HostCall::Stat(n, p, a) => if n == node && p == path {
            match a {
                Ok(st) => Some(st matches Some(x) && x.is_dir),
                Err(_) => None,
            }
        } else {
            None
        },
        _ => None,
    }
}

/// The Metamod ini of a server whose liblist.gam reads `l`.
pub open spec fn metamod_ini_path(c: ServerCtx, l: liblist::LiblistModel) -> Seq<char> {
    paths::join_spec(c.mod_abs@, platform_ini_spec(Platform::Metamod, metamod_dir_spec(l).0))
}

/// What the state route read of the server `c` before listing folders, from
/// the calls `u`: how many calls that took, liblist.gam, whether Metamod's
/// folder is there, Metamod's plugins.ini, whether AMX Mod X's folder is
/// there, and AMX Mod X's plugins.ini (`None` for an ini that is missing).
/// `None` when `u` do not begin with those reads.
pub open spec fn reads_of(c: ServerCtx, u: Seq<HostCall>) -> Option<(nat, liblist::LiblistModel, bool, Option<Seq<u8>>, bool, Option<Seq<u8>>)> {
    match liblist_outcome(c.node_id, liblist_path(c), u) {
        Some((k1, Ok(l))) => if u.len() <= k1 {
            None
        } else {
            match probed_dir(u[k1 as int], c.node_id, paths::join_spec(c.mod_abs@, metamod_dir_spec(l).0)) {
                None => None,
                Some(mp) => match ini_read(c.node_id, metamod_ini_path(c, l), u.skip(k1 + 1int)) {
                    Some((k2, Ok(mb))) => if u.len() <= k1 + 1 + k2 {
                        None
                    } else {
                        match probed_dir(u[k1 + 1int + k2], c.node_id, paths::join_spec(c.mod_abs@, goldsrc::AMXX_DIR@)) {
                            None => None,
                            Some(ai) => match ini_read(c.node_id, paths::join_spec(c.mod_abs@, goldsrc::AMXX_PLUGINS_INI@), u.skip(k1 + 2int + k2)) {
                                Some((k3, Ok(ab))) => Some((k1 + 2 + k2 + k3, l, mp, mb, ai, ab)),
                                _ => None,
                            },
                        }
                    },
                    _ => None,
                },
            }
        },
        _ => None,
    }
}

/// The labelled entries of Metamod's plugins.ini read as `mb` (none when it
/// is missing).
pub open spec fn metamod_entries(mb: Option<Seq<u8>>) -> Seq<(ini::EntryModel, u32, Option<Seq<char>>)> {
    match mb {
        Some(b) => rows::labelled(ini::groups_spec(ini::Dialect::Metamod, ini::split_lines(b))),
        None => Seq::empty(),
    }
}

/// The plugin rows of the state, given the inis read as `mb` and `ab` and
/// the folder listing each request got (`ls`): each Metamod binary is
/// missing when the listing of its folder does not hold its name; the AMX
/// Mod X rows are looked up in the listings of the plugins and configs
/// folders; an ini that is missing gives no rows.
pub open spec fn rows_shown(c: ServerCtx, mb: Option<Seq<u8>>, ab: Option<Seq<u8>>, ls: Seq<Seq<Seq<char>>>, resp: StateResponse) -> bool {
    let xs = metamod_entries(mb);
    &&& resp.metamod.plugins@.map_values(|p: MetamodPluginEntry| rows::metamod_row_view(p))
        == rows::metamod_rows_spec(xs, listing::missing_of(xs, ls))
    &&& match ab {
        None => resp.amxx.plugins@.len() == 0,
        Some(b) => rows::amxx_rows_spec(rows::labelled(ini::groups_spec(ini::Dialect::Amxx, ini::split_lines(b))),
            ls[xs.len() as int], ls[xs.len() + 1int], c.mod_dir@) == Some(resp.amxx.plugins@.map_values(|p: AmxxPluginEntry| rows::amxx_row_view(p))),
    }
}

/// What the state of the server resolved to `c` shows, given the calls `u`
/// made after resolving it: the reads, then the folder listings (one per
/// folder, in the order of first use); the flags and paths are those the
/// reads give, and the plugin rows those of the inis read and the listings.
pub open spec fn state_shown(c: ServerCtx, u: Seq<HostCall>, resp: StateResponse) -> bool {
    &&& resp.server_id == c.server_id
    &&& resp.game_code@ == c.game_code@
    &&& resp.engine@ == c.engine@
    &&& resp.mod_dir@ == c.mod_dir@
    &&& reads_of(c, u) matches Some((k, l, mp, mb, ai, ab))
    &&& resp.metamod.installed == metamod_dir_spec(l).1
    &&& resp.metamod.dir_present == mp
    &&& resp.metamod.plugins_ini_exists == mb is Some
    &&& resp.amxx.installed == ai
    &&& resp.amxx.plugins_ini_exists == ab is Some
    &&& resp.paths.metamod_dir@ == paths::join_spec(c.mod_dir@, metamod_dir_spec(l).0)
    &&& resp.paths.metamod_plugins_ini@ == paths::join_spec(c.mod_dir@, platform_ini_spec(Platform::Metamod, metamod_dir_spec(l).0))
    &&& listing::run(c.node_id, c.mod_abs@, listing::requests(metamod_entries(mb)), u.skip(k as int)) matches Some(ls)
    &&& rows_shown(c, mb, ab, ls, resp)
}

/// Why the state of the server resolved to `c` was refused with `e`, given
/// the calls `u` made after resolving it: the node failed, or the AMX Mod X
/// ini that was read holds an entry whose comment cannot be read.
pub open spec fn state_refused(c: ServerCtx, u: Seq<HostCall>, e: ApiError) -> bool {
    ||| crate::host_api::failed_last(u, e)
    ||| {
        &&& reads_of(c, u) matches Some((k, l, mp, mb, ai, ab))
        &&& ab matches Some(b)
        &&& listing::run(c.node_id, c.mod_abs@, listing::requests(metamod_entries(mb)), u.skip(k as int)) matches Some(ls)
        &&& rows::amxx_rows_spec(rows::labelled(ini::groups_spec(ini::Dialect::Amxx, ini::split_lines(b))),
            ls[metamod_entries(mb).len() as int], ls[metamod_entries(mb).len() + 1int], c.mod_dir@) is None
        &&& ctx::is_error(e, 500, "INTERNAL_ERROR", "plugins.ini entry has an unreadable comment"@)
    }
}

/// Calls after a whole ini read do not change what the read gave.
proof fn lemma_ini_read_prefix(node: u64, path: Seq<char>, v: Seq<HostCall>, w: Seq<HostCall>)
    requires
        v.len() <= w.len(),
        w.take(v.len() as int) == v,
        ini_read(node, path, v) matches Some((k, _)) && k == v.len(),
    ensures
        ini_read(node, path, w) == ini_read(node, path, v),
{
    assert(w[0] == v[0]);
    if v.len() >= 2 {
        assert(w[1] == v[1]);
    }
}

/// A failed call after `c1`: the calls made since then end with it.
proof fn lemma_failed_after(c1: Seq<HostCall>, pre: Seq<HostCall>, post: Seq<HostCall>, h: HostApiError)
    requires
        appended(c1, pre),
        appended(pre, post),
        made(pre, post).len() > 0,
        answer_error(made(pre, post).last()) == Some(h),
    ensures
        appended(c1, post),
        crate::host_api::failed_last(made(c1, post), crate::http::host_error_spec(h)),
{
    crate::handlers::trace::lemma_last_of_tail(c1, pre, post);
    ctx::lemma_made_concat(c1, pre, post);
}

pub fn handle<H: HostApi>(host: &mut Recorded<H>, params: &Vec<(String, String)>) -> (r: Result<StateResponse, ApiError>)
    ensures
        appended(old(host).calls@, final(host).calls@),
        ctx::server_id_spec(params@) is None ==> made(old(host).calls@, final(host).calls@).len() == 0
            && (r matches Err(e) && ctx::is_error(e, 400, "INVALID_INPUT", "invalid server id"@)),
        ctx::server_id_spec(params@) matches Some(id) ==> match r {
            Err(e) => ctx::resolve_spec(id, made(old(host).calls@, final(host).calls@), Err::<ServerCtx, ApiError>(e))
                || exists|k: int, c: ServerCtx|
                    #![trigger ctx::resolve_spec(id, made(old(host).calls@, final(host).calls@).take(k), Ok::<ServerCtx, ApiError>(c))]
                    0 <= k <= made(old(host).calls@, final(host).calls@).len()
                    && ctx::resolve_spec(id, made(old(host).calls@, final(host).calls@).take(k), Ok::<ServerCtx, ApiError>(c))
                    && state_refused(c, made(old(host).calls@, final(host).calls@).skip(k), e),
            Ok(resp) => exists|k: int, c: ServerCtx|
                #![trigger ctx::resolve_spec(id, made(old(host).calls@, final(host).calls@).take(k), Ok::<ServerCtx, ApiError>(c))]
                0 <= k <= made(old(host).calls@, final(host).calls@).len()
                && ctx::resolve_spec(id, made(old(host).calls@, final(host).calls@).take(k), Ok::<ServerCtx, ApiError>(c))
                && state_shown(c, made(old(host).calls@, final(host).calls@).skip(k), resp),
        },
        r matches Ok(resp) ==> {
            &&& ctx::server_id_spec(params@) == Some(resp.server_id)
            &&& text::eq_ci(resp.engine@, "goldsource"@)
            &&& resp.paths.liblist@ == paths::join_spec(resp.mod_dir@, "liblist.gam"@)
            &&& resp.paths.amxx_dir@ == paths::join_spec(resp.mod_dir@, "addons/amxmodx"@)
            &&& resp.paths.amxx_plugins_ini@ == paths::join_spec(resp.mod_dir@, "addons/amxmodx/configs/plugins.ini"@)
            &&& resp.paths.amxx_plugins_dir@ == paths::join_spec(resp.mod_dir@, "addons/amxmodx/plugins"@)
            &&& resp.paths.amxx_configs_dir@ == paths::join_spec(resp.mod_dir@, "addons/amxmodx/configs"@)
            &&& forall|i: int| 0 <= i < resp.amxx.plugins@.len() ==> ((#[trigger] resp.amxx.plugins@[i]).group_title is None ==> resp.amxx.plugins@[i].group_index == OTHER_GROUP)
            &&& forall|i: int| 0 <= i < resp.amxx.plugins@.len() ==> ((#[trigger] resp.amxx.plugins@[i]).has_config <==> resp.amxx.plugins@[i].config_path is Some)
            &&& forall|i: int| 0 <= i < resp.metamod.plugins@.len() ==> ((#[trigger] resp.metamod.plugins@[i]).group_title is None ==> resp.metamod.plugins@[i].group_index == OTHER_GROUP)
            &&& forall|i: int| 0 <= i < resp.metamod.plugins@.len() ==> {
                let p = #[trigger] resp.metamod.plugins@[i];
                &&& p.file@ == paths::file_name_spec(paths::normalize_spec(p.path@))
                &&& p.system == goldsrc::is_amxx_loader_spec(paths::normalize_spec(p.path@))
            }
            &&& resp.amxx.registered_in_metamod == rows::loader_registered_spec(
                resp.metamod.plugins@.map_values(|p: MetamodPluginEntry| rows::metamod_row_view(p)),
            )
        },
{
    let ghost c0 = host.calls@;
    let context = match ServerCtx::resolve(host, params) {
        Ok(c) => c,
        Err(e) => return Err(e),
    };
    let ghost c1 = host.calls@;
    let ghost id = ctx::server_id_spec(params@).unwrap();
    let r = show_state(host, &context);
    proof {
        ctx::lemma_made_concat(c0, c1, host.calls@);
        let t = made(c0, host.calls@);
        let k = made(c0, c1).len() as int;
        assert(t.take(k) =~= made(c0, c1));
        assert(t.skip(k) =~= made(c1, host.calls@));
        assert(ctx::resolve_spec(id, t.take(k), Ok::<ServerCtx, ApiError>(context)));
    }
    r
}

/// What the state route read of a server before listing folders.
struct StateReads {
    liblist: liblist::Liblist,
    mm_dir: String,
    mm_installed: bool,
    mm_dir_present: bool,
    mm_ini_rel: String,
    mm_doc: Option<ini::Document>,
    amxx_installed: bool,
    amxx_doc: Option<ini::Document>,
}

/// `d` is the document of the ini read as `b` (`None` when missing).
spec fn doc_holds(d: Option<ini::Document>, b: Option<Seq<u8>>, dialect: ini::Dialect) -> bool {
    match (d, b) {
        (None, None) => true,
        (Some(x), Some(y)) => x@.dialect == dialect && x@.lines == ini::split_lines(y),
        _ => false,
    }
}

/// The reads `sr` are what the calls `u` gave, for the server `c`.
spec fn reads_spec(c: ServerCtx, u: Seq<HostCall>, sr: StateReads) -> bool {
    &&& reads_of(c, u) matches Some((k, l, mp, mb, ai, ab))
    &&& k == u.len()
    &&& l == sr.liblist@
    &&& (sr.mm_dir@, sr.mm_installed) == metamod_dir_spec(l)
    &&& sr.mm_ini_rel@ == platform_ini_spec(Platform::Metamod, sr.mm_dir@)
    &&& mp == sr.mm_dir_present
    &&& doc_holds(sr.mm_doc, mb, ini::Dialect::Metamod)
    &&& ai == sr.amxx_installed
    &&& doc_holds(sr.amxx_doc, ab, ini::Dialect::Amxx)
}

/// Reads liblist.gam, probes Metamod's folder and reads its plugins.ini,
/// probes AMX Mod X's folder and reads its plugins.ini.
fn read_state<H: HostApi>(host: &mut Recorded<H>, context: &ServerCtx) -> (r: Result<StateReads, ApiError>)
    ensures
        appended(old(host).calls@, final(host).calls@),
        r matches Ok(sr) ==> reads_spec(*context, made(old(host).calls@, final(host).calls@), sr),
        r matches Err(e) ==> crate::host_api::failed_last(made(old(host).calls@, final(host).calls@), e),
{
    let ghost c1 = host.calls@;
    let liblist = match super::read_liblist(host, context) {
        Ok(l) => l,
        Err(e) => {
            proof {
                let u = made(c1, host.calls@);
                assert(u.last() == u[u.len() - 1]);
            }
            return Err(e);
        },
    };
    let ghost c2 = host.calls@;
    let (mm_dir, mm_installed) = super::metamod_dir(&liblist);
    let mm_dir_abs = paths::join(context.mod_abs.as_str(), mm_dir.as_str());
    let a = host.stat(context.node_id, mm_dir_abs.as_str());
    let ghost c3 = host.calls@;
    assert(c3.take(c2.len() as int) =~= c2);
    assert(made(c2, c3) =~= seq![HostCall::Stat(context.node_id, mm_dir_abs@, a)]);
    let mm_dir_present = match a {
        Err(h) => {
            proof { lemma_failed_after(c1, c2, c3, h); }
            return Err(ApiError::from(h));
        },
        Ok(Some(s)) => s.is_dir,
        Ok(None) => false,
    };
    proof { ctx::lemma_made_concat(c1, c2, c3); }
    let mm_ini_rel = super::platform_ini_rel(Platform::Metamod, mm_dir.as_str());
    let mm_doc = match read_ini_document(host, context, mm_ini_rel.as_str(), ini::Dialect::Metamod) {
        Ok(d) => d,
        Err(h) => {
            proof {
                assert(made(c3, host.calls@).last() == made(c3, host.calls@)[made(c3, host.calls@).len() - 1]);
                lemma_failed_after(c1, c3, host.calls@, h);
            }
            return Err(ApiError::from(h));
        },
    };
    let ghost c4 = host.calls@;
    proof { ctx::lemma_made_concat(c1, c3, c4); }
    let amxx_dir_abs = paths::join(context.mod_abs.as_str(), goldsrc::AMXX_DIR);
    let a2 = host.stat(context.node_id, amxx_dir_abs.as_str());
    let ghost c5 = host.calls@;
    assert(c5.take(c4.len() as int) =~= c4);
    assert(made(c4, c5) =~= seq![HostCall::Stat(context.node_id, amxx_dir_abs@, a2)]);
    let amxx_installed = match a2 {
        Err(h) => {
            proof { lemma_failed_after(c1, c4, c5, h); }
            return Err(ApiError::from(h));
        },
        Ok(Some(s)) => s.is_dir,
        Ok(None) => false,
    };
    proof { ctx::lemma_made_concat(c1, c4, c5); }
    let amxx_doc = match read_ini_document(host, context, goldsrc::AMXX_PLUGINS_INI, ini::Dialect::Amxx) {
        Ok(d) => d,
        Err(h) => {
            proof {
                assert(made(c5, host.calls@).last() == made(c5, host.calls@)[made(c5, host.calls@).len() - 1]);
                lemma_failed_after(c1, c5, host.calls@, h);
            }
            return Err(ApiError::from(h));
        },
    };
    let ghost c6 = host.calls@;
    proof {
        ctx::lemma_made_concat(c1, c5, c6);
        ctx::lemma_made_concat(c4, c5, c6);
        ctx::lemma_made_concat(c3, c4, c6);
        ctx::lemma_made_concat(c2, c3, c6);
        ctx::lemma_made_concat(c1, c2, c6);
        let u = made(c1, c6);
        let k1 = made(c1, c2).len();
        let k2 = made(c3, c4).len();
        assert(u.take(k1 as int) =~= made(c1, c2));
        super::lemma_liblist_outcome_prefix(context.node_id, super::liblist_path(*context), made(c1, c2), u);
        assert(u.skip(k1 as int) =~= made(c2, c6));
        assert(made(c2, c6)[0] == made(c2, c3)[0]);
        assert(u.skip(k1 + 1int) =~= made(c3, c6));
        assert(made(c3, c6).take(k2 as int) =~= made(c3, c4));
        lemma_ini_read_prefix(context.node_id, metamod_ini_path(*context, liblist@), made(c3, c4), made(c3, c6));
        assert(made(c3, c6).skip(k2 as int) =~= made(c4, c6));
        assert(made(c4, c6)[0] == made(c4, c5)[0]);
        assert(u.skip(k1 + 2int + k2) =~= made(c5, c6));
    }
    Ok(StateReads { liblist, mm_dir, mm_installed, mm_dir_present, mm_ini_rel, mm_doc, amxx_installed, amxx_doc })
}

/// What the reads that calls `v` gave stays so once more calls follow.
proof fn lemma_reads_extend(c: ServerCtx, v: Seq<HostCall>, w: Seq<HostCall>)
    requires
        reads_of(c, v) matches Some((k, _, _, _, _, _)) && k == v.len(),
        v.len() <= w.len(),
        w.take(v.len() as int) == v,
    ensures
        reads_of(c, w) == reads_of(c, v),
{
    let (k1, o) = liblist_outcome(c.node_id, liblist_path(c), v).unwrap();
    let l = o->Ok_0;
    assert(liblist_outcome(c.node_id, liblist_path(c), v.take(k1 as int)) == liblist_outcome(c.node_id, liblist_path(c), v)) by {
        assert(v[0] == v.take(k1 as int)[0]);
        if k1 >= 2 {
            assert(v[1] == v.take(k1 as int)[1]);
        }
    }
    assert(w.take(k1 as int) =~= v.take(k1 as int));
    super::lemma_liblist_outcome_prefix(c.node_id, liblist_path(c), v.take(k1 as int), w);
    assert(w[k1 as int] == w.take(v.len() as int)[k1 as int]);
    let k2 = ini_read(c.node_id, metamod_ini_path(c, l), v.skip(k1 + 1int)).unwrap().0;
    let k3 = ini_read(c.node_id, paths::join_spec(c.mod_abs@, goldsrc::AMXX_PLUGINS_INI@), v.skip(k1 + 2int + k2)).unwrap().0;
    let m = v.skip(k1 + 1int).take(k2 as int);
    assert(ini_read(c.node_id, metamod_ini_path(c, l), m) == ini_read(c.node_id, metamod_ini_path(c, l), v.skip(k1 + 1int))) by {
        assert(m[0] == v.skip(k1 + 1int)[0]);
        if k2 >= 2 {
            assert(m[1] == v.skip(k1 + 1int)[1]);
        }
    }
    assert(w.skip(k1 + 1int).take(k2 as int) =~= m);
    lemma_ini_read_prefix(c.node_id, metamod_ini_path(c, l), m, w.skip(k1 + 1int));
    assert(w[k1 + 1int + k2] == w.take(v.len() as int)[k1 + 1int + k2]);
    assert(w.skip(k1 + 2int + k2).take(k3 as int) =~= v.skip(k1 + 2int + k2));
    lemma_ini_read_prefix(c.node_id, paths::join_spec(c.mod_abs@, goldsrc::AMXX_PLUGINS_INI@), v.skip(k1 + 2int + k2), w.skip(k1 + 2int + k2));
}

/// Whether the binary of each Metamod entry of `xs` is missing from its
/// folder, each folder listed once through `cache` (empty at first); also
/// gives the listing each entry's request got.
fn missing_binaries<H: HostApi>(
    host: &mut Recorded<H>,
    context: &ServerCtx,
    dir_cache: &mut DirCache,
    xs: &Vec<(&ini::Entry, u32, Option<String>)>,
) -> (r: Result<(Vec<bool>, Ghost<Seq<Seq<Seq<char>>>>), HostApiError>)
    requires
        cache_view(old(dir_cache)@) == Seq::<(Seq<char>, Option<Seq<Seq<char>>>)>::empty(),
    ensures
        appended(old(host).calls@, final(host).calls@),
        r matches Ok((missing, ls)) ==> {
            let xsv = rows::labelled_view(xs@);
            let reqs = listing::requests(xsv);
            &&& ls@.len() == xsv.len()
            &&& missing@ == listing::missing_of(xsv, ls@)
            &&& listing::run(context.node_id, context.mod_abs@, reqs.take(xsv.len() as int), made(old(host).calls@, final(host).calls@)) == Some(ls@)
            &&& listing::cache_agrees(cache_view(final(dir_cache)@), reqs.take(xsv.len() as int), ls@)
        },
        r matches Err(h) ==> made(old(host).calls@, final(host).calls@).len() > 0
            && answer_error(made(old(host).calls@, final(host).calls@).last()) == Some(h),
{
    let ghost c6 = host.calls@;
    let ghost node = context.node_id;
    let ghost base = context.mod_abs@;
    let ghost xsv = rows::labelled_view(xs@);
    let ghost reqs = listing::requests(xsv);
    let ghost mut ls: Seq<Seq<Seq<char>>> = Seq::empty();
    proof {
        listing::lemma_run_start(node, base, reqs);
        assert(made(c6, c6) =~= Seq::<HostCall>::empty());
        assert(c6.take(c6.len() as int) =~= c6);
        assert forall|i: int| 0 <= i < xsv.len() implies #[trigger] reqs[i] == listing::entry_dir(xsv[i]) by {}
    }
        let mut missing: Vec<bool> = Vec::new();
        let mut k: usize = 0;
        while k < xs.len()
            invariant
                k <= xs.len(),
                xsv == rows::labelled_view(xs@),
                reqs == listing::requests(xsv),
                reqs.len() == xsv.len() + 2,
                forall|i: int| 0 <= i < xsv.len() ==> #[trigger] reqs[i] == listing::entry_dir(xsv[i]),
                node == context.node_id,
                base == context.mod_abs@,
                missing@.len() == k,
                ls.len() == k,
                forall|i: int| 0 <= i < k ==> #[trigger] missing@[i] == listing::missing_flag(xsv[i], ls[i]),
                listing::run(node, base, reqs.take(k as int), made(c6, host.calls@)) == Some(ls),
                listing::cache_agrees(cache_view(dir_cache@), reqs.take(k as int), ls),
                old(host).calls@ == c6,
                appended(c6, host.calls@),
            decreases xs.len() - k,
        {
            let ghost pre = host.calls@;
            let ghost cv = cache_view(dir_cache@);
            let fields = xs[k].0.entry_fields();
            assert(fields@ == xsv[k as int].0.fields);
            let absent = match fields {
                ini::EntryFields::Metamod { path, .. } => {
                    let normalized = paths::normalize_slashes(path.as_str());
                    match file_exists_cached(host, context, dir_cache, normalized.as_str()) {
                        Ok(b) => {
                            proof {
                                ctx::lemma_made_concat(c6, pre, host.calls@);
                                let res = choose|res: Result<Seq<Seq<char>>, HostApiError>|
                                    #[trigger] listing_step(node, base, cv, cache_view(dir_cache@), made(pre, host.calls@), parent_of(normalized@), res)
                                    && (res matches Ok(ns) && b == ns.contains(base_of(normalized@)));
                                let ns = res->Ok_0;
                                assert(made(c6, host.calls@).take(made(c6, pre).len() as int) =~= made(c6, pre));
                                assert(made(c6, host.calls@).skip(made(c6, pre).len() as int) =~= made(pre, host.calls@));
                                listing::lemma_run_step(node, base, reqs, k as int, made(c6, pre), ls, cv,
                                    made(c6, host.calls@), cache_view(dir_cache@), ns);
                                ls = ls.push(ns);
                            }
                            !b
                        },
                        Err(h) => {
                            proof {
                                let u = made(pre, host.calls@);
                                assert(u.last() == u[u.len() - 1]);
                                crate::handlers::trace::lemma_last_of_tail(c6, pre, host.calls@);
                                ctx::lemma_made_concat(c6, pre, host.calls@);
                            }
                            return Err(h);
                        },
                    }
                },
                ini::EntryFields::Amxx { .. } => {
                    proof {
                        assert(made(c6, pre).take(made(c6, pre).len() as int) =~= made(c6, pre));
                        listing::lemma_run_step(node, base, reqs, k as int, made(c6, pre), ls, cv,
                            made(c6, pre), cv, Seq::empty());
                        ls = ls.push(Seq::empty());
                    }
                    false
                },
            };
            missing.push(absent);
            k += 1;
        }
        proof { listing::lemma_missing(xsv, ls, missing@); }
        Ok((missing, Ghost(ls)))
}

/// The labelled entries of an ini document (none when there is none).
spec fn doc_entries(d: Option<ini::Document>) -> Seq<(ini::EntryModel, u32, Option<Seq<char>>)> {
    match d {
        Some(x) => rows::labelled(ini::groups_spec(x@.dialect, x@.lines)),
        None => Seq::empty(),
    }
}

/// The Metamod rows of the document `mm_doc`, each binary looked up in the
/// listing of its folder, each folder listed once through `cache` (empty at
/// first); also gives the listing each entry's request got.
fn metamod_rows_of<H: HostApi>(
    host: &mut Recorded<H>,
    context: &ServerCtx,
    dir_cache: &mut DirCache,
    mm_doc: &Option<ini::Document>,
) -> (r: Result<(Vec<MetamodPluginEntry>, Ghost<Seq<Seq<Seq<char>>>>), HostApiError>)
    requires
        cache_view(old(dir_cache)@) == Seq::<(Seq<char>, Option<Seq<Seq<char>>>)>::empty(),
    ensures
        appended(old(host).calls@, final(host).calls@),
        r matches Ok((ps, ls)) ==> {
            let xsv = doc_entries(*mm_doc);
            let reqs = listing::requests(xsv);
            &&& ls@.len() == xsv.len()
            &&& listing::run(context.node_id, context.mod_abs@, reqs.take(xsv.len() as int), made(old(host).calls@, final(host).calls@)) == Some(ls@)
            &&& listing::cache_agrees(cache_view(final(dir_cache)@), reqs.take(xsv.len() as int), ls@)
            &&& ps@.map_values(|p: MetamodPluginEntry| rows::metamod_row_view(p)) == rows::metamod_rows_spec(xsv, listing::missing_of(xsv, ls@))
            &&& forall|i: int| 0 <= i < ps@.len() ==> ((#[trigger] ps@[i]).group_title is None ==> ps@[i].group_index == OTHER_GROUP)
            &&& forall|i: int| 0 <= i < ps@.len() ==> {
                let p = #[trigger] ps@[i];
                &&& p.file@ == paths::file_name_spec(paths::normalize_spec(p.path@))
                &&& p.system == goldsrc::is_amxx_loader_spec(paths::normalize_spec(p.path@))
            }
        },
        r matches Err(h) ==> made(old(host).calls@, final(host).calls@).len() > 0
            && answer_error(made(old(host).calls@, final(host).calls@).last()) == Some(h),
{
    let ghost c6 = host.calls@;
    match mm_doc {
        Some(doc) => {
            let groups = doc.groups();
            let xs = rows::label_entries(&groups);
            let (missing, ls) = match missing_binaries(host, context, dir_cache, &xs) {
                Ok(x) => x,
                Err(h) => return Err(h),
            };
            let ps = rows::metamod_rows(&xs, &missing);
            proof {
                rows::lemma_metamod_rows_props(rows::labelled_view(xs@), missing@);
                let v = ps@.map_values(|p: MetamodPluginEntry| rows::metamod_row_view(p));
                assert forall|i: int| 0 <= i < ps@.len() implies v[i] == rows::metamod_row_view(#[trigger] ps@[i]) by {}
            }
            Ok((ps, ls))
        },
        None => {
            let ghost reqs = listing::requests(Seq::<(ini::EntryModel, u32, Option<Seq<char>>)>::empty());
            proof {
                listing::lemma_run_start(context.node_id, context.mod_abs@, reqs);
                assert(made(c6, c6) =~= Seq::<HostCall>::empty());
                assert(c6.take(c6.len() as int) =~= c6);
                lemma_rows_empty_metamod(Seq::empty(), Seq::empty());
            }
            Ok((Vec::new(), Ghost(Seq::empty())))
        },
    }
}

/// No Metamod entries give no rows.
proof fn lemma_rows_empty_metamod(xs: Seq<(ini::EntryModel, u32, Option<Seq<char>>)>, ls: Seq<Seq<Seq<char>>>)
    ensures
        xs.len() == 0 ==> rows::metamod_rows_spec(xs, listing::missing_of(xs, ls)) == Seq::<rows::MetamodRowModel>::empty(),
{
}

/// The state of the server resolved to `context`.
#[verifier::rlimit(80)]
fn show_state<H: HostApi>(host: &mut Recorded<H>, context: &ServerCtx) -> (r: Result<StateResponse, ApiError>)
    requires
        text::eq_ci(context.engine@, "goldsource"@),
    ensures
        appended(old(host).calls@, final(host).calls@),
        r matches Ok(resp) ==> state_shown(*context, made(old(host).calls@, final(host).calls@), resp),
        r matches Err(e) ==> state_refused(*context, made(old(host).calls@, final(host).calls@), e),
        r matches Ok(resp) ==> {
            &&& resp.server_id == context.server_id
            &&& text::eq_ci(resp.engine@, "goldsource"@)
            &&& resp.paths.liblist@ == paths::join_spec(resp.mod_dir@, "liblist.gam"@)
            &&& resp.paths.amxx_dir@ == paths::join_spec(resp.mod_dir@, "addons/amxmodx"@)
            &&& resp.paths.amxx_plugins_ini@ == paths::join_spec(resp.mod_dir@, "addons/amxmodx/configs/plugins.ini"@)
            &&& resp.paths.amxx_plugins_dir@ == paths::join_spec(resp.mod_dir@, "addons/amxmodx/plugins"@)
            &&& resp.paths.amxx_configs_dir@ == paths::join_spec(resp.mod_dir@, "addons/amxmodx/configs"@)
            &&& forall|i: int| 0 <= i < resp.amxx.plugins@.len() ==> ((#[trigger] resp.amxx.plugins@[i]).group_title is None ==> resp.amxx.plugins@[i].group_index == OTHER_GROUP)
            &&& forall|i: int| 0 <= i < resp.amxx.plugins@.len() ==> ((#[trigger] resp.amxx.plugins@[i]).has_config <==> resp.amxx.plugins@[i].config_path is Some)
            &&& forall|i: int| 0 <= i < resp.metamod.plugins@.len() ==> ((#[trigger] resp.metamod.plugins@[i]).group_title is None ==> resp.metamod.plugins@[i].group_index == OTHER_GROUP)
            &&& forall|i: int| 0 <= i < resp.metamod.plugins@.len() ==> {
                let p = #[trigger] resp.metamod.plugins@[i];
                &&& p.file@ == paths::file_name_spec(paths::normalize_spec(p.path@))
                &&& p.system == goldsrc::is_amxx_loader_spec(paths::normalize_spec(p.path@))
            }
            &&& resp.amxx.registered_in_metamod == rows::loader_registered_spec(
                resp.metamod.plugins@.map_values(|p: MetamodPluginEntry| rows::metamod_row_view(p)),
            )
        },
{
    let ghost c1 = host.calls@;
    let reads = match read_state(host, context) {
        Ok(x) => x,
        Err(e) => return Err(e),
    };
    let ghost c6 = host.calls@;
    let ghost sr = reads;
    let StateReads { liblist, mm_dir, mm_installed, mm_dir_present, mm_ini_rel, mm_doc, amxx_installed, amxx_doc } = reads;
    proof { assert(c6.take(c6.len() as int) =~= c6); }
    let ghost node = context.node_id;
    let ghost base = context.mod_abs@;
    let ghost rd = reads_of(*context, made(c1, c6)).unwrap();
    let ghost xsv = metamod_entries(rd.3);
    let ghost reqs = listing::requests(xsv);
    let ghost mut ls: Seq<Seq<Seq<char>>> = Seq::empty();
    let mut dir_cache: DirCache = Vec::new();
    proof {
        listing::lemma_run_start(node, base, reqs);
        assert(made(c6, c6) =~= Seq::<HostCall>::empty());
        assert(cache_view(dir_cache@) =~= Seq::<(Seq<char>, Option<Seq<Seq<char>>>)>::empty());
        assert(reqs.len() == xsv.len() + 2);
        assert forall|i: int| 0 <= i < xsv.len() implies #[trigger] reqs[i] == listing::entry_dir(xsv[i]) by {}
        assert(reqs[xsv.len() as int] == Some(goldsrc::AMXX_PLUGINS_DIR@));
        assert(reqs[xsv.len() + 1int] == Some(goldsrc::AMXX_CONFIGS_DIR@));
    }

    let (metamod_plugins, found) = match metamod_rows_of(host, context, &mut dir_cache, &mm_doc) {
        Ok(x) => x,
        Err(h) => {
            proof {
                let u = made(c6, host.calls@);
                assert(u.last() == u[u.len() - 1]);
                lemma_failed_after(c1, c6, host.calls@, h);
            }
            return Err(ApiError::from(h));
        },
    };
    proof {
        ls = found@;
        assert(doc_entries(mm_doc) == xsv);
    }
    let ghost c7 = host.calls@;
    proof {
        ctx::lemma_made_concat(c1, c6, c7);
    }
    let registered_in_metamod = rows::loader_registered(&metamod_plugins);

    let ghost cv7 = cache_view(dir_cache@);
    let ghost ls7 = ls;
    let plugins_files = match list_dir_names(host, context, &mut dir_cache, goldsrc::AMXX_PLUGINS_DIR) {
        Ok(n) => n,
        Err(h) => {
            proof {
                let u = made(c7, host.calls@);
                assert(u.last() == u[u.len() - 1]);
                lemma_failed_after(c1, c7, host.calls@, h);
            }
            return Err(ApiError::from(h));
        },
    };
    let ghost c8 = host.calls@;
    proof {
        ctx::lemma_made_concat(c1, c7, c8);
        ctx::lemma_made_concat(c6, c7, c8);
        assert(made(c6, c8).take(made(c6, c7).len() as int) =~= made(c6, c7));
        assert(made(c6, c8).skip(made(c6, c7).len() as int) =~= made(c7, c8));
        listing::lemma_run_step(node, base, reqs, xsv.len() as int, made(c6, c7), ls, cv7,
            made(c6, c8), cache_view(dir_cache@), rows::names_view(plugins_files@));
        ls = ls.push(rows::names_view(plugins_files@));
    }
    let ghost cv8 = cache_view(dir_cache@);
    let configs_files = match list_dir_names(host, context, &mut dir_cache, goldsrc::AMXX_CONFIGS_DIR) {
        Ok(n) => n,
        Err(h) => {
            proof {
                let u = made(c8, host.calls@);
                assert(u.last() == u[u.len() - 1]);
                lemma_failed_after(c1, c8, host.calls@, h);
            }
            return Err(ApiError::from(h));
        },
    };
    let ghost c9 = host.calls@;
    proof {
        ctx::lemma_made_concat(c1, c8, c9);
        ctx::lemma_made_concat(c6, c8, c9);
        assert(made(c6, c9).take(made(c6, c8).len() as int) =~= made(c6, c8));
        assert(made(c6, c9).skip(made(c6, c8).len() as int) =~= made(c8, c9));
        listing::lemma_run_step(node, base, reqs, xsv.len() + 1int, made(c6, c8), ls, cv8,
            made(c6, c9), cache_view(dir_cache@), rows::names_view(configs_files@));
        ls = ls.push(rows::names_view(configs_files@));
        assert(reqs.take(xsv.len() + 2int) =~= reqs);
        ctx::lemma_made_concat(c1, c6, c9);
        assert(made(c1, c9).take(made(c1, c6).len() as int) =~= made(c1, c6));
        lemma_reads_extend(*context, made(c1, c6), made(c1, c9));
        assert(made(c1, c9).skip(made(c1, c6).len() as int) =~= made(c6, c9));
        assert(ls[xsv.len() as int] == rows::names_view(plugins_files@));
        assert(ls[xsv.len() + 1int] == rows::names_view(configs_files@));
        assert(listing::missing_of(xsv, ls) =~= listing::missing_of(xsv, ls7));
    }

    let mut amxx_plugins: Vec<AmxxPluginEntry> = Vec::new();
    if let Some(doc) = &amxx_doc {
        let groups = doc.groups();
        let xs = rows::label_entries(&groups);
        amxx_plugins = match rows::amxx_rows(&xs, &plugins_files, &configs_files, context.mod_dir.as_str()) {
            Ok(v) => v,
            Err(e) => {
                proof {
                    assert(rows::amxx_rows_spec(rows::labelled(ini::groups_spec(ini::Dialect::Amxx, doc@.lines)),
                        rows::names_view(plugins_files@), rows::names_view(configs_files@), context.mod_dir@) is None);
                }
                return Err(e);
            },
        };
        proof {
            rows::lemma_amxx_rows_labels(rows::labelled_view(xs@), rows::names_view(plugins_files@), rows::names_view(configs_files@), context.mod_dir@);
            let v = amxx_plugins@.map_values(|p: AmxxPluginEntry| rows::amxx_row_view(p));
            assert forall|i: int| 0 <= i < amxx_plugins@.len() implies v[i] == rows::amxx_row_view(#[trigger] amxx_plugins@[i]) by {}
            assert(rows::amxx_rows_spec(rows::labelled(ini::groups_spec(ini::Dialect::Amxx, doc@.lines)),
                rows::names_view(plugins_files@), rows::names_view(configs_files@), context.mod_dir@) == Some(v));
        }
    }

    let paths = StatePaths {
        liblist: context.rel(goldsrc::LIBLIST_FILE),
        metamod_dir: context.rel(mm_dir.as_str()),
        metamod_plugins_ini: context.rel(mm_ini_rel.as_str()),
        amxx_dir: context.rel(goldsrc::AMXX_DIR),
        amxx_plugins_ini: context.rel(goldsrc::AMXX_PLUGINS_INI),
        amxx_plugins_dir: context.rel(goldsrc::AMXX_PLUGINS_DIR),
        amxx_configs_dir: context.rel(goldsrc::AMXX_CONFIGS_DIR),
    };
    let resp = StateResponse {
        server_id: context.server_id,
        game_code: context.game_code.clone(),
        engine: context.engine.clone(),
        mod_dir: context.mod_dir.clone(),
        paths,
        metamod: MetamodState {
            installed: mm_installed,
            dir_present: mm_dir_present,
            plugins_ini_exists: mm_doc.is_some(),
            plugins: metamod_plugins,
        },
        amxx: AmxxState {
            installed: amxx_installed,
            registered_in_metamod,
            plugins_ini_exists: amxx_doc.is_some(),
            plugins: amxx_plugins,
        },
    };
    proof {
        let u = made(c1, host.calls@);
        assert(reads_of(*context, u) == Some(rd));
        assert(rd.0 == made(c1, c6).len());
        assert(listing::run(context.node_id, context.mod_abs@, listing::requests(metamod_entries(rd.3)), u.skip(rd.0 as int)) == Some(ls));
        assert(resp.metamod.plugins_ini_exists == rd.3 is Some);
        assert(resp.amxx.plugins_ini_exists == rd.5 is Some);
        assert(resp.paths.metamod_dir@ == paths::join_spec(context.mod_dir@, metamod_dir_spec(rd.1).0));
        assert(rows_shown(*context, rd.3, rd.5, ls, resp));
    }
    Ok(resp)
}

} // verus!

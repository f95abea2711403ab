//! Laws of locating a server's mod folder: the folder its game is known to
//! use wins whenever it holds liblist.gam.

use vstd::prelude::*;

use crate::goldsrc::moddir;
use crate::handlers::ctx::{missed_probe, mod_dir_result, probe_path, probe_result, resolve_spec, says_file, scan_spec, ServerCtx};
use crate::host_api::{DirEntry, FileStat, HostApiError, HostCall};
use crate::http::ApiError;

verus! {

/// When the probe of the known folder `h` finds liblist.gam as a file, the
/// search ends there with `h`, whatever other folders the server holds: that
/// probe alone is a whole search, and no search that begins with it ends
/// anywhere else.
pub proof fn law_known_folder_wins(node: u64, root: Seq<char>, h: Seq<char>, st: FileStat, u: Seq<HostCall>)
    requires
        !st.is_dir,
        u.len() > 0,
        u[0] == HostCall::Stat(node, probe_path(root, h), Ok::<Option<FileStat>, HostApiError>(Some(st))),
    ensures
        mod_dir_result(node, root, Some(h), seq![u[0]]) == Some(Ok::<Option<Seq<char>>, HostApiError>(Some(h))),
        mod_dir_result(node, root, Some(h), u) is Some ==> u.len() == 1
            && mod_dir_result(node, root, Some(h), u) == Some(Ok::<Option<Seq<char>>, HostApiError>(Some(h))),
{
}

/// A server whose game has a known mod folder, and whose first probe after
/// the panel lookups finds liblist.gam there as a file, resolves to that
/// folder.
pub proof fn law_resolved_to_known_folder(id: u64, t: Seq<HostCall>, c: ServerCtx)
    requires
        resolve_spec(id, t, Ok::<ServerCtx, ApiError>(c)),
        moddir::known_mod_dir_spec(c.game_code@) is Some,
        t.len() > 3,
        t[3] matches HostCall::Stat(_, _, a) && (a matches Ok(Some(st)) && !st.is_dir),
    ensures
        c.mod_dir@ == moddir::known_mod_dir_spec(c.game_code@).unwrap(),
{
    assert(t.skip(3)[0] == t[3]);
}

/// The names of the directories of a listing, in listing order.
pub open spec fn dir_names(es: Seq<DirEntry>) -> Seq<Seq<char>>
    decreases es.len(),
{
    if es.len() == 0 {
        Seq::empty()
    } else if es[0].is_dir {
        seq![es[0].name@] + dir_names(es.drop_first())
    } else {
        dir_names(es.drop_first())
    }
}

/// The first `n` items of `s` (all of them when it has fewer).
pub open spec fn first_n(s: Seq<Seq<char>>, n: nat) -> Seq<Seq<char>>
    decreases s.len(),
{
    if n == 0 || s.len() == 0 {
        Seq::empty()
    } else {
        seq![s[0]] + first_n(s.drop_first(), (n - 1) as nat)
    }
}

/// `s` with every `h` left out, the rest in order.
pub open spec fn without(s: Seq<Seq<char>>, h: Seq<char>) -> Seq<Seq<char>>
    decreases s.len(),
{
    if s.len() == 0 {
        Seq::empty()
    } else if s[0] == h {
        without(s.drop_first(), h)
    } else {
        seq![s[0]] + without(s.drop_first(), h)
    }
}

proof fn lemma_scan_plain(es: Seq<DirEntry>, i: nat, seen: nat)
    requires
        i <= es.len(),
        seen <= 16,
    ensures
        scan_spec(None, es, i, seen) == first_n(dir_names(es.skip(i as int)), (16 - seen) as nat),
    decreases es.len() - i,
{
    let rest = es.skip(i as int);
    if i < es.len() {
        assert(rest[0] == es[i as int]);
        assert(rest.drop_first() =~= es.skip(i + 1int));
        if seen < 16 {
            if es[i as int].is_dir {
                lemma_scan_plain(es, i + 1, seen + 1);
                let ns = dir_names(rest);
                assert(ns == seq![es[i as int].name@] + dir_names(es.skip(i + 1int)));
                assert(ns[0] == es[i as int].name@);
                assert(ns.drop_first() =~= dir_names(es.skip(i + 1int)));
            } else {
                lemma_scan_plain(es, i + 1, seen);
            }
        }
    } else {
        assert(rest.len() == 0);
    }
}

proof fn lemma_scan_known(h: Seq<char>, es: Seq<DirEntry>, i: nat, seen: nat)
    ensures
        scan_spec(Some(h), es, i, seen) == without(scan_spec(None, es, i, seen), h),
    decreases es.len() - i,
{
    if i < es.len() && seen < 16 {
        if es[i as int].is_dir {
            lemma_scan_known(h, es, i + 1, seen + 1);
            let s = seq![es[i as int].name@] + scan_spec(None, es, i + 1, seen + 1);
            assert(s[0] == es[i as int].name@);
            assert(s.drop_first() =~= scan_spec(None, es, i + 1, seen + 1));
        } else {
            lemma_scan_known(h, es, i + 1, seen);
        }
    }
}

/// The folders probed after the known one are the directories of the server
/// root's listing, in listing order, the first 16 of them, with the known
/// folder left out (it was probed first).
pub proof fn law_scan_order(hint: Option<Seq<char>>, es: Seq<DirEntry>)
    ensures
        scan_spec(hint, es, 0, 0) == match hint {
            None => first_n(dir_names(es), 16),
            Some(h) => without(first_n(dir_names(es), 16), h),
        },
{
    lemma_scan_plain(es, 0, 0);
    assert(es.skip(0) =~= es);
    if let Some(h) = hint {
        lemma_scan_known(h, es, 0, 0);
    }
}

/// Probing candidate folders in order stops at the first whose liblist.gam
/// is a file: a search that found folder `d` probed the candidates before it
/// and missed, then probed `d` and found it; a search that found nothing
/// probed every candidate and missed.
pub proof fn law_first_found_wins(node: u64, root: Seq<char>, cands: Seq<Seq<char>>, u: Seq<HostCall>)
    ensures
        probe_result(node, root, cands, u) matches Some(Ok(Some(d))) ==> {
            &&& 1 <= u.len() <= cands.len()
            &&& d == cands[u.len() - 1]
            &&& u.last() matches HostCall::Stat(n, p, a) && n == node && p == probe_path(root, d) && says_file(a)
            &&& forall|j: int| 0 <= j < u.len() - 1 ==> missed_probe(#[trigger] u[j], node, root, cands[j])
        },
        probe_result(node, root, cands, u) == Some(Ok::<Option<Seq<char>>, HostApiError>(None)) ==> {
            &&& u.len() == cands.len()
            &&& forall|j: int| 0 <= j < u.len() ==> missed_probe(#[trigger] u[j], node, root, cands[j])
        },
    decreases cands.len(),
{
    if cands.len() > 0 && u.len() > 0 {
        law_first_found_wins(node, root, cands.drop_first(), u.drop_first());
        assert forall|j: int| 1 <= j < u.len() && j < cands.len() implies u[j] == u.drop_first()[j - 1] && cands[j] == cands.drop_first()[j - 1] by {}
    }
}

} // verus!

//! The folder listings the state route asks the node for: each folder is
//! listed once, at its first request, and later requests reuse that listing.

use vstd::prelude::*;

use crate::goldsrc::ini::{EntryModel, FieldsModel};
use crate::goldsrc::{self, paths};
use crate::host_api::{DirEntry, HostApiError, HostCall};

verus! {

/// Index of the first cached listing of `dir` at or after `i`.
pub open spec fn cache_find(cv: Seq<(Seq<char>, Option<Seq<Seq<char>>>)>, dir: Seq<char>, i: nat) -> Option<nat>
    decreases cv.len() - i,
{
    if i >= cv.len() {
        None
    } else if cv[i as int].0 == dir {
        Some(i)
    } else {
        cache_find(cv, dir, i + 1)
    }
}

/// The names of a listing (none for a missing directory).
pub open spec fn listed(l: Option<Seq<Seq<char>>>) -> Seq<Seq<char>> {
    match l {
        Some(n) => n,
        None => Seq::empty(),
    }
}

/// The names of the files (not folders) among `es`, in order.
pub open spec fn file_names(es: Seq<DirEntry>) -> Seq<Seq<char>>
    decreases es.len(),
{
    if es.len() == 0 {
        Seq::empty()
    } else if es.last().is_dir {
        file_names(es.drop_last())
    } else {
        file_names(es.drop_last()).push(es.last().name@)
    }
}

/// What a folder listing answer says: the folder's file names, `None` when
/// the folder is missing.
pub open spec fn listing_of(a: Option<Vec<DirEntry>>) -> Option<Seq<Seq<char>>> {
    match a {
        Some(v) => Some(file_names(v@)),
        None => None,
    }
}

/// One lookup of the folder `dir` (relative to `base`) through the cache
/// `cv0`, leaving the cache `cv1` and making the calls `u`: a cached folder
/// is answered from the cache with no call; another is listed on `node`, and
/// its listing is added to the cache, unless the call failed.
pub open spec fn listing_step(
    node: u64,
    base: Seq<char>,
    cv0: Seq<(Seq<char>, Option<Seq<Seq<char>>>)>,
    cv1: Seq<(Seq<char>, Option<Seq<Seq<char>>>)>,
    u: Seq<HostCall>,
    dir: Seq<char>,
    r: Result<Seq<Seq<char>>, HostApiError>,
) -> bool {
    match cache_find(cv0, dir, 0) {
        Some(i) => u.len() == 0 && cv1 == cv0 && r == Ok::<Seq<Seq<char>>, HostApiError>(listed(cv0[i as int].1)),
        None => u.len() == 1 && match u[0] {
            HostCall::ReadDir(n, p, a) => n == node && p == paths::join_spec(base, dir) && match a {
                Err(h) => cv1 == cv0 && r == Err::<Seq<Seq<char>>, HostApiError>(h),
                Ok(x) => cv1 == cv0.push((dir, listing_of(x))) && r == Ok::<Seq<Seq<char>>, HostApiError>(listed(listing_of(x))),
            },
            _ => false,
        },
    }
}

/// The folder `d` is among the requests `reqs`.
pub open spec fn seen(reqs: Seq<Option<Seq<char>>>, d: Seq<char>) -> bool {
    exists|j: int| 0 <= j < reqs.len() && #[trigger] reqs[j] == Some(d)
}

/// The first request of the folder `d` among `reqs`.
pub open spec fn first_req(reqs: Seq<Option<Seq<char>>>, d: Seq<char>) -> int
    decreases reqs.len(),
{
    if reqs.len() == 0 {
        0
    } else if seen(reqs.drop_last(), d) {
        first_req(reqs.drop_last(), d)
    } else {
        reqs.len() - 1
    }
}

/// What the folder requests `reqs` got, one listing per request, given the
/// calls `u` that served them: each folder (relative to `base`) is listed on
/// `node` at its first request and later requests reuse that listing; a
/// request of `None` asks for nothing and gets no names. `None` when `u` are
/// not those calls.
pub open spec fn run(node: u64, base: Seq<char>, reqs: Seq<Option<Seq<char>>>, u: Seq<HostCall>) -> Option<Seq<Seq<Seq<char>>>>
    decreases reqs.len(),
{
    if reqs.len() == 0 {
        if u.len() == 0 {
            Some(Seq::empty())
        } else {
            None
        }
    } else {
        let pre = reqs.drop_last();
        match reqs.last() {
            None => match run(node, base, pre, u) {
                Some(ls) => Some(ls.push(Seq::empty())),
                None => None,
            },
            Some(d) => if seen(pre, d) {
                match run(node, base, pre, u) {
                    Some(ls) => Some(ls.push(ls[first_req(pre, d)])),
                    None => None,
                }
            } else if u.len() == 0 {
                None
            } else {
                match u.last() {
                    HostCall::ReadDir(n, p, a) => if n == node && p == paths::join_spec(base, d) {
                        match a {
                            Ok(x) => match run(node, base, pre, u.drop_last()) {
                                Some(ls) => Some(ls.push(listed(listing_of(x)))),
                                None => None,
                            },
                            Err(_) => None,
                        }
                    } else {
                        None
                    },
                    _ => None,
                }
            },
        }
    }
}

/// The requests `reqs` ran on the calls before the last one, and the last
/// one, the first listing of a folder, failed; `e` is its error.
pub open spec fn run_failed(node: u64, base: Seq<char>, reqs: Seq<Option<Seq<char>>>, u: Seq<HostCall>, h: HostApiError) -> bool {
    &&& u.len() > 0
    &&& exists|k: int|
        #![trigger run(node, base, reqs.take(k), u.drop_last())]
        0 <= k < reqs.len() && run(node, base, reqs.take(k), u.drop_last()) is Some
            && (reqs[k] matches Some(d) && !seen(reqs.take(k), d)
            && u.last() == HostCall::ReadDir(node, paths::join_spec(base, d), Err::<Option<Vec<DirEntry>>, HostApiError>(h)))
}

/// The cache `cv` holds exactly the folders requested among `reqs`, each
/// with the listing its first request got among `ls`.
pub open spec fn cache_agrees(cv: Seq<(Seq<char>, Option<Seq<Seq<char>>>)>, reqs: Seq<Option<Seq<char>>>, ls: Seq<Seq<Seq<char>>>) -> bool {
    &&& forall|d: Seq<char>| #![trigger cache_find(cv, d, 0)] #![trigger seen(reqs, d)] (cache_find(cv, d, 0) is Some) == seen(reqs, d)
    &&& forall|d: Seq<char>| #[trigger] cache_find(cv, d, 0) matches Some(i) ==> i < cv.len() && listed(cv[i as int].1) == ls[first_req(reqs, d)]
}

/// The directory part of a mod-relative file path (before its last '/').
pub open spec fn parent_of(f: Seq<char>) -> Seq<char> {
    let k = goldsrc::amxxpc::last_index(f, '/');
    if k >= 0 { f.take(k) } else { Seq::empty() }
}

/// The file name part of a mod-relative file path (after its last '/').
pub open spec fn base_of(f: Seq<char>) -> Seq<char> {
    let k = goldsrc::amxxpc::last_index(f, '/');
    if k >= 0 { f.skip(k + 1) } else { f }
}

/// The folder the state route lists for a labelled ini entry: that of a
/// Metamod binary; none for an AMX Mod X entry.
pub open spec fn entry_dir(x: (EntryModel, u32, Option<Seq<char>>)) -> Option<Seq<char>> {
    match x.0.fields {
        FieldsModel::Metamod { path, .. } => Some(parent_of(paths::normalize_spec(path))),
        FieldsModel::Amxx { .. } => None,
    }
}

/// Whether the binary of a labelled Metamod entry is missing from the
/// listing `l` of its folder (an AMX Mod X entry never is).
pub open spec fn missing_flag(x: (EntryModel, u32, Option<Seq<char>>), l: Seq<Seq<char>>) -> bool {
    match x.0.fields {
        FieldsModel::Metamod { path, .. } => !l.contains(base_of(paths::normalize_spec(path))),
        FieldsModel::Amxx { .. } => false,
    }
}

/// The folder requests of the state route: one per Metamod ini entry, then
/// AMX Mod X's plugins and configs folders.
pub open spec fn requests(xs: Seq<(EntryModel, u32, Option<Seq<char>>)>) -> Seq<Option<Seq<char>>> {
    xs.map_values(|x: (EntryModel, u32, Option<Seq<char>>)| entry_dir(x))
        + seq![Some(goldsrc::AMXX_PLUGINS_DIR@), Some(goldsrc::AMXX_CONFIGS_DIR@)]
}

/// The missing flags of the Metamod entries `xs`, given the listing each
/// request got.
pub open spec fn missing_of(xs: Seq<(EntryModel, u32, Option<Seq<char>>)>, ls: Seq<Seq<Seq<char>>>) -> Seq<bool> {
    Seq::new(xs.len(), |i: int| missing_flag(xs[i], ls[i]))
}

pub proof fn lemma_run_len(node: u64, base: Seq<char>, reqs: Seq<Option<Seq<char>>>, u: Seq<HostCall>)
    ensures
        run(node, base, reqs, u) matches Some(ls) ==> ls.len() == reqs.len(),
    decreases reqs.len(),
{
    if reqs.len() > 0 {
        lemma_run_len(node, base, reqs.drop_last(), u);
        if u.len() > 0 {
            lemma_run_len(node, base, reqs.drop_last(), u.drop_last());
        }
    }
}

proof fn lemma_first_req(reqs: Seq<Option<Seq<char>>>, d: Seq<char>)
    requires
        seen(reqs, d),
    ensures
        0 <= first_req(reqs, d) < reqs.len(),
        reqs[first_req(reqs, d)] == Some(d),
    decreases reqs.len(),
{
    if seen(reqs.drop_last(), d) {
        lemma_first_req(reqs.drop_last(), d);
    } else {
        let j = choose|j: int| 0 <= j < reqs.len() && #[trigger] reqs[j] == Some(d);
        if j < reqs.len() - 1 {
            assert(reqs.drop_last()[j] == Some(d));
        }
    }
}

proof fn lemma_seen_push(reqs: Seq<Option<Seq<char>>>, x: Option<Seq<char>>, d: Seq<char>)
    ensures
        seen(reqs.push(x), d) == (seen(reqs, d) || x == Some(d)),
        reqs.push(x).drop_last() == reqs,
        seen(reqs, d) ==> first_req(reqs.push(x), d) == first_req(reqs, d),
        !seen(reqs, d) && x == Some(d) ==> first_req(reqs.push(x), d) == reqs.len(),
{
    assert(reqs.push(x).drop_last() =~= reqs);
    if seen(reqs, d) {
        let j = choose|j: int| 0 <= j < reqs.len() && #[trigger] reqs[j] == Some(d);
        assert(reqs.push(x)[j] == Some(d));
    }
    if x == Some(d) {
        assert(reqs.push(x)[reqs.len() as int] == Some(d));
    }
    if seen(reqs.push(x), d) && x != Some(d) {
        let j = choose|j: int| 0 <= j < reqs.push(x).len() && #[trigger] reqs.push(x)[j] == Some(d);
        assert(reqs[j] == Some(d));
    }
}

proof fn lemma_cache_find_push_any(cv: Seq<(Seq<char>, Option<Seq<Seq<char>>>)>, x: (Seq<char>, Option<Seq<Seq<char>>>), d: Seq<char>, j: nat)
    requires
        j <= cv.len(),
    ensures
        cache_find(cv.push(x), d, j) == match cache_find(cv, d, j) {
            Some(i) => Some(i),
            None => if x.0 == d { Some(cv.len()) } else { None },
        },
    decreases cv.len() - j,
{
    if j < cv.len() {
        assert(cv.push(x)[j as int] == cv[j as int]);
        lemma_cache_find_push_any(cv, x, d, j + 1);
    } else {
        assert(cv.push(x)[cv.len() as int] == x);
        assert(cache_find(cv.push(x), d, j + 1) is None);
    }
}

proof fn lemma_cache_find_found(cv: Seq<(Seq<char>, Option<Seq<Seq<char>>>)>, d: Seq<char>, j: nat)
    ensures
        cache_find(cv, d, j) matches Some(i) ==> j <= i < cv.len() && cv[i as int].0 == d,
    decreases cv.len() - j,
{
    if j < cv.len() && cv[j as int].0 != d {
        lemma_cache_find_found(cv, d, j + 1);
    }
}

/// With nothing asked yet, the empty cache agrees.
pub proof fn lemma_run_start(node: u64, base: Seq<char>, reqs: Seq<Option<Seq<char>>>)
    ensures
        run(node, base, reqs.take(0), Seq::empty()) == Some(Seq::<Seq<Seq<char>>>::empty()),
        cache_agrees(Seq::empty(), reqs.take(0), Seq::empty()),
{
    assert(reqs.take(0) =~= Seq::<Option<Seq<char>>>::empty());
    assert forall|d: Seq<char>| (cache_find(Seq::empty(), d, 0) is Some) == seen(reqs.take(0), d) by {}
}

/// One more request served through the cache extends the run.
pub proof fn lemma_run_step(
    node: u64,
    base: Seq<char>,
    reqs: Seq<Option<Seq<char>>>,
    k: int,
    u: Seq<HostCall>,
    ls: Seq<Seq<Seq<char>>>,
    cv: Seq<(Seq<char>, Option<Seq<Seq<char>>>)>,
    u2: Seq<HostCall>,
    cv2: Seq<(Seq<char>, Option<Seq<Seq<char>>>)>,
    res: Seq<Seq<char>>,
)
    requires
        0 <= k < reqs.len(),
        run(node, base, reqs.take(k), u) == Some(ls),
        cache_agrees(cv, reqs.take(k), ls),
        u.len() <= u2.len(),
        u2.take(u.len() as int) == u,
        match reqs[k] {
            None => u2 == u && cv2 == cv && res == Seq::<Seq<char>>::empty(),
            Some(d) => listing_step(node, base, cv, cv2, u2.skip(u.len() as int), d, Ok::<Seq<Seq<char>>, HostApiError>(res)),
        },
    ensures
        run(node, base, reqs.take(k + 1), u2) == Some(ls.push(res)),
        cache_agrees(cv2, reqs.take(k + 1), ls.push(res)),
{
    let pre = reqs.take(k);
    let x = reqs[k];
    assert(reqs.take(k + 1) =~= pre.push(x));
    lemma_run_len(node, base, pre, u);
    assert forall|d: Seq<char>| true implies #[trigger] seen(pre.push(x), d) == (seen(pre, d) || x == Some(d)) by {
        lemma_seen_push(pre, x, d);
    }
    match x {
        None => {
            assert(pre.push(x).drop_last() =~= pre);
            assert forall|d: Seq<char>| true implies (#[trigger] cache_find(cv2, d, 0) matches Some(i) ==> i < cv2.len()
                && listed(cv2[i as int].1) == ls.push(res)[first_req(pre.push(x), d)]) by {
                lemma_seen_push(pre, x, d);
                if seen(pre, d) {
                    lemma_first_req(pre, d);
                }
            }
        },
        Some(d0) => {
            assert(pre.push(x).drop_last() =~= pre);
            match cache_find(cv, d0, 0) {
                Some(i0) => {
                    assert(u2.skip(u.len() as int).len() == 0);
                    assert(u2 =~= u);
                    lemma_first_req(pre, d0);
                    assert forall|d: Seq<char>| true implies (#[trigger] cache_find(cv2, d, 0) matches Some(i) ==> i < cv2.len()
                        && listed(cv2[i as int].1) == ls.push(res)[first_req(pre.push(x), d)]) by {
                        lemma_seen_push(pre, x, d);
                        if seen(pre, d) {
                            lemma_first_req(pre, d);
                        }
                    }
                },
                None => {
                    let c = u2.skip(u.len() as int)[0];
                    assert(u2 =~= u.push(c));
                    assert(u2.drop_last() =~= u);
                    assert(!seen(pre, d0));
                    let e = cv2[cv.len() as int];
                    assert(cv2 =~= cv.push(e));
                    assert forall|d: Seq<char>| true implies #[trigger] cache_find(cv2, d, 0) == match cache_find(cv, d, 0) {
                        Some(i) => Some(i),
                        None => if d0 == d { Some(cv.len()) } else { None },
                    } by {
                        lemma_cache_find_push_any(cv, e, d, 0);
                    }
                    assert forall|d: Seq<char>| true implies (#[trigger] cache_find(cv2, d, 0) matches Some(i) ==> i < cv2.len()
                        && listed(cv2[i as int].1) == ls.push(res)[first_req(pre.push(x), d)]) by {
                        lemma_seen_push(pre, x, d);
                        lemma_cache_find_push_any(cv, e, d, 0);
                        if seen(pre, d) {
                            lemma_first_req(pre, d);
                        }
                    }
                },
            }
        },
    }
}

/// After the state route's loop over the Metamod entries, the flags it
/// gathered are the missing flags of the run.
pub proof fn lemma_missing(xs: Seq<(EntryModel, u32, Option<Seq<char>>)>, ls: Seq<Seq<Seq<char>>>, missing: Seq<bool>)
    requires
        missing.len() == xs.len(),
        forall|i: int| 0 <= i < xs.len() ==> #[trigger] missing[i] == missing_flag(xs[i], ls[i]),
    ensures
        missing == missing_of(xs, ls),
{
    assert(missing =~= missing_of(xs, ls));
}

} // verus!

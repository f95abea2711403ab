//! Route table and matching. The matcher mirrors the host's `matchPath`
//! (segment-wise comparison, `{name}` captures, first match wins), so the
//! declared table stays the single source of truth.

use vstd::prelude::*;

use crate::text::{self, chars_of, push_range, skip_leading, string_from_chars, strip_trailing};

verus! {

#[derive(Clone, Copy, PartialEq, Eq, Debug, Structural)]
pub enum RouteId {
    State,
    TogglePlugin,
    SetAttributes,
    AddPlugin,
    RemovePlugin,
}

pub struct RouteDef {
    pub id: RouteId,
    pub method: &'static str,
    pub pattern: &'static str,
    pub description: &'static str,
}

/// The declared routes: id, method, pattern.
pub open spec fn routes_spec() -> Seq<(RouteId, Seq<char>, Seq<char>)> {
    seq![
        (RouteId::State, "GET"@, "/servers/{id}/state"@),
        (RouteId::TogglePlugin, "POST"@, "/servers/{id}/{platform}/plugins/toggle"@),
        (RouteId::SetAttributes, "POST"@, "/servers/{id}/{platform}/plugins/attributes"@),
        (RouteId::AddPlugin, "POST"@, "/servers/{id}/{platform}/plugins"@),
        (RouteId::RemovePlugin, "DELETE"@, "/servers/{id}/{platform}/plugins"@),
    ]
}

/// What each route does, as announced to the host.
pub open spec fn route_description(id: RouteId) -> Seq<char> {
    match id {
        RouteId::State => "Metamod/AMXX state of a GoldSource server"@,
        RouteId::TogglePlugin => "Enable or disable a plugins.ini entry"@,
        RouteId::SetAttributes => "Set a plugins.ini entry's debug flag and inline comment"@,
        RouteId::AddPlugin => "Register an uploaded plugin file in plugins.ini"@,
        RouteId::RemovePlugin => "Remove a plugins.ini entry and delete the plugin file"@,
    }
}

pub fn routes() -> (r: Vec<RouteDef>)
    ensures
        r@.len() == routes_spec().len(),
        forall|i: int| 0 <= i < r@.len() ==> (#[trigger] r@[i]).id == routes_spec()[i].0 && r@[i].method@
            == routes_spec()[i].1 && r@[i].pattern@ == routes_spec()[i].2
            && r@[i].description@ == route_description(r@[i].id),
{
    vec![
        RouteDef {
            id: RouteId::State,
            method: "GET",
            pattern: "/servers/{id}/state",
            description: "Metamod/AMXX state of a GoldSource server",
        },
        RouteDef {
            id: RouteId::TogglePlugin,
            method: "POST",
            pattern: "/servers/{id}/{platform}/plugins/toggle",
            description: "Enable or disable a plugins.ini entry",
        },
        RouteDef {
            id: RouteId::SetAttributes,
            method: "POST",
            pattern: "/servers/{id}/{platform}/plugins/attributes",
            description: "Set a plugins.ini entry's debug flag and inline comment",
        },
        RouteDef {
            id: RouteId::AddPlugin,
            method: "POST",
            pattern: "/servers/{id}/{platform}/plugins",
            description: "Register an uploaded plugin file in plugins.ini",
        },
        RouteDef {
            id: RouteId::RemovePlugin,
            method: "DELETE",
            pattern: "/servers/{id}/{platform}/plugins",
            description: "Remove a plugins.ini entry and delete the plugin file",
        },
    ]
}

/// The '/'-separated segments of a path with its outer slashes trimmed.
pub open spec fn segments(s: Seq<char>) -> Seq<Seq<char>> {
    text::split_by(text::trim_end_by(text::trim_start_by(s, '/'), '/'), '/')
}

/// The name of a `{name}` capture segment.
pub open spec fn capture_name(p: Seq<char>) -> Option<Seq<char>> {
    if p.len() >= 2 && p[0] == '{' && p.last() == '}' {
        Some(p.subrange(1, p.len() - 1))
    } else {
        None
    }
}

/// Segment-wise match: equal counts, literal segments equal, captures bound
/// in order.
pub open spec fn match_segments(ps: Seq<Seq<char>>, xs: Seq<Seq<char>>) -> Option<Seq<(Seq<char>, Seq<char>)>>
    decreases ps.len(),
{
    if ps.len() != xs.len() {
        None
    } else if ps.len() == 0 {
        Some(Seq::empty())
    } else {
        match match_segments(ps.drop_last(), xs.drop_last()) {
            None => None,
            Some(acc) => match capture_name(ps.last()) {
                Some(n) => Some(acc.push((n, xs.last()))),
                None => if ps.last() == xs.last() {
                    Some(acc)
                } else {
                    None
                },
            },
        }
    }
}

pub open spec fn match_pattern_spec(pattern: Seq<char>, path: Seq<char>) -> Option<Seq<(Seq<char>, Seq<char>)>> {
    match_segments(segments(pattern), segments(path))
}

/// The first route whose method (ignoring ASCII case) and pattern match.
pub open spec fn match_route_spec(
    table: Seq<(RouteId, Seq<char>, Seq<char>)>,
    method: Seq<char>,
    path: Seq<char>,
) -> Option<(RouteId, Seq<(Seq<char>, Seq<char>)>)>
    decreases table.len(),
{
    if table.len() == 0 {
        None
    } else {
        let (id, m, p) = table[0];
        if text::eq_ci(m, method) && match_pattern_spec(p, path) is Some {
            Some((id, match_pattern_spec(p, path).unwrap()))
        } else {
            match_route_spec(table.drop_first(), method, path)
        }
    }
}

pub open spec fn params_view(ps: Seq<(String, String)>) -> Seq<(Seq<char>, Seq<char>)> {
    ps.map_values(|p: (String, String)| (p.0@, p.1@))
}

/// `s` split at every '/'.
fn split_segments(v: &Vec<char>, from: usize, to: usize) -> (r: Vec<Vec<char>>)
    requires
        from <= to <= v.len(),
    ensures
        r@.map_values(|x: Vec<char>| x@) == text::split_by(v@.subrange(from as int, to as int), '/'),
{
    let ghost s = v@.subrange(from as int, to as int);
    let mut out: Vec<Vec<char>> = Vec::new();
    let mut start = from;
    let mut k = from;
    assert(s.take(0) =~= Seq::<char>::empty());
    assert(v@.subrange(from as int, from as int) =~= Seq::<char>::empty());
    assert(out@.map_values(|x: Vec<char>| x@) =~= Seq::<Seq<char>>::empty());
    assert(text::split_by(s.take(0), '/') =~= seq![Seq::<char>::empty()]);
    assert(Seq::<Seq<char>>::empty().push(Seq::<char>::empty()) =~= seq![Seq::<char>::empty()]);
    while k < to
        invariant
            from <= start <= k <= to <= v.len(),
            s == v@.subrange(from as int, to as int),
            text::split_by(s.take(k - from), '/') == out@.map_values(|x: Vec<char>| x@).push(v@.subrange(start as int, k as int)),
        decreases to - k,
    {
        assert(s.take(k + 1 - from).drop_last() =~= s.take(k - from));
        assert(s.take(k + 1 - from).last() == v@[k as int]);
        if v[k] == '/' {
            let ghost prev = out@.map_values(|x: Vec<char>| x@);
            let mut seg: Vec<char> = Vec::new();
            push_range(&mut seg, v, start, k);
            out.push(seg);
            assert(out@.map_values(|x: Vec<char>| x@) =~= prev.push(v@.subrange(start as int, k as int)));
            start = k + 1;
            assert(v@.subrange(start as int, k + 1) =~= Seq::<char>::empty());
        } else {
            assert(v@.subrange(start as int, k + 1) =~= v@.subrange(start as int, k as int).push(v@[k as int]));
        }
        k += 1;
    }
    assert(s.take(to - from) =~= s);
    let ghost prev = out@.map_values(|x: Vec<char>| x@);
    let mut seg: Vec<char> = Vec::new();
    push_range(&mut seg, v, start, to);
    out.push(seg);
    assert(out@.map_values(|x: Vec<char>| x@) =~= prev.push(v@.subrange(start as int, to as int)));
    out
}

fn segments_of(s: &str) -> (r: Vec<Vec<char>>)
    ensures
        r@.map_values(|x: Vec<char>| x@) == segments(s@),
{
    let v = chars_of(s);
    let a = skip_leading(&v, '/');
    let mut w: Vec<char> = Vec::new();
    push_range(&mut w, &v, a, v.len());
    assert(w@ =~= v@.skip(a as int));
    let b = strip_trailing(&w, '/');
    assert(w@.subrange(0, b as int) =~= w@.take(b as int));
    split_segments(&w, 0, b)
}

fn vec_eq(a: &Vec<char>, b: &Vec<char>) -> (r: bool)
    ensures
        r == (a@ == b@),
{
    if a.len() != b.len() {
        return false;
    }
    let mut i: usize = 0;
    while i < a.len()
        invariant
            i <= a.len() == b.len(),
            forall|j: int| 0 <= j < i ==> a@[j] == b@[j],
        decreases a.len() - i,
    {
        if a[i] != b[i] {
            assert(a@[i as int] != b@[i as int]);
            return false;
        }
        i += 1;
    }
    assert(a@ =~= b@);
    true
}

fn match_pattern(pattern: &str, path: &str) -> (r: Option<Vec<(String, String)>>)
    ensures
        match r {
            Some(ps) => match_pattern_spec(pattern@, path@) == Some(params_view(ps@)),
            None => match_pattern_spec(pattern@, path@) is None,
        },
{
    let ps = segments_of(pattern);
    let xs = segments_of(path);
    let ghost pv = ps@.map_values(|x: Vec<char>| x@);
    let ghost xv = xs@.map_values(|x: Vec<char>| x@);
    if ps.len() != xs.len() {
        return None;
    }
    let mut params: Vec<(String, String)> = Vec::new();
    let mut i: usize = 0;
    assert(pv.take(0) =~= Seq::<Seq<char>>::empty());
    assert(xv.take(0) =~= Seq::<Seq<char>>::empty());
    while i < ps.len()
        invariant
            i <= ps.len() == xs.len(),
            pv == ps@.map_values(|x: Vec<char>| x@),
            xv == xs@.map_values(|x: Vec<char>| x@),
            pv == segments(pattern@),
            xv == segments(path@),
            match_segments(pv.take(i as int), xv.take(i as int)) == Some(params_view(params@)),
        decreases ps.len() - i,
    {
        assert(pv.take(i + 1).drop_last() =~= pv.take(i as int));
        assert(xv.take(i + 1).drop_last() =~= xv.take(i as int));
        assert(pv.take(i + 1).last() == ps@[i as int]@);
        assert(xv.take(i + 1).last() == xs@[i as int]@);
        let pat = &ps[i];
        let seg = &xs[i];
        let n = pat.len();
        if n >= 2 && pat[0] == '{' && pat[n - 1] == '}' {
            let mut name: Vec<char> = Vec::new();
            push_range(&mut name, pat, 1, n - 1);
            let ghost prev = params_view(params@);
            params.push((string_from_chars(&name), string_from_chars(seg)));
            assert(params_view(params@) =~= prev.push((pat@.subrange(1, n - 1), seg@)));
        } else {
            if !vec_eq(pat, seg) {
                assert(match_segments(pv.take(i + 1), xv.take(i + 1)) is None);
                proof {
                    lemma_match_prefix_none(pv, xv, i as int + 1);
                }
                return None;
            }
        }
        i += 1;
    }
    assert(pv.take(i as int) =~= pv);
    assert(xv.take(i as int) =~= xv);
    Some(params)
}

proof fn lemma_match_prefix_none(ps: Seq<Seq<char>>, xs: Seq<Seq<char>>, k: int)
    requires
        ps.len() == xs.len(),
        0 <= k <= ps.len(),
        match_segments(ps.take(k), xs.take(k)) is None,
    ensures
        match_segments(ps, xs) is None,
    decreases ps.len() - k,
{
    if k < ps.len() {
        assert(ps.take(k + 1).drop_last() =~= ps.take(k));
        assert(xs.take(k + 1).drop_last() =~= xs.take(k));
        lemma_match_prefix_none(ps, xs, k + 1);
    } else {
        assert(ps.take(k) =~= ps);
        assert(xs.take(k) =~= xs);
    }
}

/// The first declared route the request matches, with its captures in order.
pub fn match_route(method: &str, path: &str) -> (r: Option<(RouteId, Vec<(String, String)>)>)
    ensures
        match r {
            Some((id, ps)) => match_route_spec(routes_spec(), method@, path@) == Some((id, params_view(ps@))),
            None => match_route_spec(routes_spec(), method@, path@) is None,
        },
{
    let table = routes();
    let mut i: usize = 0;
    assert(routes_spec().skip(0) =~= routes_spec());
    while i < table.len()
        invariant
            i <= table.len(),
            table@.len() == routes_spec().len(),
            forall|j: int| 0 <= j < table@.len() ==> (#[trigger] table@[j]).id == routes_spec()[j].0 && table@[j].method@
                == routes_spec()[j].1 && table@[j].pattern@ == routes_spec()[j].2,
            match_route_spec(routes_spec(), method@, path@) == match_route_spec(routes_spec().skip(i as int), method@, path@),
        decreases table.len() - i,
    {
        let route = &table[i];
        assert(routes_spec().skip(i as int)[0] == routes_spec()[i as int]);
        assert(routes_spec().skip(i as int).drop_first() =~= routes_spec().skip(i + 1));
        if text::eq_ignore_ascii_case(route.method, method) {
            proof {
                assert(text::eq_ci(route.method@, method@) == text::eq_ci(method@, route.method@));
            }
            if let Some(params) = match_pattern(route.pattern, path) {
                return Some((route.id, params));
            }
        }
        i += 1;
    }
    None
}

/// The value captured last for `name` (later captures replace earlier ones).
pub open spec fn param_spec(ps: Seq<(Seq<char>, Seq<char>)>, name: Seq<char>) -> Option<Seq<char>>
    decreases ps.len(),
{
    if ps.len() == 0 {
        None
    } else if ps.last().0 == name {
        Some(ps.last().1)
    } else {
        param_spec(ps.drop_last(), name)
    }
}

/// The value captured for `name`, if any.
pub fn param<'a>(params: &'a Vec<(String, String)>, name: &str) -> (r: Option<&'a String>)
    ensures
        match r {
            Some(v) => param_spec(params_view(params@), name@) == Some(v@),
            None => param_spec(params_view(params@), name@) is None,
        },
{
    let ghost pv = params_view(params@);
    let mut i = params.len();
    assert(pv.take(i as int) =~= pv);
    while i > 0
        invariant
            i <= params.len(),
            pv == params_view(params@),
            param_spec(pv, name@) == param_spec(pv.take(i as int), name@),
        decreases i,
    {
        assert(pv.take(i as int).drop_last() =~= pv.take(i - 1));
        assert(pv.take(i as int).last() == (params@[i - 1].0@, params@[i - 1].1@));
        if text::str_eq(params[i - 1].0.as_str(), name) {
            return Some(&params[i - 1].1);
        }
        i -= 1;
    }
    None
}

} // verus!

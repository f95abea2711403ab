//! Minimal `liblist.gam` parser: `key value` / `key "value"` lines,
//! `//` comments. Only the gamedll keys are of interest — they tell whether
//! Metamod is wired into the mod.

use vstd::prelude::*;

use crate::goldsrc::ini::{self, opt_chars};
use crate::goldsrc::paths;
use crate::text::{
    self, chars_contains, chars_eq, chars_of, chars_starts_with, find_char, lossy_range,
    lower_chars, push_range, skip_leading, string_from_chars, strip_trailing, trimmed_from,
};

verus! {

#[derive(Clone, Debug)]
pub struct Liblist {
    pub gamedll: Option<String>,
    pub gamedll_linux: Option<String>,
    pub gamedll_osx: Option<String>,
}

pub struct LiblistModel {
    pub gamedll: Option<Seq<char>>,
    pub gamedll_linux: Option<Seq<char>>,
    pub gamedll_osx: Option<Seq<char>>,
}

impl View for Liblist {
    type V = LiblistModel;

    open spec fn view(&self) -> LiblistModel {
        LiblistModel {
            gamedll: opt_chars(self.gamedll),
            gamedll_linux: opt_chars(self.gamedll_linux),
            gamedll_osx: opt_chars(self.gamedll_osx),
        }
    }
}

impl Default for Liblist {
    fn default() -> (r: Liblist)
        ensures
            r.gamedll is None,
            r.gamedll_linux is None,
            r.gamedll_osx is None,
    {
        Liblist { gamedll: None, gamedll_linux: None, gamedll_osx: None }
    }
}

/// A liblist line decoded and trimmed (a trailing carriage return dropped).
pub open spec fn line_text(raw: Seq<u8>) -> Seq<char> {
    text::trim_ws(text::trim_end_by(text::trim_ws(text::lossy(raw)), '\r'))
}

/// A value with surrounding whitespace and quotes removed.
pub open spec fn clean_value(v: Seq<char>) -> Seq<char> {
    text::trim_end_by(text::trim_start_by(text::trim_ws(v), '"'), '"')
}

/// The key and cleaned value of a line; none for an empty line, a `//`
/// comment, or a line without a space or tab.
pub open spec fn key_value(line: Seq<char>) -> Option<(Seq<char>, Seq<char>)> {
    if line.len() == 0 || text::starts_with(line, "//"@) {
        None
    } else {
        let i = ini::first_blank_char(line, 0);
        if i >= line.len() {
            None
        } else {
            Some((line.take(i as int), clean_value(line.skip(i + 1int))))
        }
    }
}

pub open spec fn apply_line(m: LiblistModel, line: Seq<char>) -> LiblistModel {
    match key_value(line) {
        None => m,
        Some((k, v)) => {
            let key = text::lower_seq(k);
            if key == "gamedll"@ {
                LiblistModel { gamedll: Some(v), gamedll_linux: m.gamedll_linux, gamedll_osx: m.gamedll_osx }
            } else if key == "gamedll_linux"@ {
                LiblistModel { gamedll: m.gamedll, gamedll_linux: Some(v), gamedll_osx: m.gamedll_osx }
            } else if key == "gamedll_osx"@ {
                LiblistModel { gamedll: m.gamedll, gamedll_linux: m.gamedll_linux, gamedll_osx: Some(v) }
            } else {
                m
            }
        },
    }
}

/// The gamedll keys after reading the lines in order (later lines win).
pub open spec fn liblist_spec(lines: Seq<Seq<u8>>) -> LiblistModel
    decreases lines.len(),
{
    if lines.len() == 0 {
        LiblistModel { gamedll: None, gamedll_linux: None, gamedll_osx: None }
    } else {
        apply_line(liblist_spec(lines.drop_last()), line_text(lines.last()))
    }
}

/// Reads the line `bytes[from..to]` into `out`.
fn read_line(out: &mut Liblist, bytes: &Vec<u8>, from: usize, to: usize)
    requires
        from <= to <= bytes.len(),
    ensures
        final(out)@ == apply_line(old(out)@, line_text(bytes@.subrange(from as int, to as int))),
{
    let decoded = lossy_range(bytes, from, to);
    let dc = chars_of(decoded.as_str());
    let first = trimmed_from(&dc, 0);
    assert(dc@.skip(0) =~= decoded@);
    let e = strip_trailing(&first, '\r');
    let mut no_cr: Vec<char> = Vec::new();
    push_range(&mut no_cr, &first, 0, e);
    assert(no_cr@ =~= first@.take(e as int));
    let line = trimmed_from(&no_cr, 0);
    assert(no_cr@.skip(0) =~= no_cr@);
    assert(line@ == line_text(bytes@.subrange(from as int, to as int)));
    if line.len() == 0 || chars_starts_with(&line, "//") {
        return;
    }
    let i = text::find_space_or_tab(&line, 0);
    if i >= line.len() {
        return;
    }
    let mut key: Vec<char> = Vec::new();
    push_range(&mut key, &line, 0, i);
    assert(key@ =~= line@.take(i as int));
    let v1 = trimmed_from(&line, i + 1);
    let s = skip_leading(&v1, '"');
    let mut v2: Vec<char> = Vec::new();
    push_range(&mut v2, &v1, s, v1.len());
    assert(v2@ =~= v1@.skip(s as int));
    let e2 = strip_trailing(&v2, '"');
    let mut value: Vec<char> = Vec::new();
    push_range(&mut value, &v2, 0, e2);
    assert(value@ =~= v2@.take(e2 as int));
    let value = string_from_chars(&value);
    let lkey = lower_chars(&key);
    if chars_eq(&lkey, "gamedll") {
        out.gamedll = Some(value);
    } else if chars_eq(&lkey, "gamedll_linux") {
        out.gamedll_linux = Some(value);
    } else if chars_eq(&lkey, "gamedll_osx") {
        out.gamedll_osx = Some(value);
    }
}

pub fn parse(bytes: &[u8]) -> (r: Liblist)
    ensures
        r@ == liblist_spec(text::split_by(bytes@, 10u8)),
{
    let data = vstd::slice::slice_to_vec(bytes);
    let mut out = Liblist::default();
    let ghost mut done: Seq<Seq<u8>> = Seq::empty();
    let mut start: usize = 0;
    let mut k: usize = 0;
    assert(data@.take(0) =~= Seq::<u8>::empty());
    assert(text::split_by(data@.take(0), 10u8) =~= done.push(data@.subrange(0, 0)));
    while k < data.len()
        invariant
            start <= k <= data.len(),
            data@ == bytes@,
            text::split_by(data@.take(k as int), 10u8) == done.push(data@.subrange(start as int, k as int)),
            out@ == liblist_spec(done),
        decreases data.len() - k,
    {
        assert(data@.take(k + 1).drop_last() =~= data@.take(k as int));
        if data[k] == 10 {
            read_line(&mut out, &data, start, k);
            proof {
                let d2 = done.push(data@.subrange(start as int, k as int));
                assert(d2.drop_last() =~= done);
                done = d2;
            }
            start = k + 1;
            assert(data@.subrange(start as int, k + 1) =~= Seq::<u8>::empty());
        } else {
            assert(data@.subrange(start as int, k + 1) =~= data@.subrange(start as int, k as int).push(data@[k as int]));
        }
        k += 1;
    }
    assert(data@.take(k as int) =~= data@);
    read_line(&mut out, &data, start, k);
    proof {
        let d2 = done.push(data@.subrange(start as int, k as int));
        assert(d2.drop_last() =~= done);
    }
    out
}

/// The metamod addons directory a gamedll path points into: its first two
/// '/'-separated parts (backslashes read as slashes) when the first is
/// `addons` and the second contains `metamod`, both ignoring ASCII case.
pub open spec fn metamod_dir_of(path: Seq<char>) -> Option<Seq<char>> {
    let n = paths::normalize_spec(path);
    let p1 = text::find_from(n, '/', 0);
    if p1 >= n.len() {
        None
    } else {
        let p2 = text::find_from(n, '/', p1 + 1);
        let first = n.take(p1 as int);
        let second = n.subrange(p1 + 1int, p2 as int);
        if text::eq_ci(first, "addons"@) && text::contains_seq(text::lower_seq(second), "metamod"@) {
            Some(first + seq!['/'] + second)
        } else {
            None
        }
    }
}

pub open spec fn first_metamod_dir(paths: Seq<Option<Seq<char>>>) -> Option<Seq<char>>
    decreases paths.len(),
{
    if paths.len() == 0 {
        None
    } else {
        match paths[0] {
            Some(p) => match metamod_dir_of(p) {
                Some(d) => Some(d),
                None => first_metamod_dir(paths.drop_first()),
            },
            None => first_metamod_dir(paths.drop_first()),
        }
    }
}

fn metamod_dir_from_path(path: &str) -> (r: Option<String>)
    ensures
        opt_chars(r) == metamod_dir_of(path@),
{
    let normalized = paths::normalize_slashes(path);
    let n = chars_of(normalized.as_str());
    let p1 = find_char(&n, '/', 0);
    if p1 >= n.len() {
        return None;
    }
    let p2 = find_char(&n, '/', p1 + 1);
    let mut first: Vec<char> = Vec::new();
    push_range(&mut first, &n, 0, p1);
    let mut second: Vec<char> = Vec::new();
    push_range(&mut second, &n, p1 + 1, p2);
    assert(first@ =~= n@.take(p1 as int));
    assert(second@ =~= n@.subrange(p1 + 1, p2 as int));
    let first_lower = lower_chars(&first);
    let addons = chars_of("addons");
    let addons_lower = lower_chars(&addons);
    let mut same = first_lower.len() == addons_lower.len();
    let mut i: usize = 0;
    while same && i < first_lower.len()
        invariant
            i <= first_lower.len(),
            same ==> first_lower.len() == addons_lower.len(),
            same ==> forall|j: int| 0 <= j < i ==> first_lower@[j] == addons_lower@[j],
            !same ==> first_lower@ != addons_lower@,
        decreases first_lower.len() - i,
    {
        if first_lower[i] != addons_lower[i] {
            assert(first_lower@[i as int] != addons_lower@[i as int]);
            same = false;
        }
        i += 1;
    }
    if same {
        assert(first_lower@ =~= addons_lower@);
    }
    if !same || !chars_contains(&lower_chars(&second), "metamod") {
        return None;
    }
    let mut out = first;
    out.push('/');
    push_range(&mut out, &n, p1 + 1, p2);
    let r = string_from_chars(&out);
    assert(r@ =~= n@.take(p1 as int) + seq!['/'] + n@.subrange(p1 + 1, p2 as int));
    Some(r)
}

/// Returns the metamod addons directory ("addons/<dir>") when any gamedll
/// entry points into it. Catches metamod, metamod-p and metamod-r layouts.
pub fn metamod_dir_from(liblist: &Liblist) -> (r: Option<String>)
    ensures
        opt_chars(r) == first_metamod_dir(
            seq![liblist@.gamedll_linux, liblist@.gamedll, liblist@.gamedll_osx],
        ),
{
    let ghost ps = seq![liblist@.gamedll_linux, liblist@.gamedll, liblist@.gamedll_osx];
    assert(ps.drop_first() =~= seq![liblist@.gamedll, liblist@.gamedll_osx]);
    assert(ps.drop_first().drop_first() =~= seq![liblist@.gamedll_osx]);
    assert(ps.drop_first().drop_first().drop_first() =~= Seq::<Option<Seq<char>>>::empty());
    proof {
        reveal_with_fuel(first_metamod_dir, 4);
    }
    if let Some(p) = &liblist.gamedll_linux {
        if let Some(d) = metamod_dir_from_path(p.as_str()) {
            return Some(d);
        }
    }
    if let Some(p) = &liblist.gamedll {
        if let Some(d) = metamod_dir_from_path(p.as_str()) {
            return Some(d);
        }
    }
    if let Some(p) = &liblist.gamedll_osx {
        if let Some(d) = metamod_dir_from_path(p.as_str()) {
            return Some(d);
        }
    }
    None
}

} // verus!

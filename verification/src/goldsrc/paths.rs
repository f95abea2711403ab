//! Node path helpers. Node paths are plain strings joined with '/';
//! the daemon tolerates mixed separators on Windows nodes.

use vstd::prelude::*;

use crate::text::{self, chars_of, push_range, skip_leading, string_from_chars, strip_trailing};

verus! {

/// `base` and `rel` joined by one '/', with the '/' runs at the seam dropped.
pub open spec fn join_spec(base: Seq<char>, rel: Seq<char>) -> Seq<char> {
    let b = text::trim_end_by(base, '/');
    let r = text::trim_start_by(rel, '/');
    if r.len() == 0 {
        b
    } else if b.len() == 0 {
        r
    } else {
        b + seq!['/'] + r
    }
}

pub open spec fn is_sep(c: char) -> bool {
    c == '/' || c == '\\'
}

/// Index just past the last separator of `p` (0 when there is none).
pub open spec fn name_start(p: Seq<char>) -> nat
    decreases p.len(),
{
    if p.len() == 0 {
        0
    } else if is_sep(p.last()) {
        p.len()
    } else {
        name_start(p.drop_last())
    }
}

pub open spec fn file_name_spec(p: Seq<char>) -> Seq<char> {
    p.skip(name_start(p) as int)
}

/// Index of the last '.' of `n`, or -1.
pub open spec fn last_dot(n: Seq<char>) -> int
    decreases n.len(),
{
    if n.len() == 0 {
        -1
    } else if n.last() == '.' {
        n.len() - 1
    } else {
        last_dot(n.drop_last())
    }
}

pub open spec fn file_stem_spec(n: Seq<char>) -> Seq<char> {
    let d = last_dot(n);
    if d <= 0 {
        n
    } else {
        n.take(d)
    }
}

pub open spec fn slash(c: char) -> char {
    if c == '\\' {
        '/'
    } else {
        c
    }
}

pub open spec fn normalize_spec(p: Seq<char>) -> Seq<char> {
    p.map_values(|c: char| slash(c))
}

/// Joins an absolute base path with a relative part, collapsing duplicate '/'.
pub fn join(base: &str, rel: &str) -> (r: String)
    ensures
        r@ == join_spec(base@, rel@),
{
    let b = chars_of(base);
    let r = chars_of(rel);
    let e = strip_trailing(&b, '/');
    let s = skip_leading(&r, '/');
    let mut out: Vec<char> = Vec::new();
    if s == r.len() {
        push_range(&mut out, &b, 0, e);
    } else if e == 0 {
        push_range(&mut out, &r, s, r.len());
    } else {
        push_range(&mut out, &b, 0, e);
        out.push('/');
        push_range(&mut out, &r, s, r.len());
    }
    proof {
        assert(r@.skip(s as int) =~= r@.subrange(s as int, r@.len() as int));
        assert(b@.take(e as int) =~= b@.subrange(0, e as int));
        assert(out@ =~= join_spec(base@, rel@));
    }
    string_from_chars(&out)
}

/// Returns the part after the last '/' or '\'.
pub fn file_name(path: &str) -> (r: &str)
    ensures
        r@ == file_name_spec(path@),
{
    let cs = chars_of(path);
    let mut i = cs.len();
    assert(cs@.take(i as int) =~= cs@);
    while i > 0
        invariant
            i <= cs.len(),
            cs@ == path@,
            name_start(cs@) == name_start(cs@.take(i as int)),
        decreases i,
    {
        assert(cs@.take(i as int).drop_last() =~= cs@.take(i - 1));
        if cs[i - 1] == '/' || cs[i - 1] == '\\' {
            return path.substring_char(i, cs.len());
        }
        i -= 1;
    }
    path.substring_char(0, cs.len())
}

/// Strips the last extension from a file name.
pub fn file_stem(name: &str) -> (r: &str)
    ensures
        r@ == file_stem_spec(name@),
{
    let cs = chars_of(name);
    let mut i = cs.len();
    assert(cs@.take(i as int) =~= cs@);
    while i > 0
        invariant
            i <= cs.len(),
            cs@ == name@,
            last_dot(cs@) == last_dot(cs@.take(i as int)),
        decreases i,
    {
        assert(cs@.take(i as int).drop_last() =~= cs@.take(i - 1));
        if cs[i - 1] == '.' {
            if i - 1 == 0 {
                return name.substring_char(0, cs.len());
            }
            return name.substring_char(0, i - 1);
        }
        i -= 1;
    }
    name.substring_char(0, cs.len())
}

/// Replaces backslashes with forward slashes (for matching only,
/// never for rewriting file content).
pub fn normalize_slashes(path: &str) -> (r: String)
    ensures
        r@ == normalize_spec(path@),
{
    let cs = chars_of(path);
    let mut out: Vec<char> = Vec::new();
    let mut i: usize = 0;
    while i < cs.len()
        invariant
            i <= cs.len(),
            cs@ == path@,
            out@ == normalize_spec(cs@.take(i as int)),
        decreases cs.len() - i,
    {
        let c = cs[i];
        out.push(if c == '\\' { '/' } else { c });
        i += 1;
        assert(out@ =~= normalize_spec(cs@.take(i as int)));
    }
    assert(cs@.take(i as int) =~= cs@);
    string_from_chars(&out)
}


/// Outcome of validating a bare file name whose UTF-8 encoding is
/// `byte_len` bytes long.
pub open spec fn file_name_check(name: Seq<char>, byte_len: nat) -> Result<(), &'static str> {
    if name.len() == 0 {
        Err("file name is empty")
    } else if byte_len > 255 {
        Err("file name is too long")
    } else if text::contains_any(name, seq!['/', '\\', '\0']) {
        Err("file name must not contain path separators")
    } else if name == seq!['.'] || name == seq!['.', '.'] {
        Err("file name must not be a dot segment")
    } else {
        Ok(())
    }
}

/// Validates a bare file name coming from a request.
///
/// nodefs operations run with the daemon's full privileges, so anything that
/// could escape the intended directory must be rejected.
pub fn sanitize_file_name(name: &str) -> (r: Result<(), &'static str>)
    ensures
        r == file_name_check(name@, text::byte_len(name@)),
{
    if name.is_empty() {
        return Err("file name is empty");
    }
    if name.len() > 255 {
        return Err("file name is too long");
    }
    let cs = chars_of(name);
    let mut i: usize = 0;
    while i < cs.len()
        invariant
            i <= cs.len(),
            cs@ == name@,
            name@.len() > 0,
            name.len() <= 255,
            forall|j: int| 0 <= j < i ==> !seq!['/', '\\', '\0'].contains(#[trigger] cs@[j]),
        decreases cs.len() - i,
    {
        let c = cs[i];
        if c == '/' || c == '\\' || c == '\0' {
            assert(seq!['/', '\\', '\0'].contains(cs@[i as int])) by {
                assert(seq!['/', '\\', '\0'][0] == '/');
                assert(seq!['/', '\\', '\0'][1] == '\\');
                assert(seq!['/', '\\', '\0'][2] == '\0');
            }
            assert(text::contains_any(name@, seq!['/', '\\', '\0']));
            return Err("file name must not contain path separators");
        }
        assert(!seq!['/', '\\', '\0'].contains(cs@[i as int]));
        i += 1;
    }
    if (cs.len() == 1 && cs[0] == '.') || (cs.len() == 2 && cs[0] == '.' && cs[1] == '.') {
        assert(cs@ =~= seq!['.'] || cs@ =~= seq!['.', '.']);
        return Err("file name must not be a dot segment");
    }
    assert(cs@ != seq!['.']) by {
        if cs@ == seq!['.'] { assert(cs@[0] == '.'); }
    }
    assert(cs@ != seq!['.', '.']) by {
        if cs@ == seq!['.', '.'] { assert(cs@[0] == '.' && cs@[1] == '.'); }
    }
    Ok(())
}

/// Why a single '/'-separated segment of a relative path is refused.
pub open spec fn segment_check(seg: Seq<char>) -> Option<&'static str> {
    if seg.len() == 0 {
        Some("path must not contain empty segments")
    } else if seg == seq!['.'] || seg == seq!['.', '.'] {
        Some("path must not contain dot segments")
    } else {
        None
    }
}

/// The refusal of the first bad segment, if any.
pub open spec fn segments_check(segs: Seq<Seq<char>>) -> Option<&'static str>
    decreases segs.len(),
{
    if segs.len() == 0 {
        None
    } else {
        match segments_check(segs.drop_last()) {
            Some(e) => Some(e),
            None => segment_check(segs.last()),
        }
    }
}

/// Outcome of validating a mod-dir-relative path whose UTF-8 encoding is
/// `byte_len` bytes long.
pub open spec fn rel_path_check(path: Seq<char>, byte_len: nat) -> Result<(), &'static str> {
    if path.len() == 0 {
        Err("path is empty")
    } else if byte_len > 1024 {
        Err("path is too long")
    } else if text::contains_any(path, seq!['\\', '\0']) {
        Err("path must not contain backslashes")
    } else if path[0] == '/' {
        Err("path must be relative")
    } else {
        match segments_check(text::split_by(path, '/')) {
            Some(e) => Err(e),
            None => Ok(()),
        }
    }
}

fn check_segment(cs: &Vec<char>, from: usize, to: usize) -> (r: Option<&'static str>)
    requires
        from <= to <= cs.len(),
    ensures
        r == segment_check(cs@.subrange(from as int, to as int)),
{
    let ghost seg = cs@.subrange(from as int, to as int);
    if from == to {
        return Some("path must not contain empty segments");
    }
    if (to - from == 1 && cs[from] == '.') || (to - from == 2 && cs[from] == '.' && cs[from + 1] == '.') {
        assert(seg =~= seq!['.'] || seg =~= seq!['.', '.']);
        return Some("path must not contain dot segments");
    }
    assert(seg != seq!['.']) by {
        if seg == seq!['.'] { assert(seg[0] == '.'); }
    }
    assert(seg != seq!['.', '.']) by {
        if seg == seq!['.', '.'] { assert(seg[0] == '.' && seg[1] == '.'); }
    }
    None
}

/// Validates a mod-dir-relative path coming from a request
/// (e.g. the metamod plugin location "addons/reunion/reunion_mm_i386.so").
pub fn sanitize_rel_path(path: &str) -> (r: Result<(), &'static str>)
    ensures
        r == rel_path_check(path@, text::byte_len(path@)),
{
    if path.is_empty() {
        return Err("path is empty");
    }
    if path.len() > 1024 {
        return Err("path is too long");
    }
    let cs = chars_of(path);
    let mut i: usize = 0;
    while i < cs.len()
        invariant
            i <= cs.len(),
            cs@ == path@,
            path@.len() > 0,
            path.len() <= 1024,
            forall|j: int| 0 <= j < i ==> !seq!['\\', '\0'].contains(#[trigger] cs@[j]),
        decreases cs.len() - i,
    {
        let c = cs[i];
        if c == '\\' || c == '\0' {
            assert(seq!['\\', '\0'].contains(cs@[i as int])) by {
                assert(seq!['\\', '\0'][0] == '\\');
                assert(seq!['\\', '\0'][1] == '\0');
            }
            assert(text::contains_any(path@, seq!['\\', '\0']));
            return Err("path must not contain backslashes");
        }
        assert(!seq!['\\', '\0'].contains(cs@[i as int]));
        i += 1;
    }
    assert(!text::contains_any(path@, seq!['\\', '\0']));
    if cs[0] == '/' {
        return Err("path must be relative");
    }
    // Walk the segments; `done` holds the segments already checked.
    let ghost mut done: Seq<Seq<char>> = Seq::empty();
    let mut start: usize = 0;
    let mut k: usize = 0;
    assert(cs@.take(0) =~= Seq::<char>::empty());
    assert(text::split_by(cs@.take(0), '/') =~= done.push(cs@.subrange(0, 0)));
    while k < cs.len()
        invariant
            start <= k <= cs.len(),
            cs@ == path@,
            path@.len() > 0,
            path.len() <= 1024,
            !text::contains_any(path@, seq!['\\', '\0']),
            path@[0] != '/',
            text::split_by(cs@.take(k as int), '/') == done.push(cs@.subrange(start as int, k as int)),
            segments_check(done) is None,
        decreases cs.len() - k,
    {
        let ghost pre = cs@.take(k as int);
        assert(cs@.take(k + 1).drop_last() =~= pre);
        if cs[k] == '/' {
            let e = check_segment(&cs, start, k);
            assert(segments_check(done.push(cs@.subrange(start as int, k as int))) == e) by {
                assert(done.push(cs@.subrange(start as int, k as int)).drop_last() =~= done);
            }
            if let Some(msg) = e {
                proof {
                    lemma_prefix_error(cs@, k as int, done.push(cs@.subrange(start as int, k as int)));
                }
                return Err(msg);
            }
            proof {
                done = done.push(cs@.subrange(start as int, k as int));
            }
            start = k + 1;
            assert(cs@.subrange(start as int, k + 1) =~= Seq::<char>::empty());
        } else {
            assert(cs@.subrange(start as int, k + 1) =~= cs@.subrange(start as int, k as int).push(cs@[k as int]));
        }
        k += 1;
    }
    assert(cs@.take(k as int) =~= cs@);
    let e = check_segment(&cs, start, k);
    assert(done.push(cs@.subrange(start as int, k as int)).drop_last() =~= done);
    match e {
        Some(msg) => Err(msg),
        None => Ok(()),
    }
}

/// Once a prefix of the path holds a refused segment, the whole path does.
proof fn lemma_prefix_error(s: Seq<char>, k: int, segs: Seq<Seq<char>>)
    requires
        0 <= k < s.len(),
        s[k] == '/',
        text::split_by(s.take(k + 1), '/') == segs.push(Seq::empty()),
        segments_check(segs) is Some,
    ensures
        segments_check(text::split_by(s, '/')) == segments_check(segs),
    decreases s.len() - k,
{
    if s.len() == k + 1 {
        assert(s.take(k + 1) =~= s);
        let all = segs.push(Seq::<char>::empty());
        assert(all.drop_last() =~= segs);
    } else {
        assert(segs.push(Seq::<char>::empty()).take(segs.len() as int) =~= segs);
        lemma_prefix_error_general(s, k + 1, segs);
    }
}

proof fn lemma_prefix_error_general(s: Seq<char>, n: int, segs: Seq<Seq<char>>)
    requires
        0 < n <= s.len(),
        segments_check(segs) is Some,
        text::split_by(s.take(n), '/').take(segs.len() as int) == segs,
        text::split_by(s.take(n), '/').len() > segs.len(),
    ensures
        segments_check(text::split_by(s, '/')) == segments_check(segs),
    decreases s.len() - n,
{
    text::lemma_split_by_nonempty(s.take(n), '/');
    if n == s.len() {
        assert(s.take(n) =~= s);
        lemma_check_prefix(text::split_by(s, '/'), segs);
    } else {
        let cur = text::split_by(s.take(n), '/');
        let next = text::split_by(s.take(n + 1), '/');
        assert(s.take(n + 1).drop_last() =~= s.take(n));
        assert(next.take(segs.len() as int) =~= segs) by {
            assert forall|j: int| 0 <= j < segs.len() implies next[j] == segs[j] by {
                assert(cur[j] == segs[j]);
            }
        }
        lemma_prefix_error_general(s, n + 1, segs);
    }
}

/// The first refusal within a prefix of the segments is the first refusal of all.
proof fn lemma_check_prefix(all: Seq<Seq<char>>, segs: Seq<Seq<char>>)
    requires
        all.len() >= segs.len(),
        all.take(segs.len() as int) == segs,
        segments_check(segs) is Some,
    ensures
        segments_check(all) == segments_check(segs),
    decreases all.len(),
{
    if all.len() == segs.len() {
        assert(all =~= segs);
    } else {
        assert(all.drop_last().take(segs.len() as int) =~= segs);
        lemma_check_prefix(all.drop_last(), segs);
    }
}

} // verus!

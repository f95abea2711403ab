//! Classification of a single raw `plugins.ini` line: terminator, comment
//! marker run, whitespace tokens and the dialect's entry fields.

use vstd::prelude::*;

use crate::text::{self, lossy_range, chars_ends_with, chars_eq, chars_of, lower_chars, string_from_chars};

use super::{Dialect, Entry, EntryFields, EntryModel, FieldsModel};

verus! {

pub open spec fn is_blank(b: u8) -> bool {
    b == 32 || b == 9
}

pub open spec fn is_mark(b: u8) -> bool {
    b == 59 || b == 35 || b == 47
}

/// Length of the line terminator: "\r\n", "\n" or none.
pub open spec fn term_len(raw: Seq<u8>) -> nat {
    if text::ends_with(raw, seq![13u8, 10u8]) {
        2
    } else if text::ends_with(raw, seq![10u8]) {
        1
    } else {
        0
    }
}

/// The line without its terminator.
pub open spec fn content_of(raw: Seq<u8>) -> Seq<u8> {
    raw.take(raw.len() - term_len(raw))
}

pub open spec fn bom() -> Seq<u8> {
    seq![0xEFu8, 0xBBu8, 0xBFu8]
}

pub open spec fn bom_len(c: Seq<u8>) -> nat {
    if text::starts_with(c, bom()) {
        3
    } else {
        0
    }
}

/// First index at or after `i` that is not a space or tab.
pub open spec fn skip_blank(s: Seq<u8>, i: nat) -> nat
    decreases s.len() - i,
{
    if i < s.len() && is_blank(s[i as int]) {
        skip_blank(s, i + 1)
    } else {
        i
    }
}

/// First index at or after `i` that is not one of `;`, `#`, `/`.
pub open spec fn skip_marks(s: Seq<u8>, i: nat) -> nat
    decreases s.len() - i,
{
    if i < s.len() && is_mark(s[i as int]) {
        skip_marks(s, i + 1)
    } else {
        i
    }
}

/// Whether a comment marker (`;`, `#` or `//`) starts at `i`.
pub open spec fn opens_marker(c: Seq<u8>, i: nat) -> bool {
    i < c.len() && (c[i as int] == 59 || c[i as int] == 35 || (i + 1 < c.len() && c[i as int]
        == 47 && c[i + 1int] == 47))
}

/// Start of the marker run: after a leading BOM and indentation.
pub open spec fn marker_start_of(c: Seq<u8>) -> nat {
    skip_blank(c, bom_len(c))
}

/// Start of the body: after the marker run and the blanks that follow it
/// (equal to the marker start when the line has no marker).
pub open spec fn body_start_of(c: Seq<u8>) -> nat {
    let m = marker_start_of(c);
    if opens_marker(c, m) {
        skip_blank(c, skip_marks(c, m))
    } else {
        m
    }
}

/// Maximal runs of bytes other than space and tab.
pub open spec fn tokens(s: Seq<u8>) -> Seq<Seq<u8>>
    decreases s.len(),
{
    if s.len() == 0 {
        Seq::empty()
    } else {
        let t = tokens(s.drop_last());
        if is_blank(s.last()) {
            t
        } else if s.len() >= 2 && !is_blank(s[s.len() - 2]) {
            t.update(t.len() - 1, t.last().push(s.last()))
        } else {
            t.push(seq![s.last()])
        }
    }
}

/// The tokens decoded as `String::from_utf8_lossy` does.
pub open spec fn token_strs(s: Seq<u8>) -> Seq<Seq<char>> {
    tokens(s).map_values(|t: Seq<u8>| text::lossy(t))
}

/// The tokens joined by single spaces.
pub open spec fn join_spaced(ts: Seq<Seq<char>>) -> Seq<char>
    decreases ts.len(),
{
    if ts.len() == 0 {
        Seq::empty()
    } else if ts.len() == 1 {
        ts[0]
    } else {
        join_spaced(ts.drop_last()) + seq![' '] + ts.last()
    }
}

pub open spec fn is_metamod_platform(p: Seq<char>) -> bool {
    p == "linux"@ || p == "win32"@ || p == "lin32"@ || p == "lin64"@ || p == "win64"@ || p
        == "osx"@ || p == "mac"@
}

/// Entry fields of a line body, when the body is an entry of the dialect.
pub open spec fn fields_spec(d: Dialect, body: Seq<u8>) -> Option<FieldsModel> {
    let ts = token_strs(body);
    if ts.len() == 0 {
        None
    } else {
        match d {
            Dialect::Amxx => {
                if text::ends_with(text::lower_seq(ts[0]), ".amxx"@) {
                    Some(FieldsModel::Amxx { file: ts[0], rest: join_spaced(ts.skip(1)) })
                } else {
                    None
                }
            },
            Dialect::Metamod => {
                let p = text::lower_seq(ts[0]);
                if is_metamod_platform(p) && ts.len() >= 2 {
                    Some(FieldsModel::Metamod { platform: p, path: ts[1], rest: join_spaced(ts.skip(2)) })
                } else {
                    None
                }
            },
        }
    }
}

/// The entry a raw line holds, if it is one.
pub open spec fn classify_spec(d: Dialect, raw: Seq<u8>) -> Option<EntryModel> {
    let c = content_of(raw);
    let m = marker_start_of(c);
    let b = body_start_of(c);
    match fields_spec(d, c.skip(b as int)) {
        Some(f) => Some(EntryModel { enabled: m == b, marker_start: m, body_start: b, fields: f }),
        None => None,
    }
}

pub proof fn lemma_skip_blank_bounds(s: Seq<u8>, i: nat)
    ensures
        i <= skip_blank(s, i),
        i <= s.len() ==> skip_blank(s, i) <= s.len(),
        skip_blank(s, i) < s.len() ==> !is_blank(s[skip_blank(s, i) as int]),
        forall|j: int| i <= j < skip_blank(s, i) ==> is_blank(#[trigger] s[j]),
    decreases s.len() - i,
{
    if i < s.len() && is_blank(s[i as int]) {
        lemma_skip_blank_bounds(s, i + 1);
    }
}

pub proof fn lemma_skip_marks_bounds(s: Seq<u8>, i: nat)
    ensures
        i <= skip_marks(s, i),
        i <= s.len() ==> skip_marks(s, i) <= s.len(),
        skip_marks(s, i) < s.len() ==> !is_mark(s[skip_marks(s, i) as int]),
        forall|j: int| i <= j < skip_marks(s, i) ==> is_mark(#[trigger] s[j]),
    decreases s.len() - i,
{
    if i < s.len() && is_mark(s[i as int]) {
        lemma_skip_marks_bounds(s, i + 1);
    }
}

pub proof fn lemma_offsets(c: Seq<u8>)
    ensures
        bom_len(c) <= marker_start_of(c) <= body_start_of(c) <= c.len(),
{
    lemma_skip_blank_bounds(c, bom_len(c));
    let m = marker_start_of(c);
    if opens_marker(c, m) {
        lemma_skip_marks_bounds(c, m);
        lemma_skip_blank_bounds(c, skip_marks(c, m));
    }
}

/// The offsets of a classified entry lie within the line.
pub proof fn lemma_entry_offsets(d: Dialect, raw: Seq<u8>)
    ensures
        term_len(raw) <= raw.len(),
        classify_spec(d, raw) matches Some(e) ==> e.marker_start <= e.body_start <= raw.len()
            - term_len(raw),
{
    lemma_offsets(content_of(raw));
}

/// Whether the line is empty or whitespace-only (after a leading BOM).
pub open spec fn blank_line_spec(raw: Seq<u8>) -> bool {
    let c = content_of(raw);
    let span = c.skip(bom_len(c) as int);
    forall|i: int| 0 <= i < span.len() ==> is_blank(#[trigger] span[i])
}

/// Header text of a comment-only line: the text after the marker run,
/// trimmed; absent without a marker or when nothing is left.
pub open spec fn comment_text_spec(raw: Seq<u8>) -> Option<Seq<char>> {
    let c = content_of(raw);
    let m = marker_start_of(c);
    let b = body_start_of(c);
    if m == b {
        None
    } else {
        let t = text::trim_ws(text::lossy(c.skip(b as int)));
        if t.len() == 0 {
            None
        } else {
            Some(t)
        }
    }
}

pub fn terminator_len(raw: &Vec<u8>) -> (n: usize)
    ensures
        n == term_len(raw@),
        n <= raw.len(),
{
    let l = raw.len();
    if l >= 2 && raw[l - 2] == 13 && raw[l - 1] == 10 {
        assert(raw@.skip(l - 2) =~= seq![13u8, 10u8]);
        2
    } else if l >= 1 && raw[l - 1] == 10 {
        assert(raw@.skip(l - 1) =~= seq![10u8]);
        proof {
            if l >= 2 {
                assert(raw@.skip(l - 2)[0] == raw@[l - 2]);
            }
        }
        1
    } else {
        proof {
            if l >= 2 {
                assert(raw@.skip(l - 2)[1] == raw@[l - 1]);
            }
            if l >= 1 {
                assert(raw@.skip(l - 1)[0] == raw@[l - 1]);
            }
        }
        0
    }
}

fn skip_blank_exec(s: &Vec<u8>, end: usize, i: usize) -> (r: usize)
    requires
        i <= end <= s.len(),
    ensures
        r == skip_blank(s@.take(end as int), i as nat),
        i <= r <= end,
{
    let ghost c = s@.take(end as int);
    let mut j = i;
    while j < end && (s[j] == 32 || s[j] == 9)
        invariant
            i <= j <= end <= s.len(),
            c == s@.take(end as int),
            skip_blank(c, j as nat) == skip_blank(c, i as nat),
        decreases end - j,
    {
        j += 1;
    }
    j
}

fn skip_marks_exec(s: &Vec<u8>, end: usize, i: usize) -> (r: usize)
    requires
        i <= end <= s.len(),
    ensures
        r == skip_marks(s@.take(end as int), i as nat),
        i <= r <= end,
{
    let ghost c = s@.take(end as int);
    let mut j = i;
    while j < end && (s[j] == 59 || s[j] == 35 || s[j] == 47)
        invariant
            i <= j <= end <= s.len(),
            c == s@.take(end as int),
            skip_marks(c, j as nat) == skip_marks(c, i as nat),
        decreases end - j,
    {
        j += 1;
    }
    j
}

/// Offsets of the marker run and of the body within `raw[..end]`.
pub fn marker_body_offsets(raw: &Vec<u8>, end: usize) -> (r: (usize, usize))
    requires
        end <= raw.len(),
    ensures
        r.0 == marker_start_of(raw@.take(end as int)),
        r.1 == body_start_of(raw@.take(end as int)),
        r.0 <= r.1 <= end,
{
    let ghost c = raw@.take(end as int);
    let mut idx: usize = 0;
    if end >= 3 && raw[0] == 0xEF && raw[1] == 0xBB && raw[2] == 0xBF {
        assert(c.take(3) =~= bom());
        idx = 3;
    } else {
        assert(bom_len(c) == 0) by {
            if c.len() >= 3 && c.take(3) == bom() {
                assert(c.take(3)[0] == 0xEF && c.take(3)[1] == 0xBB && c.take(3)[2] == 0xBF);
            }
        }
    }
    let marker_start = skip_blank_exec(raw, end, idx);
    let mut body_start = marker_start;
    if marker_start < end && (raw[marker_start] == 59 || raw[marker_start] == 35 || (
    marker_start + 1 < end && raw[marker_start] == 47 && raw[marker_start + 1] == 47)) {
        let k = skip_marks_exec(raw, end, marker_start);
        body_start = skip_blank_exec(raw, end, k);
    }
    (marker_start, body_start)
}

/// The lossily decoded tokens of `s[from..to]`.
pub fn tokenize(s: &Vec<u8>, from: usize, to: usize) -> (r: Vec<String>)
    requires
        from <= to <= s.len(),
    ensures
        r@.map_values(|t: String| t@) == token_strs(s@.subrange(from as int, to as int)),
{
    let ghost body = s@.subrange(from as int, to as int);
    let mut out: Vec<String> = Vec::new();
    let ghost mut done: Seq<Seq<u8>> = Seq::empty();
    let mut start: usize = from;
    let mut i: usize = from;
    assert(body.take(0) =~= Seq::<u8>::empty());
    while i < to
        invariant
            from <= start <= i <= to <= s.len(),
            body == s@.subrange(from as int, to as int),
            out@.len() == done.len(),
            forall|j: int| 0 <= j < done.len() ==> (#[trigger] out@[j])@ == text::lossy(done[j]),
            start > from ==> is_blank(s@[start - 1]),
            start == i ==> tokens(body.take(i - from)) == done,
            start < i ==> tokens(body.take(i - from)) == done.push(s@.subrange(start as int, i as int)),
            start < i ==> !is_blank(s@[i - 1]),
            forall|j: int| start <= j < i ==> !is_blank(#[trigger] s@[j]),
        decreases to - i,
    {
        let ghost pre = body.take(i - from);
        let ghost next = body.take(i + 1 - from);
        assert(next.drop_last() =~= pre);
        assert(next.last() == s@[i as int]);
        if s[i] == 32 || s[i] == 9 {
            if start < i {
                let t = lossy_range(s, start, i);
                proof {
                    done = done.push(s@.subrange(start as int, i as int));
                }
                out.push(t);
            }
            start = i + 1;
        } else {
            if start < i {
                assert(next.len() >= 2 && next[next.len() - 2] == s@[i - 1]);
                assert(s@.subrange(start as int, i + 1) =~= s@.subrange(start as int, i as int).push(s@[i as int]));
                let ghost tt = done.push(s@.subrange(start as int, i as int));
                assert(tt.update(tt.len() - 1, tt.last().push(s@[i as int])) =~= done.push(s@.subrange(start as int, i + 1)));
            } else {
                proof {
                    if next.len() >= 2 {
                        assert(next[next.len() - 2] == s@[i - 1]);
                        assert(start > from);
                    }
                }
                assert(s@.subrange(start as int, i + 1) =~= seq![s@[i as int]]);
            }
        }
        i += 1;
    }
    assert(body.take(to - from) =~= body);
    if start < to {
        let t = lossy_range(s, start, to);
        proof {
            done = done.push(s@.subrange(start as int, to as int));
        }
        out.push(t);
    }
    assert(out@.map_values(|t: String| t@) =~= done.map_values(|t: Seq<u8>| text::lossy(t)));
    out
}


/// `ts[k..].join(" ")`.
fn join_tokens(ts: &Vec<String>, k: usize) -> (r: String)
    requires
        k <= ts.len(),
    ensures
        r@ == join_spaced(ts@.map_values(|t: String| t@).skip(k as int)),
{
    let ghost m = ts@.map_values(|t: String| t@);
    let mut out: Vec<char> = Vec::new();
    let mut j = k;
    assert(m.subrange(k as int, k as int) =~= Seq::<Seq<char>>::empty());
    while j < ts.len()
        invariant
            k <= j <= ts.len(),
            m == ts@.map_values(|t: String| t@),
            out@ == join_spaced(m.subrange(k as int, j as int)),
        decreases ts.len() - j,
    {
        let cs = chars_of(ts[j].as_str());
        let ghost prev = out@;
        assert(m.subrange(k as int, j + 1).drop_last() =~= m.subrange(k as int, j as int));
        if j > k {
            out.push(' ');
        }
        let end = cs.len();
        crate::text::push_range(&mut out, &cs, 0, end);
        assert(cs@.subrange(0, end as int) =~= cs@);
        if j > k {
            assert(out@ =~= prev + seq![' '] + m[j as int]);
        } else {
            assert(out@ =~= m.subrange(k as int, j + 1)[0]);
        }
        j += 1;
    }
    assert(m.subrange(k as int, ts.len() as int) =~= m.skip(k as int));
    string_from_chars(&out)
}

fn is_platform_keyword(p: &Vec<char>) -> (r: bool)
    ensures
        r == is_metamod_platform(p@),
{
    chars_eq(p, "linux") || chars_eq(p, "win32") || chars_eq(p, "lin32") || chars_eq(p, "lin64")
        || chars_eq(p, "win64") || chars_eq(p, "osx") || chars_eq(p, "mac")
}

/// Entry fields of the body `raw[from..to]`, when it is an entry of the dialect.
pub fn parse_fields(dialect: Dialect, raw: &Vec<u8>, from: usize, to: usize) -> (r: Option<EntryFields>)
    requires
        from <= to <= raw.len(),
    ensures
        match r {
            Some(f) => fields_spec(dialect, raw@.subrange(from as int, to as int)) == Some(f@),
            None => fields_spec(dialect, raw@.subrange(from as int, to as int)) is None,
        },
{
    let ghost body = raw@.subrange(from as int, to as int);
    let tokens = tokenize(raw, from, to);
    let ghost ts = tokens@.map_values(|t: String| t@);
    assert(ts == token_strs(body));
    if tokens.len() == 0 {
        return None;
    }
    let first = chars_of(tokens[0].as_str());
    let lowered = lower_chars(&first);
    assert(ts[0] == tokens@[0]@);
    match dialect {
        Dialect::Amxx => {
            if !chars_ends_with(&lowered, ".amxx") {
                return None;
            }
            let rest = join_tokens(&tokens, 1);
            Some(EntryFields::Amxx { file: tokens[0].clone(), rest })
        },
        Dialect::Metamod => {
            if !is_platform_keyword(&lowered) || tokens.len() < 2 {
                return None;
            }
            let platform = string_from_chars(&lowered);
            let rest = join_tokens(&tokens, 2);
            assert(ts[1] == tokens@[1]@);
            Some(EntryFields::Metamod { platform, path: tokens[1].clone(), rest })
        },
    }
}


/// A line that is empty or whitespace-only — a blank-line group separator.
pub fn is_blank_line(raw: &Vec<u8>) -> (r: bool)
    ensures
        r == blank_line_spec(raw@),
{
    let end = raw.len() - terminator_len(raw);
    let ghost c = raw@.take(end as int);
    let mut i: usize = 0;
    if end >= 3 && raw[0] == 0xEF && raw[1] == 0xBB && raw[2] == 0xBF {
        assert(c.take(3) =~= bom());
        i = 3;
    } else {
        assert(bom_len(c) == 0) by {
            if c.len() >= 3 && c.take(3) == bom() {
                assert(c.take(3)[0] == 0xEF && c.take(3)[1] == 0xBB && c.take(3)[2] == 0xBF);
            }
        }
    }
    let start = i;
    let ghost span = c.skip(start as int);
    while i < end
        invariant
            start <= i <= end <= raw.len(),
            c == raw@.take(end as int),
            span == c.skip(start as int),
            start == bom_len(c),
            end == raw.len() - term_len(raw@),
            forall|j: int| 0 <= j < i - start ==> is_blank(#[trigger] span[j]),
        decreases end - i,
    {
        if !(raw[i] == 32 || raw[i] == 9) {
            assert(!is_blank(span[i - start]));
            assert(content_of(raw@) == c);
            assert(content_of(raw@).skip(bom_len(content_of(raw@)) as int) == span);
            return false;
        }
        assert(is_blank(span[i - start]));
        i += 1;
    }
    true
}

/// Header text of a comment-only line — the text after the marker run, trimmed.
/// `None` when the line has no comment marker or is empty after it (`;`, `;;;;`).
pub fn comment_text(raw: &Vec<u8>) -> (r: Option<String>)
    ensures
        match r {
            Some(t) => comment_text_spec(raw@) == Some(t@),
            None => comment_text_spec(raw@) is None,
        },
{
    let end = raw.len() - terminator_len(raw);
    let (marker_start, body_start) = marker_body_offsets(raw, end);
    if marker_start == body_start {
        return None;
    }
    let ghost c = raw@.take(end as int);
    assert(c.skip(body_start as int) =~= raw@.subrange(body_start as int, end as int));
    let decoded = lossy_range(raw, body_start, end);
    let cs = chars_of(decoded.as_str());
    let (a, b) = text::trim_bounds(&cs, 0);
    assert(cs@.skip(0) =~= cs@);
    if a == b {
        return None;
    }
    let mut out: Vec<char> = Vec::new();
    text::push_range(&mut out, &cs, a, b);
    assert(out@ =~= cs@.subrange(a as int, b as int));
    Some(string_from_chars(&out))
}

} // verus!

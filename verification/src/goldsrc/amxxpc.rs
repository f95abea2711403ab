//! amxxpc (the AMX Mod X compiler) integration: command assembly and output
//! parsing.
//!
//! amxxpc is a wrapper around libpc300: it compiles to an intermediate `.amx`
//! and only writes the final `.amxx` after a successful compile + compression
//! step, removing the intermediate on failure. A failed compile therefore
//! leaves a previously compiled `.amxx` at the target path untouched, so it is
//! safe to point `-o` straight into the plugins directory.
//!
//! Diagnostic lines look like:
//!   `path/to/file.sma(123) : error 017: undefined symbol "foo"`
//!   `path/to/file.sma(10 -- 12) : warning 217: loose indentation`
//! Severities are `error`, `warning` and `fatal error`. The compiler reports
//! line numbers only, never columns.

use vstd::prelude::*;

use crate::text::{
    self, chars_match_at, chars_of, find_char, parse_decimal, push_range, string_from_chars,
    strip_trailing, trim_bounds,
};

verus! {

pub open spec fn compiler_binary_spec(os: Seq<char>) -> Seq<char> {
    if text::eq_ci(os, "windows"@) {
        "amxxpc.exe"@
    } else {
        "amxxpc"@
    }
}

/// The compiler executable name for the node's OS.
pub fn compiler_binary(os: &str) -> (r: &'static str)
    ensures
        r@ == compiler_binary_spec(os@),
{
    if text::eq_ignore_ascii_case(os, "windows") {
        "amxxpc.exe"
    } else {
        "amxxpc"
    }
}

pub open spec fn quote_spec(arg: Seq<char>) -> Seq<char> {
    seq!['"'] + arg + seq!['"']
}

pub open spec fn paths_join_spec(base: Seq<char>, rel: Seq<char>) -> Seq<char> {
    text::trim_end_by(base, '/') + seq!['/'] + rel
}

/// Name of the compiler's headers directory next to the sources.
pub open spec fn headers_dir() -> Seq<char> {
    seq!['i', 'n', 'c', 'l', 'u', 'd', 'e']
}

/// The compile command: compiler, source, headers directory and output, each quoted.
pub open spec fn build_command_spec(
    scripting_abs: Seq<char>,
    plugins_abs: Seq<char>,
    sma_file: Seq<char>,
    stem: Seq<char>,
    os: Seq<char>,
) -> Seq<char> {
    quote_spec(paths_join_spec(scripting_abs, compiler_binary_spec(os))) + " "@ + quote_spec(
        paths_join_spec(scripting_abs, sma_file),
    ) + " -i"@ + quote_spec(paths_join_spec(scripting_abs, headers_dir())) + " -o"@ + quote_spec(
        paths_join_spec(plugins_abs, stem + ".amxx"@),
    )
}

fn append_str(out: &mut Vec<char>, s: &str)
    ensures
        final(out)@ == old(out)@ + s@,
{
    let cs = chars_of(s);
    push_range(out, &cs, 0, cs.len());
    assert(cs@.subrange(0, cs.len() as int) =~= cs@);
}

/// Wraps a path in double quotes for the shell command line.
fn quote(out: &mut Vec<char>, arg: &Vec<char>)
    ensures
        final(out)@ == old(out)@ + quote_spec(arg@),
{
    out.push('"');
    push_range(out, arg, 0, arg.len());
    out.push('"');
    assert(arg@.subrange(0, arg.len() as int) =~= arg@);
    assert(final(out)@ =~= old(out)@ + quote_spec(arg@));
}

fn paths_join(base: &str, rel: &str) -> (r: Vec<char>)
    ensures
        r@ == paths_join_spec(base@, rel@),
{
    let b = chars_of(base);
    let e = strip_trailing(&b, '/');
    let mut out: Vec<char> = Vec::new();
    push_range(&mut out, &b, 0, e);
    out.push('/');
    append_str(&mut out, rel);
    assert(b@.subrange(0, e as int) =~= b@.take(e as int));
    assert(out@ =~= paths_join_spec(base@, rel@));
    out
}

/// Builds the compile command. `work_dir` must be the scripting directory
/// (amxxpc dlopens `./amxxpc32.so` relative to its CWD), so every argument is
/// absolute.
pub fn build_command(scripting_abs: &str, plugins_abs: &str, sma_file: &str, stem: &str, os: &str) -> (r: String)
    ensures
        r@ == build_command_spec(scripting_abs@, plugins_abs@, sma_file@, stem@, os@),
{
    let compiler = paths_join(scripting_abs, compiler_binary(os));
    let source = paths_join(scripting_abs, sma_file);
    let headers: Vec<char> = vec!['i', 'n', 'c', 'l', 'u', 'd', 'e'];
    let headers = string_from_chars(&headers);
    let headers_abs = paths_join(scripting_abs, headers.as_str());
    let mut amxx = chars_of(stem);
    append_str(&mut amxx, ".amxx");
    let amxx = string_from_chars(&amxx);
    let output = paths_join(plugins_abs, amxx.as_str());
    let mut out: Vec<char> = Vec::new();
    quote(&mut out, &compiler);
    append_str(&mut out, " ");
    quote(&mut out, &source);
    append_str(&mut out, " -i");
    quote(&mut out, &headers_abs);
    append_str(&mut out, " -o");
    quote(&mut out, &output);
    let r = string_from_chars(&out);
    assert(r@ =~= build_command_spec(scripting_abs@, plugins_abs@, sma_file@, stem@, os@));
    r
}

#[derive(Debug, Clone, Copy, PartialEq, Eq, Structural)]
pub enum Severity {
    Error,
    FatalError,
    Warning,
}

pub open spec fn severity_str(s: Severity) -> Seq<char> {
    match s {
        Severity::Error => "error"@,
        Severity::FatalError => "fatal error"@,
        Severity::Warning => "warning"@,
    }
}

impl Severity {
    pub fn as_str(self) -> (r: &'static str)
        ensures
            r@ == severity_str(self),
    {
        match self {
            Severity::Error => "error",
            Severity::FatalError => "fatal error",
            Severity::Warning => "warning",
        }
    }
}

#[derive(Debug, Clone, PartialEq, Eq)]
pub struct Diagnostic {
    pub severity: Severity,
    pub code: u32,
    pub line: u32,
    /// End line of a `(10 -- 12)` range, when reported.
    pub line_end: Option<u32>,
    pub message: String,
}

pub struct DiagnosticModel {
    pub severity: Severity,
    pub code: u32,
    pub line: u32,
    pub line_end: Option<u32>,
    pub message: Seq<char>,
}

impl View for Diagnostic {
    type V = DiagnosticModel;

    open spec fn view(&self) -> DiagnosticModel {
        DiagnosticModel {
            severity: self.severity,
            code: self.code,
            line: self.line,
            line_end: self.line_end,
            message: self.message@,
        }
    }
}

/// The lines `str::lines` yields: split at '\n', a '\r' right before the
/// '\n' dropped, no empty line after a final '\n'.
pub open spec fn lines_of(s: Seq<char>) -> Seq<Seq<char>>
    decreases s.len(),
{
    if s.len() == 0 {
        Seq::empty()
    } else {
        let n = text::find_from(s, '\n', 0);
        if n >= s.len() {
            seq![s]
        } else {
            let l = s.take(n as int);
            let l = if l.len() > 0 && l.last() == '\r' {
                l.drop_last()
            } else {
                l
            };
            seq![l] + lines_of(s.skip(n + 1int))
        }
    }
}

/// Index of the last `c`, or -1.
pub open spec fn last_index(s: Seq<char>, c: char) -> int
    decreases s.len(),
{
    if s.len() == 0 {
        -1
    } else if s.last() == c {
        s.len() - 1
    } else {
        last_index(s.drop_last(), c)
    }
}

/// First index at or after `i` where `a` is directly followed by `b` (or the length).
pub open spec fn find_pair(s: Seq<char>, a: char, b: char, i: nat) -> nat
    decreases s.len() - i,
{
    if i + 1 >= s.len() {
        s.len()
    } else if s[i as int] == a && s[i + 1int] == b {
        i
    } else {
        find_pair(s, a, b, i + 1)
    }
}

pub open spec fn parse_u32_spec(s: Seq<char>) -> Option<u32> {
    match text::parse_unsigned(s, 4294967295) {
        Some(n) => Some(n as u32),
        None => None,
    }
}

/// `<line>` or `<line> -- <end>`, each part trimmed.
pub open spec fn line_range_spec(raw: Seq<char>) -> Option<(u32, Option<u32>)> {
    let k = find_pair(raw, '-', '-', 0);
    if k < raw.len() {
        match (parse_u32_spec(text::trim_ws(raw.take(k as int))), parse_u32_spec(text::trim_ws(raw.skip(k + 2int)))) {
            (Some(a), Some(b)) => Some((a, Some(b))),
            _ => None,
        }
    } else {
        match parse_u32_spec(text::trim_ws(raw)) {
            Some(a) => Some((a, None)),
            None => None,
        }
    }
}

pub open spec fn severity_split(rest: Seq<char>) -> Option<(Severity, Seq<char>)> {
    if text::starts_with(rest, "fatal error "@) {
        Some((Severity::FatalError, rest.skip(12)))
    } else if text::starts_with(rest, "error "@) {
        Some((Severity::Error, rest.skip(6)))
    } else if text::starts_with(rest, "warning "@) {
        Some((Severity::Warning, rest.skip(8)))
    } else {
        None
    }
}

/// `<file>(<line>[ -- <end>]) : <severity> <code>: <message>`, the range
/// taken from the last '(' to the ')' after it.
pub open spec fn diagnostic_line_spec(line: Seq<char>) -> Option<DiagnosticModel> {
    let open = last_index(line, '(');
    if open < 0 {
        None
    } else {
        let close = text::find_from(line, ')', open as nat);
        if close >= line.len() {
            None
        } else {
            match line_range_spec(line.subrange(open + 1int, close as int)) {
                None => None,
                Some((ln, le)) => {
                    let after = line.skip(close + 1int);
                    if !text::starts_with(after, " : "@) {
                        None
                    } else {
                        match severity_split(after.skip(3)) {
                            None => None,
                            Some((sev, rest)) => {
                                let k = find_pair(rest, ':', ' ', 0);
                                if k >= rest.len() {
                                    None
                                } else {
                                    match parse_u32_spec(text::trim_ws(rest.take(k as int))) {
                                        None => None,
                                        Some(code) => Some(
                                            DiagnosticModel {
                                                severity: sev,
                                                code,
                                                line: ln,
                                                line_end: le,
                                                message: rest.skip(k + 2int),
                                            },
                                        ),
                                    }
                                }
                            },
                        }
                    }
                },
            }
        }
    }
}

/// The diagnostics of the lines that are diagnostic lines, in order.
pub open spec fn diagnostics_of(ls: Seq<Seq<char>>) -> Seq<DiagnosticModel>
    decreases ls.len(),
{
    if ls.len() == 0 {
        Seq::empty()
    } else {
        match diagnostic_line_spec(ls[0]) {
            Some(d) => seq![d] + diagnostics_of(ls.drop_first()),
            None => diagnostics_of(ls.drop_first()),
        }
    }
}


fn copy_range(v: &Vec<char>, from: usize, to: usize) -> (r: Vec<char>)
    requires
        from <= to <= v.len(),
    ensures
        r@ == v@.subrange(from as int, to as int),
{
    let mut out: Vec<char> = Vec::new();
    push_range(&mut out, v, from, to);
    assert(out@ =~= v@.subrange(from as int, to as int));
    out
}

fn parse_u32_trimmed(v: &Vec<char>) -> (r: Option<u32>)
    ensures
        r == parse_u32_spec(text::trim_ws(v@)),
{
    let (a, b) = trim_bounds(v, 0);
    assert(v@.skip(0) =~= v@);
    match parse_decimal(v, a, b, 4294967295u64) {
        Some(n) => Some(n as u32),
        None => None,
    }
}

fn find_pair_exec(v: &Vec<char>, a: char, b: char) -> (r: usize)
    ensures
        r == find_pair(v@, a, b, 0),
        r <= v.len(),
        r < v.len() ==> r + 1 < v.len(),
{
    let mut i: usize = 0;
    while i < v.len() && i + 1 < v.len() && !(v[i] == a && v[i + 1] == b)
        invariant
            i <= v.len(),
            find_pair(v@, a, b, i as nat) == find_pair(v@, a, b, 0),
        decreases v.len() - i,
    {
        i += 1;
    }
    if i >= v.len() || i + 1 >= v.len() {
        v.len()
    } else {
        i
    }
}

fn last_index_exec(v: &Vec<char>, c: char) -> (r: Option<usize>)
    ensures
        match r {
            Some(i) => last_index(v@, c) == i as int && i < v.len() && v@[i as int] == c,
            None => last_index(v@, c) == -1,
        },
{
    let mut i = v.len();
    assert(v@.take(i as int) =~= v@);
    while i > 0
        invariant
            i <= v.len(),
            last_index(v@, c) == last_index(v@.take(i as int), c),
        decreases i,
    {
        assert(v@.take(i as int).drop_last() =~= v@.take(i - 1));
        if v[i - 1] == c {
            return Some(i - 1);
        }
        i -= 1;
    }
    None
}

fn parse_line_range(raw: &Vec<char>) -> (r: Option<(u32, Option<u32>)>)
    ensures
        r == line_range_spec(raw@),
{
    let k = find_pair_exec(raw, '-', '-');
    if k < raw.len() {
        let first = copy_range(raw, 0, k);
        let last = copy_range(raw, k + 2, raw.len());
        assert(first@ =~= raw@.take(k as int));
        assert(last@ =~= raw@.skip(k + 2));
        match (parse_u32_trimmed(&first), parse_u32_trimmed(&last)) {
            (Some(a), Some(b)) => Some((a, Some(b))),
            _ => None,
        }
    } else {
        match parse_u32_trimmed(raw) {
            Some(a) => Some((a, None)),
            None => None,
        }
    }
}

fn split_severity(rest: &Vec<char>) -> (r: Option<(Severity, usize)>)
    ensures
        match r {
            Some((sev, n)) => n <= rest.len() && severity_split(rest@) == Some((sev, rest@.skip(n as int))),
            None => severity_split(rest@) is None,
        },
{
    if text::chars_starts_with(rest, "fatal error ") {
        proof { reveal_strlit("fatal error "); }
        Some((Severity::FatalError, 12))
    } else if text::chars_starts_with(rest, "error ") {
        proof { reveal_strlit("error "); }
        Some((Severity::Error, 6))
    } else if text::chars_starts_with(rest, "warning ") {
        proof { reveal_strlit("warning "); }
        Some((Severity::Warning, 8))
    } else {
        None
    }
}

fn parse_diagnostic_line(line: &Vec<char>) -> (r: Option<Diagnostic>)
    ensures
        match r {
            Some(d) => diagnostic_line_spec(line@) == Some(d@),
            None => diagnostic_line_spec(line@) is None,
        },
{
    let open = match last_index_exec(line, '(') {
        Some(i) => i,
        None => return None,
    };
    let close = find_char(line, ')', open);
    if close >= line.len() {
        return None;
    }
    let range = copy_range(line, open + 1, close);
    let (line_no, line_end) = match parse_line_range(&range) {
        Some(p) => p,
        None => return None,
    };
    let after = copy_range(line, close + 1, line.len());
    assert(after@ =~= line@.skip(close + 1));
    if !text::chars_starts_with(&after, " : ") {
        return None;
    }
    proof { reveal_strlit(" : "); }
    let rest0 = copy_range(&after, 3, after.len());
    assert(rest0@ =~= after@.skip(3));
    let (severity, n) = match split_severity(&rest0) {
        Some(p) => p,
        None => return None,
    };
    let rest = copy_range(&rest0, n, rest0.len());
    assert(rest@ =~= rest0@.skip(n as int));
    let k = find_pair_exec(&rest, ':', ' ');
    if k >= rest.len() {
        return None;
    }
    let code_part = copy_range(&rest, 0, k);
    assert(code_part@ =~= rest@.take(k as int));
    let code = match parse_u32_trimmed(&code_part) {
        Some(c) => c,
        None => return None,
    };
    let message = copy_range(&rest, k + 2, rest.len());
    assert(message@ =~= rest@.skip(k + 2));
    Some(Diagnostic { severity, code, line: line_no, line_end, message: string_from_chars(&message) })
}

/// Parses amxxpc output into structured diagnostics; unrecognized lines are
/// skipped (banner, sizes, the `N Error(s).` summary).
pub fn parse_diagnostics(output: &str) -> (r: Vec<Diagnostic>)
    ensures
        r@.map_values(|d: Diagnostic| d@) == diagnostics_of(lines_of(output@)),
{
    let s = chars_of(output);
    let mut out: Vec<Diagnostic> = Vec::new();
    let mut pos: usize = 0;
    let ghost mut done: Seq<Seq<char>> = Seq::empty();
    assert(s@.skip(0) =~= s@);
    assert(done + lines_of(s@.skip(0)) =~= lines_of(s@));
    while pos < s.len()
        invariant
            pos <= s.len(),
            s@ == output@,
            done + lines_of(s@.skip(pos as int)) == lines_of(s@),
            out@.map_values(|d: Diagnostic| d@) + diagnostics_of(lines_of(s@.skip(pos as int)))
                == diagnostics_of(lines_of(s@)),
        decreases s.len() - pos,
    {
        let ghost rest = s@.skip(pos as int);
        let nl = find_char(&s, '\n', pos);
        assert(text::find_from(rest, '\n', 0) == nl - pos) by {
            lemma_find_from_shift(s@, '\n', pos as nat, pos as nat);
        }
        let mut end = nl;
        let next: usize;
        if nl < s.len() {
            if end > pos && s[end - 1] == '\r' {
                end = end - 1;
            }
            next = nl + 1;
        } else {
            next = s.len();
        }
        let line = copy_range(&s, pos, end);
        proof {
            if nl < s.len() {
                let l = rest.take(nl - pos);
                assert(rest.skip(nl - pos + 1) =~= s@.skip(next as int));
                if l.len() > 0 && l.last() == '\r' {
                    assert(l.drop_last() =~= line@);
                } else {
                    assert(l =~= line@);
                }
            } else {
                assert(rest =~= line@);
                assert(s@.skip(next as int) =~= Seq::<char>::empty());
            }
            assert(lines_of(rest) =~= seq![line@] + lines_of(s@.skip(next as int)));
            assert(lines_of(rest).drop_first() =~= lines_of(s@.skip(next as int)));
        }
        let ghost prev = out@.map_values(|d: Diagnostic| d@);
        match parse_diagnostic_line(&line) {
            Some(d) => {
                out.push(d);
                assert(out@.map_values(|d: Diagnostic| d@) =~= prev.push(d@));
                assert(prev.push(d@) + diagnostics_of(lines_of(s@.skip(next as int))) =~= prev + diagnostics_of(lines_of(rest)));
            },
            None => {},
        }
        proof {
            assert(done.push(line@) + lines_of(s@.skip(next as int)) =~= done + lines_of(rest));
            done = done.push(line@);
        }
        pos = next;
    }
    assert(s@.skip(pos as int) =~= Seq::<char>::empty());
    assert(out@.map_values(|d: Diagnostic| d@) =~= diagnostics_of(lines_of(s@)));
    out
}

proof fn lemma_find_from_shift(s: Seq<char>, c: char, pos: nat, i: nat)
    requires
        pos <= i,
        pos <= s.len(),
    ensures
        text::find_from(s.skip(pos as int), c, (i - pos) as nat) + pos == text::find_from(s, c, i),
    decreases s.len() - i,
{
    if i < s.len() {
        assert(s.skip(pos as int)[i - pos] == s[i as int]);
        if s[i as int] != c {
            lemma_find_from_shift(s, c, pos, i + 1);
        }
    }
}

} // verus!

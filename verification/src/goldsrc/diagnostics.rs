//! Laws of reading a compiler diagnostic line: the code ends at the first
//! `": "` after the severity, and the message is all that follows it.

use vstd::prelude::*;

use crate::goldsrc::amxxpc::{
    diagnostic_line_spec, find_pair, last_index, line_range_spec, parse_u32_spec, severity_split, severity_str,
    DiagnosticModel, Severity,
};
use crate::text;

verus! {

proof fn lemma_last_index_append(s: Seq<char>, x: Seq<char>, c: char)
    requires
        !x.contains(c),
    ensures
        last_index(s + x, c) == last_index(s, c),
    decreases x.len(),
{
    if x.len() == 0 {
        assert(s + x =~= s);
    } else {
        assert((s + x).drop_last() =~= s + x.drop_last());
        assert((s + x).last() == x.last());
        assert(x.contains(x.last()) ==> x.last() != c);
        assert(x.contains(x[x.len() - 1]));
        assert forall|i: int| 0 <= i < x.drop_last().len() implies x.drop_last()[i] != c by {
            assert(x.drop_last()[i] == x[i]);
            assert(x.contains(x[i]));
        }
        lemma_last_index_append(s, x.drop_last(), c);
    }
}

proof fn lemma_find_from_append(s: Seq<char>, x: Seq<char>, c: char, i: nat)
    requires
        text::find_from(s, c, i) < s.len(),
    ensures
        text::find_from(s + x, c, i) == text::find_from(s, c, i),
    decreases s.len() - i,
{
    assert((s + x)[i as int] == s[i as int]);
    if s[i as int] != c {
        lemma_find_from_append(s, x, c, i + 1);
    }
}

proof fn lemma_find_pair_append(s: Seq<char>, x: Seq<char>, a: char, b: char, i: nat)
    requires
        find_pair(s, a, b, i) < s.len(),
    ensures
        find_pair(s + x, a, b, i) == find_pair(s, a, b, i),
    decreases s.len() - i,
{
    assert((s + x)[i as int] == s[i as int]);
    assert((s + x)[i + 1int] == s[i + 1int]);
    if !(s[i as int] == a && s[i + 1int] == b) {
        lemma_find_pair_append(s, x, a, b, i + 1);
    }
}

proof fn lemma_last_index_at(s: Seq<char>, c: char)
    ensures
        last_index(s, c) >= 0 ==> last_index(s, c) < s.len() && s[last_index(s, c)] == c,
        last_index(s, c) >= -1,
    decreases s.len(),
{
    if s.len() > 0 && s.last() != c {
        lemma_last_index_at(s.drop_last(), c);
    }
}

proof fn lemma_find_from_ge(s: Seq<char>, c: char, i: nat)
    requires
        i <= s.len(),
    ensures
        i <= text::find_from(s, c, i) <= s.len(),
        text::find_from(s, c, i) < s.len() ==> s[text::find_from(s, c, i) as int] == c,
    decreases s.len() - i,
{
    if i < s.len() && s[i as int] != c {
        lemma_find_from_ge(s, c, i + 1);
    }
}

proof fn lemma_find_pair_found(s: Seq<char>, a: char, b: char, i: nat)
    ensures
        find_pair(s, a, b, i) < s.len() ==> find_pair(s, a, b, i) + 1 < s.len(),
    decreases s.len() - i,
{
    if i + 1 < s.len() && !(s[i as int] == a && s[i + 1int] == b) {
        lemma_find_pair_found(s, a, b, i + 1);
    }
}

proof fn lemma_starts_with_append(s: Seq<char>, x: Seq<char>, p: Seq<char>)
    requires
        p.len() <= s.len(),
    ensures
        text::starts_with(s + x, p) == text::starts_with(s, p),
{
    assert((s + x).take(p.len() as int) =~= s.take(p.len() as int));
}

proof fn lemma_severity_append(r: Seq<char>, x: Seq<char>)
    requires
        severity_split(r) is Some,
    ensures
        severity_split(r + x) == Some((severity_split(r).unwrap().0, severity_split(r).unwrap().1 + x)),
{
    reveal_strlit("fatal error ");
    reveal_strlit("error ");
    reveal_strlit("warning ");
    let f = "fatal error "@;
    let e = "error "@;
    let w = "warning "@;
    if text::starts_with(r, f) {
        lemma_starts_with_append(r, x, f);
        assert((r + x).skip(12) =~= r.skip(12) + x);
    } else if text::starts_with(r, e) {
        assert(r.take(6)[0] == r[0]);
        assert(e[0] == 'e');
        assert(r[0] == 'e');
        assert((r + x)[0] == 'e');
        assert(!text::starts_with(r + x, f)) by {
            if text::starts_with(r + x, f) {
                assert((r + x).take(12)[0] == f[0]);
            }
        }
        lemma_starts_with_append(r, x, e);
        assert((r + x).skip(6) =~= r.skip(6) + x);
    } else {
        assert(text::starts_with(r, w));
        assert(r.take(8)[0] == r[0]);
        assert(w[0] == 'w');
        assert(r[0] == 'w');
        assert((r + x)[0] == 'w');
        assert(!text::starts_with(r + x, f)) by {
            if text::starts_with(r + x, f) {
                assert((r + x).take(12)[0] == f[0]);
            }
        }
        assert(!text::starts_with(r + x, e)) by {
            if text::starts_with(r + x, e) {
                assert((r + x).take(6)[0] == e[0]);
            }
        }
        lemma_starts_with_append(r, x, w);
        assert((r + x).skip(8) =~= r.skip(8) + x);
    }
}

/// What follows the code of a diagnostic line is all message: text added at
/// the end of a recognized line (holding no `(`, which would start another
/// line reference) lengthens the message by that text, whatever it holds,
/// `": "` included, and leaves the severity, code and line numbers as they
/// were.
pub proof fn law_message_takes_the_rest(line: Seq<char>, x: Seq<char>)
    requires
        diagnostic_line_spec(line) is Some,
        !x.contains('('),
    ensures
        diagnostic_line_spec(line + x) == Some(DiagnosticModel {
            message: diagnostic_line_spec(line).unwrap().message + x,
            ..diagnostic_line_spec(line).unwrap()
        }),
{
    let lx = line + x;
    lemma_last_index_append(line, x, '(');
    let open = last_index(line, '(');
    lemma_last_index_at(line, '(');
    lemma_find_from_append(line, x, ')', open as nat);
    let close = text::find_from(line, ')', open as nat);
    lemma_find_from_ge(line, ')', open as nat);
    assert(open < close < line.len());
    assert(lx.subrange(open + 1int, close as int) =~= line.subrange(open + 1int, close as int));
    let after = line.skip(close + 1int);
    assert(lx.skip(close + 1int) =~= after + x);
    reveal_strlit(" : ");
    lemma_starts_with_append(after, x, " : "@);
    assert((after + x).skip(3) =~= after.skip(3) + x);
    lemma_severity_append(after.skip(3), x);
    let rest = severity_split(after.skip(3)).unwrap().1;
    lemma_find_pair_append(rest, x, ':', ' ', 0);
    let k = find_pair(rest, ':', ' ', 0);
    lemma_find_pair_found(rest, ':', ' ', 0);
    assert((rest + x).take(k as int) =~= rest.take(k as int));
    assert((rest + x).skip(k + 2int) =~= rest.skip(k + 2int) + x);
}

/// Decimal digits only, at least one.
pub open spec fn digits(s: Seq<char>) -> bool {
    s.len() > 0 && forall|i: int| 0 <= i < s.len() ==> '0' <= #[trigger] s[i] <= '9'
}

proof fn lemma_digits_trimmed(s: Seq<char>)
    requires
        digits(s),
    ensures
        text::trim_ws(s) == s,
{
    assert(!text::is_ws(s[0]));
    assert(!text::is_ws(s[s.len() - 1]));
    assert(text::trim_start_ws(s) == s);
    assert(s.last() == s[s.len() - 1]);
    assert(text::trim_end_ws(s) == s);
}

proof fn lemma_find_from_at(s: Seq<char>, c: char, i: nat, j: nat)
    requires
        i <= j < s.len(),
        s[j as int] == c,
        forall|t: int| i <= t < j ==> s[t] != c,
    ensures
        text::find_from(s, c, i) == j,
    decreases j - i,
{
    if i < j {
        lemma_find_from_at(s, c, i + 1, j);
    }
}

proof fn lemma_find_pair_at(s: Seq<char>, a: char, b: char, i: nat, j: nat)
    requires
        i <= j,
        j + 1 < s.len(),
        s[j as int] == a && s[j + 1int] == b,
        forall|t: int| i <= t < j ==> s[t] != a,
    ensures
        find_pair(s, a, b, i) == j,
    decreases j - i,
{
    if i < j {
        lemma_find_pair_at(s, a, b, i + 1, j);
    }
}

proof fn lemma_find_pair_none(s: Seq<char>, a: char, b: char, i: nat)
    requires
        forall|t: int| 0 <= t < s.len() ==> s[t] != a,
    ensures
        find_pair(s, a, b, i) == s.len(),
    decreases s.len() - i,
{
    if i + 1 < s.len() {
        lemma_find_pair_none(s, a, b, i + 1);
    }
}

proof fn lemma_severity_reads(sev: Severity, rest: Seq<char>)
    ensures
        severity_split(severity_str(sev) + " "@ + rest) == Some((sev, rest)),
{
    reveal_strlit(" ");
    reveal_strlit("error");
    reveal_strlit("fatal error");
    reveal_strlit("warning");
    reveal_strlit("fatal error ");
    reveal_strlit("error ");
    reveal_strlit("warning ");
    let sv = severity_str(sev) + " "@;
    match sev {
        Severity::Error => {
            assert(sv =~= "error "@);
            assert((sv + rest)[0] == 'e');
            assert(!text::starts_with(sv + rest, "fatal error "@)) by {
                if text::starts_with(sv + rest, "fatal error "@) {
                    assert((sv + rest).take(12)[0] == "fatal error "@[0]);
                }
            }
            assert((sv + rest).take(6) =~= "error "@);
            assert((sv + rest).skip(6) =~= rest);
        },
        Severity::FatalError => {
            assert(sv =~= "fatal error "@);
            assert((sv + rest).take(12) =~= "fatal error "@);
            assert((sv + rest).skip(12) =~= rest);
        },
        Severity::Warning => {
            assert(sv =~= "warning "@);
            assert((sv + rest)[0] == 'w');
            assert(!text::starts_with(sv + rest, "fatal error "@)) by {
                if text::starts_with(sv + rest, "fatal error "@) {
                    assert((sv + rest).take(12)[0] == "fatal error "@[0]);
                }
            }
            assert(!text::starts_with(sv + rest, "error "@)) by {
                if text::starts_with(sv + rest, "error "@) {
                    assert((sv + rest).take(6)[0] == "error "@[0]);
                }
            }
            assert((sv + rest).take(8) =~= "warning "@);
            assert((sv + rest).skip(8) =~= rest);
        },
    }
}

/// A compiler line `<file>(<line>) : <severity> <code>: <message>` reads as
/// the diagnostic of that severity, with the code and line number its digits
/// give and the message all that follows the first `": "` after the code
/// (the file may be any text; the message holds no `(`).
#[verifier::rlimit(40)]
pub proof fn law_diagnostic_line_reads(
    file: Seq<char>,
    line_no: Seq<char>,
    sev: Severity,
    code: Seq<char>,
    msg: Seq<char>,
)
    requires
        digits(line_no),
        parse_u32_spec(line_no) is Some,
        digits(code),
        parse_u32_spec(code) is Some,
        !msg.contains('('),
    ensures
        diagnostic_line_spec(file + "("@ + line_no + ") : "@ + severity_str(sev) + " "@ + code + ": "@ + msg) == Some(DiagnosticModel {
            severity: sev,
            code: parse_u32_spec(code).unwrap(),
            line: parse_u32_spec(line_no).unwrap(),
            line_end: None,
            message: msg,
        }),
{
    reveal_strlit("(");
    reveal_strlit(") : ");
    reveal_strlit(" : ");
    reveal_strlit(" ");
    reveal_strlit(": ");
    reveal_strlit("error");
    reveal_strlit("fatal error");
    reveal_strlit("warning");
    reveal_strlit("fatal error ");
    reveal_strlit("error ");
    reveal_strlit("warning ");
    let sv = severity_str(sev) + " "@;
    let rest = code + ": "@;
    let after = " : "@ + sv + rest;
    let tail = line_no + ") : "@ + severity_str(sev) + " "@ + code + ": "@;
    let head = file + "("@;
    let base = file + "("@ + line_no + ") : "@ + severity_str(sev) + " "@ + code + ": "@;
    assert(base =~= head + tail);
    // the last '(' is the one before the line number
    assert forall|i: int| 0 <= i < tail.len() implies tail[i] != '(' by {
        if i < line_no.len() {
            assert(tail[i] == line_no[i]);
        } else if i >= line_no.len() + 4 + severity_str(sev).len() + 1 && i < line_no.len() + 4 + severity_str(sev).len() + 1 + code.len() {
            assert(tail[i] == code[i - (line_no.len() + 4 + severity_str(sev).len() + 1)]);
        }
    }
    assert(!tail.contains('('));
    lemma_last_index_append(head, tail, '(');
    assert(head.drop_last() =~= file);
    let open = file.len() as int;
    assert(last_index(base, '(') == open);
    // the ')' right after the line number closes the range
    let close = open + 1 + line_no.len();
    assert(base[close] == ')');
    assert forall|t: int| open <= t < close implies base[t] != ')' by {
        if t > open {
            assert(base[t] == line_no[t - open - 1]);
        }
    }
    lemma_find_from_at(base, ')', open as nat, close as nat);
    assert(base.subrange(open + 1, close) =~= line_no);
    assert forall|t: int| 0 <= t < line_no.len() implies line_no[t] != '-' by {}
    lemma_find_pair_none(line_no, '-', '-', 0);
    lemma_digits_trimmed(line_no);
    assert(line_range_spec(line_no) == Some((parse_u32_spec(line_no).unwrap(), None::<u32>)));
    let pre = file + "("@ + line_no + seq![')'];
    assert(") : "@ =~= seq![')'] + " : "@);
    assert(base =~= pre + after);
    assert(pre.len() == close + 1);
    assert((pre + after).skip(pre.len() as int) =~= after);
    assert(base.skip(close + 1) =~= after);
    assert(after.take(3) =~= " : "@);
    assert(after.skip(3) =~= sv + rest);
    lemma_severity_reads(sev, rest);
    assert(severity_split(sv + rest) == Some((sev, rest)));
    assert(rest[code.len() as int] == ':' && rest[code.len() + 1int] == ' ');
    assert forall|t: int| 0 <= t < code.len() implies rest[t] != ':' by {
        assert(rest[t] == code[t]);
    }
    lemma_find_pair_at(rest, ':', ' ', 0, code.len());
    assert(rest.take(code.len() as int) =~= code);
    lemma_digits_trimmed(code);
    assert(rest.skip(code.len() + 2int) =~= Seq::<char>::empty());
    assert(diagnostic_line_spec(base) == Some(DiagnosticModel {
        severity: sev,
        code: parse_u32_spec(code).unwrap(),
        line: parse_u32_spec(line_no).unwrap(),
        line_end: None,
        message: Seq::empty(),
    }));
    law_message_takes_the_rest(base, msg);
    assert(Seq::<char>::empty() + msg =~= msg);
    assert(base + msg =~= file + "("@ + line_no + ") : "@ + severity_str(sev) + " "@ + code + ": "@ + msg);
}

} // verus!

//! Laws on reading a document back: the lines that `Document::parse` makes,
//! and the lines every edit leaves, are exactly what parsing their
//! concatenation gives, so `to_bytes` followed by `parse` returns the document.

use vstd::prelude::*;

use super::line::{
    bom, bom_len, body_start_of, classify_spec, content_of, fields_spec, is_blank, is_mark, lemma_entry_offsets,
    lemma_offsets, marker_start_of, opens_marker, skip_blank, skip_marks, term_len,
};
use super::{Dialect, EntryModel};

verus! {

/// A line holds no '\n' but possibly its last byte.
pub open spec fn one_line(raw: Seq<u8>) -> bool {
    forall|k: int| 0 <= k < raw.len() - 1 ==> #[trigger] raw[k] != 10u8
}

/// Lines as `split_lines` cuts them: none empty, none holding a '\n' before
/// its end, and all but the last ending with '\n'.
pub open spec fn well_split(ls: Seq<Seq<u8>>) -> bool {
    forall|i: int| 0 <= i < ls.len() ==> {
        &&& (#[trigger] ls[i]).len() > 0
        &&& one_line(ls[i])
        &&& (i < ls.len() - 1 ==> ls[i].last() == 10u8)
    }
}

proof fn lemma_newline_end_at(b: Seq<u8>, i: nat, n: nat)
    requires
        i <= n <= b.len(),
        forall|k: int| i <= k < n ==> #[trigger] b[k] != 10u8,
        n == b.len() || b[n as int] == 10u8,
    ensures
        super::newline_end(b, i) == if n == b.len() { n } else { n + 1 },
    decreases n - i,
{
    if i < n {
        lemma_newline_end_at(b, i + 1, n);
    }
}

proof fn lemma_newline_end_facts(b: Seq<u8>, i: nat)
    requires
        i < b.len(),
    ensures
        i < super::newline_end(b, i) <= b.len(),
        forall|k: int| i <= k < super::newline_end(b, i) - 1 ==> #[trigger] b[k] != 10u8,
        super::newline_end(b, i) < b.len() ==> b[super::newline_end(b, i) - 1] == 10u8,
    decreases b.len() - i,
{
    super::lemma_newline_end(b, i);
    if b[i as int] != 10 && i + 1 < b.len() {
        lemma_newline_end_facts(b, i + 1);
    }
}

/// The lines of any bytes are well split.
pub proof fn law_parsed_lines_well_split(bytes: Seq<u8>)
    ensures
        well_split(super::split_lines(bytes)),
    decreases bytes.len(),
{
    if bytes.len() > 0 {
        lemma_newline_end_facts(bytes, 0);
        let n = super::newline_end(bytes, 0);
        let rest = bytes.skip(n as int);
        law_parsed_lines_well_split(rest);
        let ls = super::split_lines(bytes);
        let first = bytes.take(n as int);
        assert(ls =~= seq![first] + super::split_lines(rest));
        assert forall|i: int| 0 <= i < ls.len() implies {
            &&& (#[trigger] ls[i]).len() > 0
            &&& one_line(ls[i])
            &&& (i < ls.len() - 1 ==> ls[i].last() == 10u8)
        } by {
            if i == 0 {
                assert(one_line(first)) by {
                    assert forall|k: int| 0 <= k < first.len() - 1 implies #[trigger] first[k] != 10u8 by {
                        assert(first[k] == bytes[k]);
                    }
                }
                if i < ls.len() - 1 {
                    assert(rest.len() > 0);
                    assert(first.last() == bytes[n - 1]);
                }
            } else {
                assert(ls[i] == super::split_lines(rest)[i - 1]);
            }
        }
    }
}

/// Well-split lines are what parsing their concatenation gives back.
pub proof fn law_read_back(ls: Seq<Seq<u8>>)
    requires
        well_split(ls),
    ensures
        super::split_lines(super::concat_lines(ls)) == ls,
    decreases ls.len(),
{
    if ls.len() > 0 {
        let rest = ls.drop_first();
        assert(well_split(rest)) by {
            assert forall|i: int| 0 <= i < rest.len() implies {
                &&& (#[trigger] rest[i]).len() > 0
                &&& one_line(rest[i])
                &&& (i < rest.len() - 1 ==> rest[i].last() == 10u8)
            } by {
                assert(rest[i] == ls[i + 1]);
            }
        }
        law_read_back(rest);
        let b = super::concat_lines(ls);
        let first = ls[0];
        let tail = super::concat_lines(rest);
        assert(b == first + tail);
        assert(first.len() > 0);
        let n = first.len();
        assert forall|k: int| 0 <= k < n - 1 implies #[trigger] b[k] != 10u8 by {
            assert(b[k] == first[k]);
        }
        if ls.len() > 1 {
            assert(first.last() == 10u8);
            assert(b[n - 1] == 10u8);
            lemma_newline_end_at(b, 0, (n - 1) as nat);
        } else {
            assert(rest.len() == 0);
            assert(tail =~= Seq::<u8>::empty());
            if first.last() == 10u8 {
                assert(b[n - 1] == 10u8);
                lemma_newline_end_at(b, 0, (n - 1) as nat);
            } else {
                assert(b =~= first);
                lemma_newline_end_at(b, 0, n as nat);
            }
        }
        assert(super::newline_end(b, 0) == n);
        assert(b.take(n as int) =~= first);
        assert(b.skip(n as int) =~= tail);
        assert(super::split_lines(b) =~= seq![first] + rest);
    }
}

proof fn lemma_update_well_split(ls: Seq<Seq<u8>>, i: int, x: Seq<u8>)
    requires
        well_split(ls),
        0 <= i < ls.len(),
        x.len() > 0,
        one_line(x),
        i < ls.len() - 1 ==> x.last() == 10u8,
    ensures
        well_split(ls.update(i, x)),
{
    let u = ls.update(i, x);
    assert forall|j: int| 0 <= j < u.len() implies {
        &&& (#[trigger] u[j]).len() > 0
        &&& one_line(u[j])
        &&& (j < u.len() - 1 ==> u[j].last() == 10u8)
    } by {
        if j != i {
            assert(u[j] == ls[j]);
        }
    }
}

/// Toggling an entry keeps the lines well split: the `;` goes in, or the
/// marker run comes out, before the line's terminator.
pub proof fn law_toggle_keeps_lines(d: Dialect, ls: Seq<Seq<u8>>, i: int)
    requires
        well_split(ls),
        0 <= i < ls.len(),
        classify_spec(d, ls[i]) is Some,
    ensures
        well_split(ls.update(i, super::disabled_raw(ls[i], classify_spec(d, ls[i]).unwrap()))),
        well_split(ls.update(i, super::enabled_raw(ls[i], classify_spec(d, ls[i]).unwrap()))),
{
    let raw = ls[i];
    let e = classify_spec(d, raw).unwrap();
    lemma_entry_offsets(d, raw);
    let c = content_of(raw);
    lemma_offsets(c);
    super::laws::lemma_fields_nonempty(d, c.skip(e.body_start as int));
    let m = e.marker_start as int;
    let b = e.body_start as int;
    assert(m <= b < c.len() <= raw.len());
    let dis = super::disabled_raw(raw, e);
    assert(dis.last() == raw.last());
    assert forall|k: int| 0 <= k < dis.len() - 1 implies #[trigger] dis[k] != 10u8 by {
        if k < m {
            assert(dis[k] == raw[k]);
        } else if k > m {
            assert(dis[k] == raw[k - 1]);
        }
    }
    lemma_update_well_split(ls, i, dis);
    let en = super::enabled_raw(raw, e);
    assert(en.len() == raw.len() - (b - m));
    assert(en.last() == raw.last());
    assert forall|k: int| 0 <= k < en.len() - 1 implies #[trigger] en[k] != 10u8 by {
        if k < m {
            assert(en[k] == raw[k]);
        } else {
            assert(en[k] == raw[k + (b - m)]);
        }
    }
    lemma_update_well_split(ls, i, en);
}

/// Replacing an entry's line keeps the lines well split, when the new body
/// holds no '\n' and the new line is not empty (an empty enabled body on an
/// unterminated last line would leave no line at all).
pub proof fn law_replace_keeps_lines(ls: Seq<Seq<u8>>, i: int, body: Seq<char>, enabled: bool)
    requires
        well_split(ls),
        0 <= i < ls.len(),
        !vstd::utf8::encode_utf8(body).contains(10u8),
        super::entry_line(body, enabled, super::terminator_of(ls[i])).len() > 0,
    ensures
        well_split(ls.update(i, super::entry_line(body, enabled, super::terminator_of(ls[i])))),
{
    let raw = ls[i];
    let t = super::terminator_of(raw);
    lemma_terminator_shape(raw);
    let x = super::entry_line(body, enabled, t);
    lemma_entry_line_one_line(body, enabled, t);
    if i < ls.len() - 1 {
        assert(raw.last() == 10u8);
        assert(t.len() > 0) by {
            assert(raw.skip(raw.len() - 1) =~= seq![10u8]);
        }
        assert(x.last() == t.last());
    }
    lemma_update_well_split(ls, i, x);
}

/// Removing a line keeps the lines well split.
pub proof fn law_remove_keeps_lines(ls: Seq<Seq<u8>>, i: int)
    requires
        well_split(ls),
        0 <= i < ls.len(),
    ensures
        well_split(ls.remove(i)),
{
    let u = ls.remove(i);
    assert forall|j: int| 0 <= j < u.len() implies {
        &&& (#[trigger] u[j]).len() > 0
        &&& one_line(u[j])
        &&& (j < u.len() - 1 ==> u[j].last() == 10u8)
    } by {
        if j < i {
            assert(u[j] == ls[j]);
        } else {
            assert(u[j] == ls[j + 1]);
        }
    }
}

/// Appending an entry keeps the lines well split, when its body holds no '\n'.
pub proof fn law_append_keeps_lines(ls: Seq<Seq<u8>>, body: Seq<char>, enabled: bool)
    requires
        well_split(ls),
        !vstd::utf8::encode_utf8(body).contains(10u8),
    ensures
        well_split(super::appended_lines(ls, body, enabled)),
{
    let t = super::dominant_term(ls);
    assert(t == seq![10u8] || t == seq![13u8, 10u8]);
    let fixed = if ls.len() > 0 && !crate::text::ends_with(ls.last(), seq![10u8]) {
        ls.update(ls.len() - 1, ls.last() + t)
    } else {
        ls
    };
    assert(well_split(fixed) && (fixed.len() > 0 ==> fixed.last().last() == 10u8)) by {
        if ls.len() > 0 && !crate::text::ends_with(ls.last(), seq![10u8]) {
            let last = ls.last();
            let y = last + t;
            assert(last.skip(last.len() - 1) =~= seq![last.last()]);
            assert(last.last() != 10u8);
            assert forall|k: int| 0 <= k < y.len() - 1 implies #[trigger] y[k] != 10u8 by {
                if k < last.len() {
                    assert(y[k] == last[k]);
                } else {
                    assert(y[k] == t[k - last.len()]);
                }
            }
            assert(y.last() == 10u8);
            lemma_update_well_split(ls, ls.len() - 1, y);
        } else if ls.len() > 0 {
            assert(ls.last().skip(ls.last().len() - 1) == seq![10u8]);
            assert(ls.last().skip(ls.last().len() - 1)[0] == ls.last().last());
        }
    }
    let x = super::entry_line(body, enabled, t);
    lemma_entry_line_one_line(body, enabled, t);
    assert(x.len() > 0 && x.last() == 10u8);
    let out = fixed.push(x);
    assert(out == super::appended_lines(ls, body, enabled));
    assert forall|j: int| 0 <= j < out.len() implies {
        &&& (#[trigger] out[j]).len() > 0
        &&& one_line(out[j])
        &&& (j < out.len() - 1 ==> out[j].last() == 10u8)
    } by {
        if j < fixed.len() {
            assert(out[j] == fixed[j]);
        }
    }
}

/// A line's terminator is "", "\n" or "\r\n".
proof fn lemma_terminator_shape(raw: Seq<u8>)
    ensures
        super::terminator_of(raw) == Seq::<u8>::empty() || super::terminator_of(raw) == seq![10u8]
            || super::terminator_of(raw) == seq![13u8, 10u8],
{
    let t = super::terminator_of(raw);
    if term_len(raw) == 0 {
        assert(t =~= Seq::<u8>::empty());
    }
}

proof fn lemma_entry_line_one_line(body: Seq<char>, enabled: bool, t: Seq<u8>)
    requires
        !vstd::utf8::encode_utf8(body).contains(10u8),
        t == Seq::<u8>::empty() || t == seq![10u8] || t == seq![13u8, 10u8],
    ensures
        one_line(super::entry_line(body, enabled, t)),
        t.len() > 0 ==> super::entry_line(body, enabled, t).len() > 0
            && super::entry_line(body, enabled, t).last() == 10u8,
{
    let p: Seq<u8> = if enabled { Seq::empty() } else { seq![59u8] };
    let b = vstd::utf8::encode_utf8(body);
    let x = super::entry_line(body, enabled, t);
    assert(x == p + b + t);
    assert forall|k: int| 0 <= k < x.len() - 1 implies #[trigger] x[k] != 10u8 by {
        if k < p.len() {
            assert(x[k] == p[k]);
        } else if k < p.len() + b.len() {
            assert(x[k] == b[k - p.len()]);
            assert(b.contains(b[k - p.len()]));
        } else {
            assert(x[k] == t[k - p.len() - b.len()]);
        }
    }
}

/// A line written for a new entry reads back as that entry: the requested
/// state, the marker (if any) at the start, and the fields of the body. It
/// holds for a body that is an entry of the dialect, holds no '\n', does not
/// open a marker, does not start with a blank (or, disabled, with a marker
/// byte), does not start with a BOM when enabled, and does not end with '\r'
/// in front of a bare "\n" terminator.
pub proof fn law_new_entry_reads_back(d: Dialect, body: Seq<char>, enabled: bool, t: Seq<u8>)
    requires
        ({
            let b = vstd::utf8::encode_utf8(body);
            &&& fields_spec(d, b) is Some
            &&& !b.contains(10u8)
            &&& !opens_marker(b, 0)
            &&& b.len() > 0 && !is_blank(b[0]) && (!enabled ==> !is_mark(b[0]))
            &&& (enabled ==> !crate::text::starts_with(b, bom()))
            &&& (t == Seq::<u8>::empty() || t == seq![10u8] || t == seq![13u8, 10u8])
            &&& !(t == seq![10u8] && b.last() == 13u8)
        }),
    ensures
        classify_spec(d, super::entry_line(body, enabled, t)) == Some(
            EntryModel {
                enabled,
                marker_start: 0,
                body_start: if enabled { 0 } else { 1 },
                fields: fields_spec(d, vstd::utf8::encode_utf8(body)).unwrap(),
            },
        ),
{
    let b = vstd::utf8::encode_utf8(body);
    let p: Seq<u8> = if enabled { Seq::empty() } else { seq![59u8] };
    let raw = super::entry_line(body, enabled, t);
    let c = p + b;
    assert(raw =~= c + t);
    // The terminator is exactly `t`.
    assert(c.last() != 10u8) by {
        assert(c.last() == b.last());
        assert(b.contains(b.last()));
    }
    if t.len() == 2 {
        assert(t == seq![13u8, 10u8]);
        assert(raw.skip(raw.len() - 2) =~= t);
        assert(crate::text::ends_with(raw, seq![13u8, 10u8]));
        assert(term_len(raw) == 2);
    } else if t.len() == 1 {
        assert(t == seq![10u8]);
        assert(raw.skip(raw.len() - 1) =~= t);
        assert(crate::text::ends_with(raw, seq![10u8]));
        assert(b.last() != 13u8);
        if raw.len() >= 2 {
            assert(raw.skip(raw.len() - 2)[0] == c.last());
            assert(c.last() == b.last());
            assert(raw.skip(raw.len() - 2) != seq![13u8, 10u8]);
        }
        assert(!crate::text::ends_with(raw, seq![13u8, 10u8]));
        assert(term_len(raw) == 1);
    } else {
        assert(t =~= Seq::<u8>::empty());
        assert(raw =~= c);
        assert(raw.skip(raw.len() - 1)[0] == c.last());
        assert(!crate::text::ends_with(raw, seq![10u8]));
        if raw.len() >= 2 {
            assert(raw.skip(raw.len() - 2)[1] == c.last());
            assert(raw.skip(raw.len() - 2) != seq![13u8, 10u8]);
        }
        assert(!crate::text::ends_with(raw, seq![13u8, 10u8]));
        assert(term_len(raw) == 0);
    }
    assert(content_of(raw) =~= c);
    if enabled {
        assert(c =~= b);
        assert(bom_len(c) == 0);
        assert(skip_blank(c, 0) == 0);
        assert(marker_start_of(c) == 0);
        assert(body_start_of(c) == 0);
        assert(c.skip(0) =~= b);
    } else {
        assert(c[0] == 59u8);
        assert(bom_len(c) == 0) by {
            if c.len() >= 3 {
                assert(c.take(3)[0] == 59u8);
            }
        }
        assert(skip_blank(c, 0) == 0);
        assert(marker_start_of(c) == 0);
        assert(opens_marker(c, 0));
        assert(c[1] == b[0]);
        assert(skip_marks(c, 1) == 1);
        assert(skip_marks(c, 0) == 1);
        assert(skip_blank(c, 1) == 1);
        assert(body_start_of(c) == 1);
        assert(c.skip(1) =~= b);
    }
}

} // verus!

//! Laws of the `plugins.ini` document: what toggling an entry does to the
//! bytes of its line.

use vstd::prelude::*;

use super::line::{
    bom, bom_len, classify_spec, content_of, fields_spec, is_blank, is_mark, lemma_offsets,
    lemma_skip_blank_bounds, lemma_skip_marks_bounds, marker_start_of, body_start_of, opens_marker, skip_blank,
    skip_marks, term_len, token_strs, tokens,
};
use super::{
    Dialect, EntryModel, disabled_raw, enabled_raw, first_match, line_matches,
};

verus! {

proof fn lemma_skip_blank_at(s: Seq<u8>, i: nat, j: nat)
    requires
        i <= j <= s.len(),
        forall|k: int| i <= k < j ==> is_blank(#[trigger] s[k]),
        j == s.len() || !is_blank(s[j as int]),
    ensures
        skip_blank(s, i) == j,
    decreases j - i,
{
    if i < j {
        lemma_skip_blank_at(s, i + 1, j);
    }
}

proof fn lemma_skip_marks_at(s: Seq<u8>, i: nat, j: nat)
    requires
        i <= j <= s.len(),
        forall|k: int| i <= k < j ==> is_mark(#[trigger] s[k]),
        j == s.len() || !is_mark(s[j as int]),
    ensures
        skip_marks(s, i) == j,
    decreases j - i,
{
    if i < j {
        lemma_skip_marks_at(s, i + 1, j);
    }
}

/// A body that holds an entry is not empty.
pub proof fn lemma_fields_nonempty(d: Dialect, body: Seq<u8>)
    requires
        fields_spec(d, body) is Some,
    ensures
        body.len() > 0,
{
    if body.len() == 0 {
        assert(tokens(body) =~= Seq::<Seq<u8>>::empty());
        assert(token_strs(body).len() == 0);
    }
}

/// Disabling an enabled entry whose body does not start with `/` keeps its
/// fields: the line then holds the same entry, disabled, with a one-byte
/// marker run where the entry's body used to start.
pub proof fn law_disable_keeps_entry(d: Dialect, raw: Seq<u8>)
    requires
        classify_spec(d, raw) matches Some(e) && e.enabled && content_of(raw)[e.body_start as int] != 47,
    ensures
        classify_spec(d, raw).unwrap().marker_start < content_of(raw).len() <= raw.len(),
        ({
            let e = classify_spec(d, raw).unwrap();
            classify_spec(d, disabled_raw(raw, e)) == Some(
                EntryModel { enabled: false, marker_start: e.marker_start, body_start: e.marker_start + 1, fields: e.fields },
            )
        }),
{
    let e = classify_spec(d, raw).unwrap();
    let c = content_of(raw);
    let t = term_len(raw);
    let m = e.marker_start;
    lemma_offsets(c);
    lemma_fields_nonempty(d, c.skip(e.body_start as int));
    assert(m < c.len());
    let r2 = disabled_raw(raw, e);
    assert(r2.len() == raw.len() + 1);
    // The terminator is untouched.
    assert(term_len(r2) == t) by {
        if raw.len() >= 2 && m + 2 <= raw.len() {
            assert(r2.skip(r2.len() - 2) =~= raw.skip(raw.len() - 2));
        }
        if raw.len() >= 1 {
            assert(r2.last() == raw.last());
            assert(r2.skip(r2.len() - 1) =~= raw.skip(raw.len() - 1));
        }
        if t == 0 && r2.len() >= 2 {
            assert(r2.skip(r2.len() - 2)[1] == r2.last());
        }
        if t == 1 && raw.len() >= 2 {
            assert(raw.skip(raw.len() - 2)[0] == raw[raw.len() - 2]);
            assert(r2.skip(r2.len() - 2)[0] == r2[r2.len() - 2]);
        }
    }
    let c2 = content_of(r2);
    assert(c2 =~= c.insert(m as int, 59u8));
    // The BOM is untouched.
    assert(bom_len(c2) == bom_len(c)) by {
        if bom_len(c) == 3 {
            assert(c2.take(3) =~= c.take(3));
        } else if c2.len() >= 3 && c2.take(3) == bom() {
            if m >= 3 {
                assert(c2.take(3) =~= c.take(3));
            } else {
                assert(c2.take(3)[m as int] == 59u8);
            }
        }
    }
    let bl = bom_len(c);
    lemma_skip_blank_bounds(c, bl);
    // Indentation is untouched; the new `;` starts the marker run.
    lemma_skip_blank_at(c2, bl, m);
    assert(marker_start_of(c2) == m);
    assert(opens_marker(c2, m));
    // The old body neither opens a marker nor starts with a blank.
    assert(!opens_marker(c, m)) by {
        if opens_marker(c, m) {
            lemma_skip_marks_bounds(c, m);
            lemma_skip_blank_bounds(c, skip_marks(c, m));
        }
    }
    assert(c2[m + 1int] == c[m as int]);
    assert(!is_mark(c[m as int]));
    lemma_skip_marks_at(c2, m, m + 1);
    assert(!is_blank(c[m as int]));
    lemma_skip_blank_at(c2, m + 1, m + 1);
    assert(body_start_of(c2) == m + 1);
    assert(c2.skip(m + 1int) =~= c.skip(m as int));
}

/// Disabling an enabled entry (whose body does not start with `/`) and then
/// enabling it again gives back the line as it was.
pub proof fn law_disable_then_enable_restores(d: Dialect, raw: Seq<u8>)
    requires
        classify_spec(d, raw) matches Some(e) && e.enabled && content_of(raw)[e.body_start as int] != 47,
    ensures
        ({
            let e = classify_spec(d, raw).unwrap();
            let r2 = disabled_raw(raw, e);
            let e2 = classify_spec(d, r2).unwrap();
            &&& !e2.enabled
            &&& e2.fields == e.fields
            &&& enabled_raw(r2, e2) == raw
        }),
{
    law_disable_keeps_entry(d, raw);
    let e = classify_spec(d, raw).unwrap();
    let r2 = disabled_raw(raw, e);
    let e2 = classify_spec(d, r2).unwrap();
    assert(enabled_raw(r2, e2) =~= raw);
}

proof fn lemma_first_match_same(d: Dialect, a: Seq<Seq<u8>>, b: Seq<Seq<u8>>, key: Seq<char>)
    requires
        a.len() == b.len(),
        forall|j: int| 0 <= j < a.len() ==> line_matches(d, #[trigger] a[j], key) == line_matches(d, b[j], key),
    ensures
        first_match(d, a, key) == first_match(d, b, key),
    decreases a.len(),
{
    if a.len() > 0 {
        lemma_first_match_same(d, a.drop_last(), b.drop_last(), key);
        assert(line_matches(d, a[a.len() - 1], key) == line_matches(d, b[b.len() - 1], key));
    }
}

/// Toggling an enabled entry off and back on by its key restores the
/// document's lines: the key still finds the same line after the first call,
/// and the second call undoes the first byte for byte.
pub proof fn law_toggle_round_trip(d: Dialect, lines: Seq<Seq<u8>>, key: Seq<char>)
    requires
        first_match(d, lines, key) matches Some(i) && classify_spec(d, lines[i]) matches Some(e)
            && e.enabled && content_of(lines[i])[e.body_start as int] != 47,
    ensures
        ({
            let i = first_match(d, lines, key).unwrap();
            let e = classify_spec(d, lines[i]).unwrap();
            let after = lines.update(i, disabled_raw(lines[i], e));
            let e2 = classify_spec(d, after[i]).unwrap();
            &&& first_match(d, after, key) == Some(i)
            &&& !e2.enabled
            &&& after.update(i, enabled_raw(after[i], e2)) == lines
        }),
{
    let i = first_match(d, lines, key).unwrap();
    super::lemma_first_match_bounds(d, lines, key);
    let e = classify_spec(d, lines[i]).unwrap();
    law_disable_then_enable_restores(d, lines[i]);
    law_disable_keeps_entry(d, lines[i]);
    let after = lines.update(i, disabled_raw(lines[i], e));
    assert forall|j: int| 0 <= j < after.len() implies line_matches(d, #[trigger] after[j], key)
        == line_matches(d, lines[j], key) by {
        if j == i {
            assert(after[j] == disabled_raw(lines[i], e));
            assert(classify_spec(d, after[j]).unwrap().fields == e.fields);
            assert(line_matches(d, after[j], key) == super::entry_matches_spec(e.fields, key));
            assert(line_matches(d, lines[j], key) == super::entry_matches_spec(e.fields, key));
        }
    }
    lemma_first_match_same(d, after, lines, key);
    let e2 = classify_spec(d, after[i]).unwrap();
    assert(after.update(i, enabled_raw(after[i], e2)) =~= lines);
}

/// A shorter tail of a shared tail is shared too.
proof fn lemma_tail_of_tail(a: Seq<u8>, b: Seq<u8>, k: nat, j: nat)
    requires
        j <= k <= a.len(),
        k <= b.len(),
        a.skip(a.len() - k) == b.skip(b.len() - k),
    ensures
        a.skip(a.len() - j) == b.skip(b.len() - j),
{
    let ta = a.skip(a.len() - k);
    assert forall|x: int| 0 <= x < j implies #[trigger] a.skip(a.len() - j)[x] == b.skip(b.len() - j)[x] by {
        assert(a.skip(a.len() - j)[x] == ta[k - j + x]);
        assert(b.skip(b.len() - j)[x] == b.skip(b.len() - k)[k - j + x]);
    }
    assert(a.skip(a.len() - j) =~= b.skip(b.len() - j));
}

/// Two lines that share a tail longer than one's terminator have the same
/// terminator.
proof fn lemma_term_len_tail(a: Seq<u8>, b: Seq<u8>, k: nat)
    requires
        term_len(a) < k <= a.len(),
        k <= b.len(),
        a.skip(a.len() - k) == b.skip(b.len() - k),
    ensures
        term_len(b) == term_len(a),
{
    let ta = a.skip(a.len() - k);
    lemma_tail_of_tail(a, b, k, 1);
    if k >= 2 {
        lemma_tail_of_tail(a, b, k, 2);
    }
    if k == 1 {
        assert(term_len(a) == 0);
        assert(a.last() == b.last()) by {
            assert(a.skip(a.len() - 1)[0] == b.skip(b.len() - 1)[0]);
        }
        if b.len() >= 2 && b.skip(b.len() - 2) == seq![13u8, 10u8] {
            assert(b.skip(b.len() - 2)[1] == b.last());
            assert(a.skip(a.len() - 1) =~= seq![10u8]);
        }
    }
}

/// Enabling a disabled entry keeps its fields: the line then holds the same
/// entry, enabled, with its body where the marker run used to start. It
/// fails only for a body that itself opens a marker, or that starts with a
/// BOM and would become the line's BOM.
pub proof fn law_enable_keeps_entry(d: Dialect, raw: Seq<u8>)
    requires
        classify_spec(d, raw) matches Some(e) && !e.enabled
            && !opens_marker(content_of(raw), e.body_start)
            && !(e.marker_start == 0 && crate::text::starts_with(content_of(raw).skip(e.body_start as int), bom())),
    ensures
        ({
            let e = classify_spec(d, raw).unwrap();
            classify_spec(d, enabled_raw(raw, e)) == Some(
                EntryModel { enabled: true, marker_start: e.marker_start, body_start: e.marker_start, fields: e.fields },
            )
        }),
{
    let e = classify_spec(d, raw).unwrap();
    let c = content_of(raw);
    let t = term_len(raw);
    let m = e.marker_start;
    let b = e.body_start;
    lemma_offsets(c);
    lemma_fields_nonempty(d, c.skip(b as int));
    assert(m < b < c.len());
    let r2 = enabled_raw(raw, e);
    assert(r2 =~= raw.take(m as int) + raw.skip(b as int));
    assert(r2.len() == raw.len() - (b - m));
    // The terminator is untouched.
    assert(r2.skip(r2.len() - (raw.len() - b)) =~= raw.skip(raw.len() - (raw.len() - b)));
    lemma_term_len_tail(raw, r2, (raw.len() - b) as nat);
    let c2 = content_of(r2);
    assert(c2 =~= c.take(m as int) + c.skip(b as int));
    let bl = bom_len(c);
    lemma_skip_blank_bounds(c, bl);
    // The BOM is untouched.
    assert(bom_len(c2) == bl) by {
        if bl == 3 {
            assert(c2.take(3) =~= c.take(3));
        } else if c2.len() >= 3 && c2.take(3) == bom() {
            if m >= 3 {
                assert(c2.take(3) =~= c.take(3));
            } else if m > 0 {
                assert(is_blank(c[0]));
                assert(c2.take(3)[0] == c[0]);
            } else {
                assert(c2 =~= c.skip(b as int));
            }
        }
    }
    // The body now starts where the marker run did.
    assert(c2[m as int] == c[b as int]);
    lemma_skip_blank_bounds(c, skip_marks(c, m));
    assert(!is_blank(c[b as int]));
    assert forall|k: int| bl <= k < m implies is_blank(#[trigger] c2[k]) by {
        assert(c2[k] == c[k]);
    }
    lemma_skip_blank_at(c2, bl, m);
    assert(marker_start_of(c2) == m);
    assert(c2.skip(m as int) =~= c.skip(b as int));
    assert(!opens_marker(c2, m)) by {
        if m + 1 < c2.len() {
            assert(c2[m + 1int] == c[b + 1int]);
        }
    }
    assert(body_start_of(c2) == m);
}

/// Setting an entry's state twice is setting it once: after the first call
/// the key finds the same line, and its entry is in the requested state, so a
/// second call reports no change and leaves the document as it is. It fails
/// only where disabling or enabling changes the entry itself (see
/// `law_disable_keeps_entry` and `law_enable_keeps_entry`).
pub proof fn law_set_enabled_idempotent(d: Dialect, lines: Seq<Seq<u8>>, key: Seq<char>, enabled: bool)
    requires
        first_match(d, lines, key) matches Some(i) && classify_spec(d, lines[i]) matches Some(e)
            && (e.enabled && !enabled ==> content_of(lines[i])[e.body_start as int] != 47)
            && (!e.enabled && enabled ==> !opens_marker(content_of(lines[i]), e.body_start)
                && !(e.marker_start == 0 && crate::text::starts_with(content_of(lines[i]).skip(e.body_start as int), bom()))),
    ensures
        ({
            let i = first_match(d, lines, key).unwrap();
            let e = classify_spec(d, lines[i]).unwrap();
            let after = if e.enabled == enabled {
                lines
            } else {
                lines.update(i, if enabled { enabled_raw(lines[i], e) } else { disabled_raw(lines[i], e) })
            };
            &&& first_match(d, after, key) == Some(i)
            &&& classify_spec(d, after[i]) matches Some(e2) && e2.enabled == enabled && e2.fields == e.fields
        }),
{
    let i = first_match(d, lines, key).unwrap();
    super::lemma_first_match_bounds(d, lines, key);
    let e = classify_spec(d, lines[i]).unwrap();
    if e.enabled != enabled {
        let new_raw = if enabled { enabled_raw(lines[i], e) } else { disabled_raw(lines[i], e) };
        if enabled {
            law_enable_keeps_entry(d, lines[i]);
        } else {
            law_disable_keeps_entry(d, lines[i]);
        }
        let after = lines.update(i, new_raw);
        assert forall|j: int| 0 <= j < after.len() implies line_matches(d, #[trigger] after[j], key)
            == line_matches(d, lines[j], key) by {
            if j == i {
                assert(classify_spec(d, after[j]).unwrap().fields == e.fields);
                assert(line_matches(d, after[j], key) == super::entry_matches_spec(e.fields, key));
                assert(line_matches(d, lines[j], key) == super::entry_matches_spec(e.fields, key));
            }
        }
        lemma_first_match_same(d, after, lines, key);
    }
}

} // verus!

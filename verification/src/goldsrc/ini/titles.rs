//! Laws of the display groups of a `plugins.ini`: how their titles read and
//! which header names a block.

use vstd::prelude::*;

use super::{Dialect, EntryModel, GroupModel, GroupState, group_state, group_step, groups_spec};
use super::line::{blank_line_spec, classify_spec, comment_text_spec};
use crate::text::{is_ws, trim_end_ws, trim_start_ws, trim_ws};

verus! {

/// A group title as the table shows it: not empty, and neither starting nor
/// ending with whitespace.
pub open spec fn good_title(o: Option<Seq<char>>) -> bool {
    o matches Some(t) ==> t.len() > 0 && !is_ws(t.first()) && !is_ws(t.last())
}

proof fn lemma_trim_start(s: Seq<char>)
    ensures
        trim_start_ws(s).len() > 0 ==> !is_ws(trim_start_ws(s).first()),
    decreases s.len(),
{
    if s.len() > 0 && is_ws(s.first()) {
        lemma_trim_start(s.drop_first());
    }
}

proof fn lemma_trim_end(s: Seq<char>)
    ensures
        trim_end_ws(s).len() > 0 ==> !is_ws(trim_end_ws(s).last()) && trim_end_ws(s).first() == s.first(),
        trim_end_ws(s).len() <= s.len(),
    decreases s.len(),
{
    if s.len() > 0 && is_ws(s.last()) {
        lemma_trim_end(s.drop_last());
        if trim_end_ws(s.drop_last()).len() > 0 {
            assert(s.drop_last().first() == s.first());
        }
    }
}

proof fn lemma_trimmed(s: Seq<char>)
    ensures
        trim_ws(s).len() > 0 ==> good_title(Some(trim_ws(s))),
{
    lemma_trim_start(s);
    lemma_trim_end(trim_start_ws(s));
}

spec fn titles_good(st: GroupState) -> bool {
    &&& forall|i: int| 0 <= i < st.out.len() ==> good_title(#[trigger] st.out[i].title)
    &&& good_title(st.title)
    &&& good_title(st.pending)
}

proof fn lemma_titles_good(d: Dialect, ls: Seq<Seq<u8>>)
    ensures
        titles_good(group_state(d, ls)),
    decreases ls.len(),
{
    if ls.len() > 0 {
        lemma_titles_good(d, ls.drop_last());
        let st = group_state(d, ls.drop_last());
        let raw = ls.last();
        let c = super::line::content_of(raw);
        lemma_trimmed(crate::text::lossy(c.skip(super::line::body_start_of(c) as int)));
        let nx = group_step(d, st, raw);
        assert forall|i: int| 0 <= i < nx.out.len() implies good_title(#[trigger] nx.out[i].title) by {
            if i < st.out.len() {
                assert(nx.out[i] == st.out[i]);
            }
        }
    }
}

/// Every group the table shows under a title has a title that is not empty
/// and is trimmed of whitespace at both ends.
pub proof fn law_group_titles_trimmed(d: Dialect, ls: Seq<Seq<u8>>)
    ensures
        forall|i: int| 0 <= i < groups_spec(d, ls).len() ==> good_title(#[trigger] groups_spec(d, ls)[i].title),
{
    lemma_titles_good(d, ls);
    let st = group_state(d, ls);
    assert forall|i: int| 0 <= i < groups_spec(d, ls).len() implies good_title(#[trigger] groups_spec(d, ls)[i].title) by {
        if i < st.out.len() {
            assert(groups_spec(d, ls)[i] == st.out[i]);
        }
    }
}

/// A header line: no entry, not blank, and a comment with some text.
pub open spec fn header_line(d: Dialect, raw: Seq<u8>) -> bool {
    classify_spec(d, raw) is None && !blank_line_spec(raw) && comment_text_spec(raw) is Some
}

/// The entries the lines `es` hold, each line being an entry line.
pub open spec fn entries_of(d: Dialect, es: Seq<Seq<u8>>) -> Seq<EntryModel> {
    es.map_values(|r: Seq<u8>| classify_spec(d, r).unwrap())
}

/// The grouping starts afresh: no open group, no title and no header waiting.
pub open spec fn fresh(st: GroupState) -> bool {
    st.entries == Seq::<EntryModel>::empty() && st.title is None && st.pending is None
}

proof fn lemma_headers(d: Dialect, p: Seq<Seq<u8>>, hs: Seq<Seq<u8>>, k: int)
    requires
        fresh(group_state(d, p)),
        0 < k <= hs.len(),
        forall|i: int| 0 <= i < hs.len() ==> header_line(d, #[trigger] hs[i]),
    ensures
        group_state(d, p + hs.take(k)) == (GroupState {
            out: group_state(d, p).out,
            title: comment_text_spec(hs[0]),
            entries: Seq::empty(),
            pending: None,
        }),
    decreases k,
{
    assert((p + hs.take(k)).drop_last() =~= p + hs.take(k - 1));
    assert((p + hs.take(k)).last() == hs[k - 1]);
    assert(header_line(d, hs[k - 1]));
    assert(header_line(d, hs[0]));
    assert(group_state(d, p + hs.take(k)) == group_step(d, group_state(d, p + hs.take(k - 1)), hs[k - 1]));
    if k == 1 {
        assert(p + hs.take(0) =~= p);
    } else {
        lemma_headers(d, p, hs, k - 1);
    }
}

proof fn lemma_entries(d: Dialect, p: Seq<Seq<u8>>, hs: Seq<Seq<u8>>, es: Seq<Seq<u8>>, k: int)
    requires
        fresh(group_state(d, p)),
        hs.len() > 0,
        forall|i: int| 0 <= i < hs.len() ==> header_line(d, #[trigger] hs[i]),
        0 <= k <= es.len(),
        forall|i: int| 0 <= i < es.len() ==> classify_spec(d, #[trigger] es[i]) is Some,
    ensures
        group_state(d, p + hs + es.take(k)) == (GroupState {
            out: group_state(d, p).out,
            title: comment_text_spec(hs[0]),
            entries: entries_of(d, es.take(k)),
            pending: None,
        }),
    decreases k,
{
    if k == 0 {
        lemma_headers(d, p, hs, hs.len() as int);
        assert(p + hs + es.take(0) =~= p + hs.take(hs.len() as int));
        assert(entries_of(d, es.take(0)) =~= Seq::<EntryModel>::empty());
    } else {
        lemma_entries(d, p, hs, es, k - 1);
        assert((p + hs + es.take(k)).drop_last() =~= p + hs + es.take(k - 1));
        assert((p + hs + es.take(k)).last() == es[k - 1]);
        assert(classify_spec(d, es[k - 1]) is Some);
        assert(group_state(d, p + hs + es.take(k)) == group_step(d, group_state(d, p + hs + es.take(k - 1)), es[k - 1]));
        assert(entries_of(d, es.take(k)) =~= entries_of(d, es.take(k - 1)).push(classify_spec(d, es[k - 1]).unwrap()));
    }
}

/// A block is named by its leading header: when the grouping starts afresh
/// (at the top of the file, say) and comes upon header lines followed by
/// entry lines, the group they form is titled by the first header, whatever
/// the later headers say, and holds those entries.
pub proof fn law_block_titled_by_first_header(d: Dialect, p: Seq<Seq<u8>>, hs: Seq<Seq<u8>>, es: Seq<Seq<u8>>)
    requires
        fresh(group_state(d, p)),
        hs.len() > 0,
        forall|i: int| 0 <= i < hs.len() ==> header_line(d, #[trigger] hs[i]),
        es.len() > 0,
        forall|i: int| 0 <= i < es.len() ==> classify_spec(d, #[trigger] es[i]) is Some,
    ensures
        groups_spec(d, p + hs + es).len() > 0,
        groups_spec(d, p + hs + es).last() == (GroupModel { title: comment_text_spec(hs[0]), entries: entries_of(d, es) }),
{
    lemma_entries(d, p, hs, es, es.len() as int);
    assert(es.take(es.len() as int) =~= es);
}

/// The grouping starts afresh at the top of a file.
pub proof fn law_fresh_at_start(d: Dialect)
    ensures
        fresh(group_state(d, Seq::empty())),
{
}

/// A blank line: no entry, nothing but blanks.
pub open spec fn blank_line(d: Dialect, raw: Seq<u8>) -> bool {
    classify_spec(d, raw) is None && blank_line_spec(raw)
}

proof fn lemma_blanks(d: Dialect, p: Seq<Seq<u8>>, hs: Seq<Seq<u8>>, bs: Seq<Seq<u8>>, k: int)
    requires
        fresh(group_state(d, p)),
        hs.len() > 0,
        forall|i: int| 0 <= i < hs.len() ==> header_line(d, #[trigger] hs[i]),
        0 < k <= bs.len(),
        forall|i: int| 0 <= i < bs.len() ==> blank_line(d, #[trigger] bs[i]),
    ensures
        group_state(d, p + hs + bs.take(k)) == (GroupState {
            out: group_state(d, p).out,
            title: None,
            entries: Seq::empty(),
            pending: comment_text_spec(hs[0]),
        }),
    decreases k,
{
    assert((p + hs + bs.take(k)).drop_last() =~= p + hs + bs.take(k - 1));
    assert((p + hs + bs.take(k)).last() == bs[k - 1]);
    assert(blank_line(d, bs[k - 1]));
    assert(header_line(d, hs[0]));
    assert(group_state(d, p + hs + bs.take(k)) == group_step(d, group_state(d, p + hs + bs.take(k - 1)), bs[k - 1]));
    if k == 1 {
        lemma_headers(d, p, hs, hs.len() as int);
        assert(p + hs + bs.take(0) =~= p + hs.take(hs.len() as int));
    } else {
        lemma_blanks(d, p, hs, bs, k - 1);
    }
}

proof fn lemma_carried_entries(d: Dialect, p: Seq<Seq<u8>>, hs: Seq<Seq<u8>>, bs: Seq<Seq<u8>>, es: Seq<Seq<u8>>, k: int)
    requires
        fresh(group_state(d, p)),
        hs.len() > 0,
        forall|i: int| 0 <= i < hs.len() ==> header_line(d, #[trigger] hs[i]),
        bs.len() > 0,
        forall|i: int| 0 <= i < bs.len() ==> blank_line(d, #[trigger] bs[i]),
        0 < k <= es.len(),
        forall|i: int| 0 <= i < es.len() ==> classify_spec(d, #[trigger] es[i]) is Some,
    ensures
        group_state(d, p + hs + bs + es.take(k)) == (GroupState {
            out: group_state(d, p).out,
            title: comment_text_spec(hs[0]),
            entries: entries_of(d, es.take(k)),
            pending: None,
        }),
    decreases k,
{
    assert((p + hs + bs + es.take(k)).drop_last() =~= p + hs + bs + es.take(k - 1));
    assert((p + hs + bs + es.take(k)).last() == es[k - 1]);
    assert(classify_spec(d, es[k - 1]) is Some);
    assert(group_state(d, p + hs + bs + es.take(k)) == group_step(d, group_state(d, p + hs + bs + es.take(k - 1)), es[k - 1]));
    assert(entries_of(d, es.take(k)) =~= entries_of(d, es.take(k - 1)).push(classify_spec(d, es[k - 1]).unwrap()));
    if k == 1 {
        lemma_blanks(d, p, hs, bs, bs.len() as int);
        assert(p + hs + bs + es.take(0) =~= p + hs + bs.take(bs.len() as int));
        assert(entries_of(d, es.take(0)) =~= Seq::<EntryModel>::empty());
    } else {
        lemma_carried_entries(d, p, hs, bs, es, k - 1);
    }
}

/// A header with no entries of its own carries to the next block: header
/// lines, then blank lines, then entry lines (the grouping starting afresh)
/// form one group titled by the first header.
pub proof fn law_header_carries_over_blanks(d: Dialect, p: Seq<Seq<u8>>, hs: Seq<Seq<u8>>, bs: Seq<Seq<u8>>, es: Seq<Seq<u8>>)
    requires
        fresh(group_state(d, p)),
        hs.len() > 0,
        forall|i: int| 0 <= i < hs.len() ==> header_line(d, #[trigger] hs[i]),
        bs.len() > 0,
        forall|i: int| 0 <= i < bs.len() ==> blank_line(d, #[trigger] bs[i]),
        es.len() > 0,
        forall|i: int| 0 <= i < es.len() ==> classify_spec(d, #[trigger] es[i]) is Some,
    ensures
        groups_spec(d, p + hs + bs + es).len() > 0,
        groups_spec(d, p + hs + bs + es).last() == (GroupModel { title: comment_text_spec(hs[0]), entries: entries_of(d, es) }),
{
    lemma_carried_entries(d, p, hs, bs, es, es.len() as int);
    assert(es.take(es.len() as int) =~= es);
}

/// A blank line after entries closes their group and the grouping starts
/// afresh, so the laws above hold for every block after the first too.
pub proof fn law_blank_line_starts_afresh(d: Dialect, ls: Seq<Seq<u8>>, b: Seq<u8>)
    requires
        group_state(d, ls).entries.len() > 0,
        blank_line(d, b),
    ensures
        fresh(group_state(d, ls.push(b))),
        group_state(d, ls.push(b)).out.last().entries == group_state(d, ls).entries,
{
    assert(ls.push(b).drop_last() =~= ls);
}

} // verus!

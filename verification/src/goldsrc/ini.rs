//! Byte-preserving round-trip document for GoldSource `plugins.ini` files.
//!
//! Real-world files are frequently CRLF, may start with a UTF-8 BOM and often
//! contain CP1251 comments, so the document never converts whole files to
//! UTF-8. Lines are kept as raw bytes (terminator included); serialization is
//! plain concatenation, and edits touch only the `;` marker or the edited line.

pub mod laws;
pub mod line;
pub mod reread;
pub mod titles;

use vstd::prelude::*;

use crate::goldsrc::paths;
use crate::text::{self, chars_of, push_range, string_from_chars, trim_bounds};
use line::{blank_line_spec, comment_text, comment_text_spec, is_blank_line, content_of, lemma_entry_offsets, term_len, classify_spec, marker_body_offsets, parse_fields, terminator_len};

verus! {

#[derive(Clone, Copy, PartialEq, Eq, Debug, Structural)]
pub enum Dialect {
    Metamod,
    Amxx,
}

/// Character-level view of an entry's fields.
pub enum FieldsModel {
    Metamod { platform: Seq<char>, path: Seq<char>, rest: Seq<char> },
    Amxx { file: Seq<char>, rest: Seq<char> },
}

/// View of a parsed entry: offsets are into the line without its terminator.
#[derive(Clone, Copy, PartialEq, Eq, Debug, Structural)]
pub struct EntryNotFound;

pub struct EntryModel {
    pub enabled: bool,
    pub marker_start: nat,
    pub body_start: nat,
    pub fields: FieldsModel,
}

#[derive(Clone, Debug)]
pub struct Entry {
    pub enabled: bool,
    /// Where the content begins in `raw` (after indent, BOM and, when
    /// disabled, the comment-marker run).
    body_start: usize,
    /// Start of the marker run (equals `body_start` when enabled).
    marker_start: usize,
    pub fields: EntryFields,
}

#[derive(Clone, Debug)]
pub enum EntryFields {
    Metamod { platform: String, path: String, rest: String },
    Amxx { file: String, rest: String },
}

impl View for EntryFields {
    type V = FieldsModel;

    open spec fn view(&self) -> FieldsModel {
        match self {
            EntryFields::Metamod { platform, path, rest } => FieldsModel::Metamod {
                platform: platform@,
                path: path@,
                rest: rest@,
            },
            EntryFields::Amxx { file, rest } => FieldsModel::Amxx { file: file@, rest: rest@ },
        }
    }
}

impl View for Entry {
    type V = EntryModel;

    closed spec fn view(&self) -> EntryModel {
        EntryModel {
            enabled: self.enabled,
            marker_start: self.marker_start as nat,
            body_start: self.body_start as nat,
            fields: self.fields@,
        }
    }
}


enum LineKind {
    Entry(Entry),
    Other,
}

impl View for LineKind {
    type V = Option<EntryModel>;

    closed spec fn view(&self) -> Option<EntryModel> {
        match self {
            LineKind::Entry(e) => Some(e@),
            LineKind::Other => None,
        }
    }
}

struct Line {
    /// Full line bytes including its terminator ("\n", "\r\n" or none for the last line).
    raw: Vec<u8>,
    kind: LineKind,
}

pub struct Document {
    dialect: Dialect,
    lines: Vec<Line>,
}

/// A document is its dialect and its raw lines (terminators included).
pub struct DocModel {
    pub dialect: Dialect,
    pub lines: Seq<Seq<u8>>,
}

impl View for Document {
    type V = DocModel;

    closed spec fn view(&self) -> DocModel {
        DocModel { dialect: self.dialect, lines: self.lines@.map_values(|l: Line| l.raw@) }
    }
}

/// Index just past the first '\n' at or after `i` (the length when there is none).
pub open spec fn newline_end(b: Seq<u8>, i: nat) -> nat
    decreases b.len() - i,
{
    if i >= b.len() {
        b.len()
    } else if b[i as int] == 10 {
        i + 1
    } else {
        newline_end(b, i + 1)
    }
}

pub proof fn lemma_newline_end(b: Seq<u8>, i: nat)
    requires
        i < b.len(),
    ensures
        i < newline_end(b, i) <= b.len(),
    decreases b.len() - i,
{
    if b[i as int] != 10 {
        if i + 1 < b.len() {
            lemma_newline_end(b, i + 1);
        } else {
            assert(newline_end(b, i + 1) == b.len());
        }
    }
}

/// The lines of `b`, each ending after its '\n' (the last one possibly without).
pub open spec fn split_lines(b: Seq<u8>) -> Seq<Seq<u8>>
    decreases b.len(),
{
    if b.len() == 0 {
        Seq::empty()
    } else {
        proof {
            lemma_newline_end(b, 0);
        }
        let n = newline_end(b, 0);
        seq![b.take(n as int)] + split_lines(b.skip(n as int))
    }
}

/// Concatenation of the lines.
pub open spec fn concat_lines(ls: Seq<Seq<u8>>) -> Seq<u8>
    decreases ls.len(),
{
    if ls.len() == 0 {
        Seq::empty()
    } else {
        ls[0] + concat_lines(ls.drop_first())
    }
}

pub proof fn lemma_concat_push(ls: Seq<Seq<u8>>, x: Seq<u8>)
    ensures
        concat_lines(ls.push(x)) == concat_lines(ls) + x,
    decreases ls.len(),
{
    if ls.len() == 0 {
        assert(ls.push(x).drop_first() =~= Seq::<Seq<u8>>::empty());
        assert(concat_lines(Seq::<Seq<u8>>::empty()) == Seq::<u8>::empty());
        assert(concat_lines(ls.push(x)) =~= x);
    } else {
        assert(ls.push(x).drop_first() =~= ls.drop_first().push(x));
        lemma_concat_push(ls.drop_first(), x);
        assert(concat_lines(ls.push(x)) =~= concat_lines(ls) + x);
    }
}

fn classify(dialect: Dialect, raw: &Vec<u8>) -> (r: LineKind)
    ensures
        r@ == classify_spec(dialect, raw@),
{
    let end = raw.len() - terminator_len(raw);
    let (marker_start, body_start) = marker_body_offsets(raw, end);
    let ghost c = raw@.take(end as int);
    assert(c.skip(body_start as int) =~= raw@.subrange(body_start as int, end as int));
    match parse_fields(dialect, raw, body_start, end) {
        Some(fields) => LineKind::Entry(Entry {
            enabled: marker_start == body_start,
            body_start,
            marker_start,
            fields,
        }),
        None => LineKind::Other,
    }
}

fn push_bytes(out: &mut Vec<u8>, src: &[u8])
    ensures
        final(out)@ == old(out)@ + src@,
{
    let mut i: usize = 0;
    while i < src.len()
        invariant
            i <= src.len(),
            out@ == old(out)@ + src@.take(i as int),
        decreases src.len() - i,
    {
        out.push(src[i]);
        i += 1;
        assert(out@ =~= old(out)@ + src@.take(i as int));
    }
    assert(src@.take(i as int) =~= src@);
}

/// The entries of the lines, in file order.
pub open spec fn line_entries(d: Dialect, ls: Seq<Seq<u8>>) -> Seq<EntryModel>
    decreases ls.len(),
{
    if ls.len() == 0 {
        Seq::empty()
    } else {
        let r = line_entries(d, ls.drop_last());
        match classify_spec(d, ls.last()) {
            Some(e) => r.push(e),
            None => r,
        }
    }
}

/// The key an entry is addressed by: file name for AMXX, path basename for Metamod.
pub open spec fn key_spec(f: FieldsModel) -> Seq<char> {
    match f {
        FieldsModel::Amxx { file, .. } => file,
        FieldsModel::Metamod { path, .. } => paths::file_name_spec(path),
    }
}

/// AMXX: file name equal to `key` ignoring ASCII case. Metamod: with
/// backslashes read as slashes, the path's basename or the whole path equal
/// to `key` ignoring ASCII case.
pub open spec fn entry_matches_spec(f: FieldsModel, key: Seq<char>) -> bool {
    match f {
        FieldsModel::Amxx { file, .. } => text::eq_ci(file, key),
        FieldsModel::Metamod { path, .. } => {
            let n = paths::normalize_spec(path);
            text::eq_ci(paths::file_name_spec(n), key) || text::eq_ci(n, paths::normalize_spec(key))
        },
    }
}

pub open spec fn line_matches(d: Dialect, raw: Seq<u8>, key: Seq<char>) -> bool {
    match classify_spec(d, raw) {
        Some(e) => entry_matches_spec(e.fields, key),
        None => false,
    }
}

/// Index of the first line holding an entry that matches `key`.
pub open spec fn first_match(d: Dialect, ls: Seq<Seq<u8>>, key: Seq<char>) -> Option<int>
    decreases ls.len(),
{
    if ls.len() == 0 {
        None
    } else {
        match first_match(d, ls.drop_last(), key) {
            Some(i) => Some(i),
            None => if line_matches(d, ls.last(), key) {
                Some(ls.len() - 1)
            } else {
                None
            },
        }
    }
}

pub proof fn lemma_first_match_extends(d: Dialect, ls: Seq<Seq<u8>>, key: Seq<char>, k: int)
    requires
        0 <= k <= ls.len(),
        first_match(d, ls.take(k), key) is Some,
    ensures
        first_match(d, ls, key) == first_match(d, ls.take(k), key),
    decreases ls.len() - k,
{
    if k < ls.len() {
        assert(ls.take(k + 1).drop_last() =~= ls.take(k));
        lemma_first_match_extends(d, ls, key, k + 1);
    } else {
        assert(ls.take(k) =~= ls);
    }
}

pub proof fn lemma_first_match_bounds(d: Dialect, ls: Seq<Seq<u8>>, key: Seq<char>)
    ensures
        first_match(d, ls, key) matches Some(i) ==> 0 <= i < ls.len() && line_matches(d, ls[i], key)
            && forall|j: int| 0 <= j < i ==> !line_matches(d, #[trigger] ls[j], key),
        first_match(d, ls, key) is None ==> forall|j: int| 0 <= j < ls.len() ==> !line_matches(d, #[trigger] ls[j], key),
    decreases ls.len(),
{
    if ls.len() > 0 {
        lemma_first_match_bounds(d, ls.drop_last(), key);
        assert forall|j: int| 0 <= j < ls.len() - 1 implies ls.drop_last()[j] == ls[j] by {}
    }
}

fn entry_matches(entry: &Entry, key: &str) -> (r: bool)
    ensures
        r == entry_matches_spec(entry.fields@, key@),
{
    match &entry.fields {
        EntryFields::Amxx { file, .. } => text::eq_ignore_ascii_case(file.as_str(), key),
        EntryFields::Metamod { path, .. } => {
            let normalized = paths::normalize_slashes(path.as_str());
            if text::eq_ignore_ascii_case(paths::file_name(normalized.as_str()), key) {
                return true;
            }
            let nkey = paths::normalize_slashes(key);
            text::eq_ignore_ascii_case(normalized.as_str(), nkey.as_str())
        },
    }
}

/// `raw` with the marker run (and the blanks after it) removed.
pub open spec fn enabled_raw(raw: Seq<u8>, e: EntryModel) -> Seq<u8> {
    raw.take(e.marker_start as int) + raw.skip(e.body_start as int)
}

/// `raw` with a `;` inserted where the marker run starts.
pub open spec fn disabled_raw(raw: Seq<u8>, e: EntryModel) -> Seq<u8> {
    raw.insert(e.marker_start as int, 59u8)
}

/// Number of lines ending with `suffix`.
pub open spec fn count_ending(ls: Seq<Seq<u8>>, suffix: Seq<u8>) -> nat
    decreases ls.len(),
{
    if ls.len() == 0 {
        0
    } else {
        count_ending(ls.drop_last(), suffix) + if text::ends_with(ls.last(), suffix) {
            1nat
        } else {
            0nat
        }
    }
}

/// "\r\n" when CRLF lines outnumber plain LF lines, else "\n".
pub open spec fn dominant_term(ls: Seq<Seq<u8>>) -> Seq<u8> {
    let crlf = count_ending(ls, seq![13u8, 10u8]);
    let lf = count_ending(ls, seq![10u8]) - crlf;
    if crlf > lf {
        seq![13u8, 10u8]
    } else {
        seq![10u8]
    }
}

/// Bytes of a new entry line: `;` when disabled, the body, the terminator.
pub open spec fn entry_line(body: Seq<char>, enabled: bool, term: Seq<u8>) -> Seq<u8> {
    (if enabled {
        Seq::empty()
    } else {
        seq![59u8]
    }) + vstd::utf8::encode_utf8(body) + term
}

/// The lines after `append_entry`: an unterminated last line gets the
/// dominant terminator, then the new line follows.
pub open spec fn appended_lines(ls: Seq<Seq<u8>>, body: Seq<char>, enabled: bool) -> Seq<Seq<u8>> {
    let t = dominant_term(ls);
    let fixed = if ls.len() > 0 && !text::ends_with(ls.last(), seq![10u8]) {
        ls.update(ls.len() - 1, ls.last() + t)
    } else {
        ls
    };
    fixed.push(entry_line(body, enabled, t))
}

/// The terminator bytes of a line.
pub open spec fn terminator_of(raw: Seq<u8>) -> Seq<u8> {
    raw.skip(raw.len() - term_len(raw))
}

/// A run of entries grouped for display by their `;`-header comment. `title` is
/// `None` for entries not under any header (rendered as a common "Other" group).
pub struct EntryGroup<'a> {
    pub title: Option<String>,
    pub entries: Vec<&'a Entry>,
}

pub struct GroupModel {
    pub title: Option<Seq<char>>,
    pub entries: Seq<EntryModel>,
}

pub open spec fn opt_chars(o: Option<String>) -> Option<Seq<char>> {
    match o {
        Some(s) => Some(s@),
        None => None,
    }
}

impl<'a> View for EntryGroup<'a> {
    type V = GroupModel;

    open spec fn view(&self) -> GroupModel {
        GroupModel {
            title: opt_chars(self.title),
            entries: self.entries@.map_values(|e: &Entry| e@),
        }
    }
}

/// Grouping state after a prefix of the lines: finished groups, the open
/// group's title and entries, and a header waiting for a header-less block.
pub struct GroupState {
    pub out: Seq<GroupModel>,
    pub title: Option<Seq<char>>,
    pub entries: Seq<EntryModel>,
    pub pending: Option<Seq<char>>,
}

pub open spec fn group_step(d: Dialect, st: GroupState, raw: Seq<u8>) -> GroupState {
    match classify_spec(d, raw) {
        Some(e) => if st.entries.len() == 0 && st.title is None {
            GroupState { out: st.out, title: st.pending, entries: st.entries.push(e), pending: None }
        } else {
            GroupState { out: st.out, title: st.title, entries: st.entries.push(e), pending: st.pending }
        },
        None => if blank_line_spec(raw) {
            if st.entries.len() > 0 {
                GroupState {
                    out: st.out.push(GroupModel { title: st.title, entries: st.entries }),
                    title: None,
                    entries: Seq::empty(),
                    pending: None,
                }
            } else if st.title is Some {
                GroupState { out: st.out, title: None, entries: st.entries, pending: st.title }
            } else {
                st
            }
        } else {
            match comment_text_spec(raw) {
                None => st,
                Some(text) => if st.entries.len() > 0 {
                    GroupState {
                        out: st.out.push(GroupModel { title: st.title, entries: st.entries }),
                        title: Some(text),
                        entries: Seq::empty(),
                        pending: None,
                    }
                } else if st.title is None {
                    GroupState { out: st.out, title: Some(text), entries: st.entries, pending: None }
                } else {
                    st
                },
            }
        },
    }
}

pub open spec fn group_state(d: Dialect, ls: Seq<Seq<u8>>) -> GroupState
    decreases ls.len(),
{
    if ls.len() == 0 {
        GroupState { out: Seq::empty(), title: None, entries: Seq::empty(), pending: None }
    } else {
        group_step(d, group_state(d, ls.drop_last()), ls.last())
    }
}

/// Display groups of the lines: blocks separated by blank lines, named by
/// their leading header; a comment after entries opens a new group, and a
/// header with no entries of its own carries to the next header-less block.
pub open spec fn groups_spec(d: Dialect, ls: Seq<Seq<u8>>) -> Seq<GroupModel> {
    let st = group_state(d, ls);
    if st.entries.len() > 0 {
        st.out.push(GroupModel { title: st.title, entries: st.entries })
    } else {
        st.out
    }
}

/// The entries of the groups, in order.
pub open spec fn group_entries(gs: Seq<GroupModel>) -> Seq<EntryModel>
    decreases gs.len(),
{
    if gs.len() == 0 {
        Seq::empty()
    } else {
        group_entries(gs.drop_last()) + gs.last().entries
    }
}

/// The groups partition the entries: every group holds at least one entry,
/// and the groups' entries, in order, are exactly the document's entries.
pub proof fn law_groups_partition(d: Dialect, ls: Seq<Seq<u8>>)
    ensures
        group_entries(groups_spec(d, ls)) == line_entries(d, ls),
        forall|i: int| 0 <= i < groups_spec(d, ls).len() ==> (#[trigger] groups_spec(d, ls)[i]).entries.len() > 0,
{
    lemma_group_state(d, ls);
    let st = group_state(d, ls);
    if st.entries.len() > 0 {
        let g = GroupModel { title: st.title, entries: st.entries };
        assert(st.out.push(g).drop_last() =~= st.out);
    } else {
        assert(st.entries =~= Seq::<EntryModel>::empty());
        assert(group_entries(st.out) + st.entries =~= group_entries(st.out));
    }
}

proof fn lemma_group_state(d: Dialect, ls: Seq<Seq<u8>>)
    ensures
        group_entries(group_state(d, ls).out) + group_state(d, ls).entries == line_entries(d, ls),
        forall|i: int| 0 <= i < group_state(d, ls).out.len() ==> (#[trigger] group_state(d, ls).out[i]).entries.len() > 0,
    decreases ls.len(),
{
    if ls.len() == 0 {
        assert(group_entries(Seq::<GroupModel>::empty()) + Seq::<EntryModel>::empty() =~= Seq::<EntryModel>::empty());
    } else {
        let prev = group_state(d, ls.drop_last());
        lemma_group_state(d, ls.drop_last());
        let st = group_state(d, ls);
        match classify_spec(d, ls.last()) {
            Some(e) => {
                assert(group_entries(st.out) + st.entries =~= (group_entries(prev.out) + prev.entries).push(e));
            },
            None => {
                if st.out.len() > prev.out.len() {
                    let g = GroupModel { title: prev.title, entries: prev.entries };
                    assert(st.out =~= prev.out.push(g));
                    assert(st.out.drop_last() =~= prev.out);
                    assert(group_entries(st.out) + st.entries =~= group_entries(prev.out) + prev.entries);
                } else {
                    assert(st.out == prev.out);
                }
            },
        }
    }
}

impl Entry {
    pub fn is_enabled(&self) -> (r: bool)
        ensures
            r == self@.enabled,
    {
        self.enabled
    }

    pub fn entry_fields(&self) -> (r: &EntryFields)
        ensures
            r@ == self@.fields,
    {
        &self.fields
    }
}

impl EntryFields {
    /// The key the entry is addressed by: file name for AMXX,
    /// path basename for Metamod.
    pub fn key(&self) -> (r: &str)
        ensures
            r@ == key_spec(self@),
    {
        match self {
            EntryFields::Amxx { file, .. } => file.as_str(),
            EntryFields::Metamod { path, .. } => paths::file_name(path.as_str()),
        }
    }
}

impl Document {
    /// Every line is classified as its raw bytes say.
    #[verifier::type_invariant]
    spec fn wf(&self) -> bool {
        forall|i: int|
            0 <= i < self.lines.len() ==> (#[trigger] self.lines@[i]).kind@ == classify_spec(
                self.dialect,
                self.lines@[i].raw@,
            )
    }

    /// Never fails: lines that do not look like plugin entries round-trip
    /// verbatim as `Other`.
    pub fn parse(dialect: Dialect, bytes: &[u8]) -> (r: Document)
        ensures
            r@.dialect == dialect,
            r@.lines == split_lines(bytes@),
    {
        let mut lines: Vec<Line> = Vec::new();
        let mut pos: usize = 0;
        assert(bytes@.skip(0) =~= bytes@);
        while pos < bytes.len()
            invariant
                pos <= bytes.len(),
                lines@.map_values(|l: Line| l.raw@) + split_lines(bytes@.skip(pos as int))
                    == split_lines(bytes@),
                forall|i: int|
                    0 <= i < lines.len() ==> (#[trigger] lines@[i]).kind@ == classify_spec(
                        dialect,
                        lines@[i].raw@,
                    ),
            decreases bytes.len() - pos,
        {
            let ghost rest = bytes@.skip(pos as int);
            let mut j = pos;
            while j < bytes.len() && bytes[j] != 10
                invariant
                    pos <= j <= bytes.len(),
                    rest == bytes@.skip(pos as int),
                    newline_end(rest, (j - pos) as nat) == newline_end(rest, 0),
                decreases bytes.len() - j,
            {
                j += 1;
            }
            let end = if j < bytes.len() {
                j + 1
            } else {
                j
            };
            assert(end - pos == newline_end(rest, 0));
            let raw = vstd::slice::slice_to_vec(vstd::slice::slice_subrange(bytes, pos, end));
            let kind = classify(dialect, &raw);
            let ghost prev = lines@.map_values(|l: Line| l.raw@);
            lines.push(Line { raw, kind });
            proof {
                assert(rest.take(end - pos) =~= bytes@.subrange(pos as int, end as int));
                assert(rest.skip(end - pos) =~= bytes@.skip(end as int));
                assert(lines@.map_values(|l: Line| l.raw@) =~= prev.push(bytes@.subrange(pos as int, end as int)));
                assert(split_lines(rest) =~= seq![bytes@.subrange(pos as int, end as int)] + split_lines(bytes@.skip(end as int)));
                assert(prev.push(bytes@.subrange(pos as int, end as int)) + split_lines(bytes@.skip(end as int))
                    =~= prev + split_lines(rest));
            }
            pos = end;
        }
        assert(split_lines(bytes@.skip(pos as int)) =~= Seq::<Seq<u8>>::empty());
        assert(lines@.map_values(|l: Line| l.raw@) =~= split_lines(bytes@));
        Document { dialect, lines }
    }

    /// The entries, in file order.
    pub fn entries(&self) -> (r: Vec<&Entry>)
        ensures
            r@.map_values(|e: &Entry| e@) == line_entries(self@.dialect, self@.lines),
    {
        proof { use_type_invariant(self); }
        let mut out: Vec<&Entry> = Vec::new();
        let mut i: usize = 0;
        while i < self.lines.len()
            invariant
                i <= self.lines.len(),
                self.wf(),
                out@.map_values(|e: &Entry| e@) == line_entries(self@.dialect, self@.lines.take(i as int)),
            decreases self.lines.len() - i,
        {
            let ghost prev = out@.map_values(|e: &Entry| e@);
            assert(self@.lines.take(i + 1).drop_last() =~= self@.lines.take(i as int));
            assert(self@.lines[i as int] == self.lines@[i as int].raw@);
            match &self.lines[i].kind {
                LineKind::Entry(entry) => {
                    out.push(entry);
                    assert(out@.map_values(|e: &Entry| e@) =~= prev.push(entry@));
                },
                LineKind::Other => {},
            }
            i += 1;
        }
        assert(self@.lines.take(i as int) =~= self@.lines);
        out
    }

    /// Partitions the entries into display groups (file order, only groups with
    /// at least one entry). Blocks are separated by blank lines and named by
    /// their leading `;`-header. Two refinements over plain blocks make the
    /// grouping robust to real files: a comment appearing *after* entries starts
    /// a new group, and a header with no entries of its own carries forward to
    /// the next header-less block.
    pub fn groups(&self) -> (r: Vec<EntryGroup<'_>>)
        ensures
            r@.map_values(|g: EntryGroup| g@) == groups_spec(self@.dialect, self@.lines),
    {
        proof { use_type_invariant(self); }
        let mut out: Vec<EntryGroup<'_>> = Vec::new();
        let mut title: Option<String> = None;
        let mut entries: Vec<&Entry> = Vec::new();
        let mut pending: Option<String> = None;
        let mut i: usize = 0;
        while i < self.lines.len()
            invariant
                i <= self.lines.len(),
                self.wf(),
                ({
                    let st = group_state(self@.dialect, self@.lines.take(i as int));
                    &&& out@.map_values(|g: EntryGroup| g@) == st.out
                    &&& opt_chars(title) == st.title
                    &&& entries@.map_values(|e: &Entry| e@) == st.entries
                    &&& opt_chars(pending) == st.pending
                }),
            decreases self.lines.len() - i,
        {
            let ghost prev_out = out@.map_values(|g: EntryGroup| g@);
            let ghost prev_entries = entries@.map_values(|e: &Entry| e@);
            assert(self@.lines.take(i + 1).drop_last() =~= self@.lines.take(i as int));
            assert(self@.lines[i as int] == self.lines@[i as int].raw@);
            let line = &self.lines[i];
            match &line.kind {
                LineKind::Entry(entry) => {
                    if entries.len() == 0 && title.is_none() {
                        title = pending;
                        pending = None;
                    }
                    entries.push(entry);
                    assert(entries@.map_values(|e: &Entry| e@) =~= prev_entries.push(entry@));
                },
                LineKind::Other => {
                    if is_blank_line(&line.raw) {
                        if entries.len() > 0 {
                            let group = EntryGroup { title, entries };
                            out.push(group);
                            title = None;
                            entries = Vec::new();
                            pending = None;
                            assert(out@.map_values(|g: EntryGroup| g@) =~= prev_out.push(group@));
                            assert(entries@.map_values(|e: &Entry| e@) =~= Seq::<EntryModel>::empty());
                        } else if title.is_some() {
                            pending = title;
                            title = None;
                        }
                    } else {
                        match comment_text(&line.raw) {
                            None => {},
                            Some(text) => {
                                if entries.len() > 0 {
                                    let group = EntryGroup { title, entries };
                                    out.push(group);
                                    title = Some(text);
                                    entries = Vec::new();
                                    pending = None;
                                    assert(out@.map_values(|g: EntryGroup| g@) =~= prev_out.push(group@));
                                    assert(entries@.map_values(|e: &Entry| e@) =~= Seq::<EntryModel>::empty());
                                } else if title.is_none() {
                                    title = Some(text);
                                    pending = None;
                                }
                            },
                        }
                    }
                },
            }
            i += 1;
        }
        assert(self@.lines.take(i as int) =~= self@.lines);
        if entries.len() > 0 {
            let ghost prev_out = out@.map_values(|g: EntryGroup| g@);
            let group = EntryGroup { title, entries };
            out.push(group);
            assert(out@.map_values(|g: EntryGroup| g@) =~= prev_out.push(group@));
        }
        out
    }

    /// AMXX: exact file-name match. Metamod: basename or full ini path match.
    pub fn find_entry(&self, key: &str) -> (r: Option<usize>)
        ensures
            match r {
                Some(i) => first_match(self@.dialect, self@.lines, key@) == Some(i as int),
                None => first_match(self@.dialect, self@.lines, key@) is None,
            },
    {
        proof { use_type_invariant(self); }
        let mut i: usize = 0;
        while i < self.lines.len()
            invariant
                i <= self.lines.len(),
                self.wf(),
                first_match(self@.dialect, self@.lines.take(i as int), key@) is None,
            decreases self.lines.len() - i,
        {
            assert(self@.lines.take(i + 1).drop_last() =~= self@.lines.take(i as int));
            assert(self@.lines[i as int] == self.lines@[i as int].raw@);
            match &self.lines[i].kind {
                LineKind::Entry(entry) => {
                    if entry_matches(entry, key) {
                        proof {
                            lemma_first_match_extends(self@.dialect, self@.lines, key@, i + 1);
                        }
                        return Some(i);
                    }
                },
                LineKind::Other => {},
            }
            i += 1;
        }
        assert(self@.lines.take(i as int) =~= self@.lines);
        None
    }

    pub fn entry_at(&self, index: usize) -> (r: Option<&Entry>)
        ensures
            match r {
                Some(e) => index < self@.lines.len() && classify_spec(self@.dialect, self@.lines[index as int]) == Some(e@),
                None => index >= self@.lines.len() || classify_spec(self@.dialect, self@.lines[index as int]) is None,
            },
    {
        proof { use_type_invariant(self); }
        if index >= self.lines.len() {
            return None;
        }
        assert(self@.lines[index as int] == self.lines@[index as int].raw@);
        match &self.lines[index].kind {
            LineKind::Entry(entry) => Some(entry),
            LineKind::Other => None,
        }
    }

    /// Ok(true) — modified, Ok(false) — already in the requested state.
    pub fn set_enabled(&mut self, key: &str, enabled: bool) -> (r: Result<bool, EntryNotFound>)
        ensures
            final(self)@.dialect == old(self)@.dialect,
            match first_match(old(self)@.dialect, old(self)@.lines, key@) {
                None => r == Err::<bool, EntryNotFound>(EntryNotFound) && final(self)@ == old(self)@,
                Some(i) => {
                    let raw = old(self)@.lines[i];
                    let e = classify_spec(old(self)@.dialect, raw).unwrap();
                    if e.enabled == enabled {
                        r == Ok::<bool, EntryNotFound>(false) && final(self)@ == old(self)@
                    } else {
                        r == Ok::<bool, EntryNotFound>(true) && final(self)@.lines == old(self)@.lines.update(
                            i,
                            if enabled {
                                enabled_raw(raw, e)
                            } else {
                                disabled_raw(raw, e)
                            },
                        )
                    }
                },
            },
    {
        proof { use_type_invariant(&*self); }
        let index = match self.find_entry(key) {
            Some(i) => i,
            None => return Err(EntryNotFound),
        };
        proof {
            lemma_first_match_bounds(self@.dialect, self@.lines, key@);
            lemma_entry_offsets(self.dialect, self.lines@[index as int].raw@);
        }
        assert(self@.lines[index as int] == self.lines@[index as int].raw@);
        let (cur, marker_start, body_start) = match &self.lines[index].kind {
            LineKind::Entry(entry) => (entry.enabled, entry.marker_start, entry.body_start),
            LineKind::Other => return Err(EntryNotFound),
        };
        if cur == enabled {
            return Ok(false);
        }
        let ghost old_raw = self.lines@[index as int].raw@;
        let raw: &Vec<u8> = &self.lines[index].raw;
        let mut new_raw: Vec<u8> = Vec::new();
        if enabled {
            let n = raw.len();
            push_bytes(&mut new_raw, vstd::slice::slice_subrange(raw.as_slice(), 0, marker_start));
            push_bytes(&mut new_raw, vstd::slice::slice_subrange(raw.as_slice(), body_start, n));
            assert(new_raw@ =~= old_raw.take(marker_start as int) + old_raw.skip(body_start as int));
        } else {
            push_bytes(&mut new_raw, raw.as_slice());
            new_raw.insert(marker_start, 59u8);
        }
        let kind = classify(self.dialect, &new_raw);
        self.replace_line(index, Line { raw: new_raw, kind });
        Ok(true)
    }

    /// Appends an entry line using the document's dominant line terminator.
    pub fn append_entry(&mut self, body: &str, enabled: bool)
        ensures
            final(self)@.dialect == old(self)@.dialect,
            final(self)@.lines == appended_lines(old(self)@.lines, body@, enabled),
    {
        proof { use_type_invariant(&*self); }
        let terminator = self.dominant_terminator();
        let n = self.lines.len();
        if n > 0 {
            let last = &self.lines[n - 1].raw;
            let l = last.len();
            let ends_lf = l >= 1 && last[l - 1] == 10;
            assert(self@.lines[n - 1] == last@);
            proof {
                if ends_lf {
                    assert(last@.skip(l - 1) =~= seq![10u8]);
                } else if l >= 1 {
                    assert(last@.skip(l - 1)[0] == last@[l - 1]);
                }
            }
            if !ends_lf {
                let mut fixed: Vec<u8> = Vec::new();
                push_bytes(&mut fixed, last.as_slice());
                push_bytes(&mut fixed, terminator.as_slice());
                let kind = classify(self.dialect, &fixed);
                self.replace_line(n - 1, Line { raw: fixed, kind });
            }
        }
        let mut raw: Vec<u8> = Vec::new();
        if !enabled {
            raw.push(59u8);
        }
        push_bytes(&mut raw, body.as_bytes());
        push_bytes(&mut raw, terminator.as_slice());
        let kind = classify(self.dialect, &raw);
        let ghost before = self@.lines;
        proof { use_type_invariant(&*self); }
        let mut lines: Vec<Line> = Vec::new();
        std::mem::swap(&mut lines, &mut self.lines);
        let ghost prev = lines@;
        lines.push(Line { raw, kind });
        proof {
            assert forall|j: int| 0 <= j < lines.len() implies (#[trigger] lines@[j]).kind@
                == classify_spec(self.dialect, lines@[j].raw@) by {
                if j < prev.len() {
                    assert(lines@[j] == prev[j]);
                }
            }
        }
        self.lines = lines;
        proof {
            assert(self@.lines =~= before.push(entry_line(body@, enabled, terminator@)));
        }
    }

    /// Rewrites the entry line in place (same position, same terminator) and
    /// returns the previous entry.
    pub fn replace_entry(&mut self, key: &str, body: &str, enabled: bool) -> (r: Result<Entry, EntryNotFound>)
        ensures
            final(self)@.dialect == old(self)@.dialect,
            match first_match(old(self)@.dialect, old(self)@.lines, key@) {
                None => r == Err::<Entry, EntryNotFound>(EntryNotFound) && final(self)@ == old(self)@,
                Some(i) => {
                    let raw = old(self)@.lines[i];
                    &&& r matches Ok(e) && classify_spec(old(self)@.dialect, raw) == Some(e@)
                    &&& final(self)@.lines == old(self)@.lines.update(
                        i,
                        entry_line(body@, enabled, terminator_of(raw)),
                    )
                },
            },
    {
        proof { use_type_invariant(&*self); }
        let index = match self.find_entry(key) {
            Some(i) => i,
            None => return Err(EntryNotFound),
        };
        proof {
            lemma_first_match_bounds(self@.dialect, self@.lines, key@);
        }
        assert(self@.lines[index as int] == self.lines@[index as int].raw@);
        let raw: &Vec<u8> = &self.lines[index].raw;
        let tl = terminator_len(raw);
        let mut new_raw: Vec<u8> = Vec::new();
        if !enabled {
            new_raw.push(59u8);
        }
        push_bytes(&mut new_raw, body.as_bytes());
        push_bytes(&mut new_raw, vstd::slice::slice_subrange(raw.as_slice(), raw.len() - tl, raw.len()));
        assert(raw@.subrange(raw.len() - tl, raw.len() as int) =~= terminator_of(raw@));
        let kind = classify(self.dialect, &new_raw);
        let ghost before = self@.lines;
        let mut lines: Vec<Line> = Vec::new();
        std::mem::swap(&mut lines, &mut self.lines);
        let old_line = lines.remove(index);
        lines.insert(index, Line { raw: new_raw, kind });
        self.lines = lines;
        proof {
            assert(self@.lines =~= before.update(index as int, entry_line(body@, enabled, terminator_of(before[index as int]))));
            assert forall|j: int| 0 <= j < self.lines.len() implies (#[trigger] self.lines@[j]).kind@
                == classify_spec(self.dialect, self.lines@[j].raw@) by {
                if j != index {
                    assert(self.lines@[j] == old(self).lines@[j]);
                }
            }
        }
        match old_line.kind {
            LineKind::Entry(entry) => Ok(entry),
            LineKind::Other => Err(EntryNotFound),
        }
    }

    /// Removes the whole entry line and returns the parsed entry.
    pub fn remove_entry(&mut self, key: &str) -> (r: Result<Entry, EntryNotFound>)
        ensures
            final(self)@.dialect == old(self)@.dialect,
            match first_match(old(self)@.dialect, old(self)@.lines, key@) {
                None => r == Err::<Entry, EntryNotFound>(EntryNotFound) && final(self)@ == old(self)@,
                Some(i) => {
                    &&& r matches Ok(e) && classify_spec(old(self)@.dialect, old(self)@.lines[i]) == Some(e@)
                    &&& final(self)@.lines == old(self)@.lines.remove(i)
                },
            },
    {
        proof { use_type_invariant(&*self); }
        let index = match self.find_entry(key) {
            Some(i) => i,
            None => return Err(EntryNotFound),
        };
        proof {
            lemma_first_match_bounds(self@.dialect, self@.lines, key@);
        }
        assert(self@.lines[index as int] == self.lines@[index as int].raw@);
        let ghost before = self@.lines;
        let mut lines: Vec<Line> = Vec::new();
        std::mem::swap(&mut lines, &mut self.lines);
        let line = lines.remove(index);
        self.lines = lines;
        proof {
            assert(self@.lines =~= before.remove(index as int));
            assert forall|j: int| 0 <= j < self.lines.len() implies (#[trigger] self.lines@[j]).kind@
                == classify_spec(self.dialect, self.lines@[j].raw@) by {
                if j < index {
                    assert(self.lines@[j] == old(self).lines@[j]);
                } else {
                    assert(self.lines@[j] == old(self).lines@[j + 1]);
                }
            }
        }
        match line.kind {
            LineKind::Entry(entry) => Ok(entry),
            LineKind::Other => Err(EntryNotFound),
        }
    }

    /// Puts `line` at `index` in place of the line there.
    fn replace_line(&mut self, index: usize, line: Line)
        requires
            index < old(self).lines.len(),
            line.kind@ == classify_spec(old(self).dialect, line.raw@),
        ensures
            final(self)@.dialect == old(self)@.dialect,
            final(self)@.lines == old(self)@.lines.update(index as int, line.raw@),
    {
        proof { use_type_invariant(&*self); }
        let ghost new_raw = line.raw@;
        let mut lines: Vec<Line> = Vec::new();
        std::mem::swap(&mut lines, &mut self.lines);
        lines.set(index, line);
        self.lines = lines;
        assert(self@.lines =~= old(self)@.lines.update(index as int, new_raw));
    }

    fn dominant_terminator(&self) -> (r: Vec<u8>)
        ensures
            r@ == dominant_term(self@.lines),
    {
        let mut crlf: usize = 0;
        let mut any_lf: usize = 0;
        let mut i: usize = 0;
        while i < self.lines.len()
            invariant
                i <= self.lines.len(),
                crlf == count_ending(self@.lines.take(i as int), seq![13u8, 10u8]),
                any_lf == count_ending(self@.lines.take(i as int), seq![10u8]),
                crlf <= any_lf <= i,
            decreases self.lines.len() - i,
        {
            let raw = &self.lines[i].raw;
            let l = raw.len();
            assert(self@.lines.take(i + 1).drop_last() =~= self@.lines.take(i as int));
            assert(self@.lines[i as int] == raw@);
            let ends_lf = l >= 1 && raw[l - 1] == 10;
            let ends_crlf = l >= 2 && raw[l - 2] == 13 && raw[l - 1] == 10;
            proof {
                if ends_lf {
                    assert(raw@.skip(l - 1) =~= seq![10u8]);
                } else if l >= 1 {
                    assert(raw@.skip(l - 1)[0] == raw@[l - 1]);
                }
                if ends_crlf {
                    assert(raw@.skip(l - 2) =~= seq![13u8, 10u8]);
                } else if l >= 2 {
                    assert(raw@.skip(l - 2)[0] == raw@[l - 2]);
                    assert(raw@.skip(l - 2)[1] == raw@[l - 1]);
                }
            }
            if ends_crlf {
                crlf += 1;
            }
            if ends_lf {
                any_lf += 1;
            }
            i += 1;
        }
        assert(self@.lines.take(i as int) =~= self@.lines);
        if crlf > any_lf - crlf {
            let t: Vec<u8> = vec![13u8, 10u8];
            assert(t@ =~= seq![13u8, 10u8]);
            t
        } else {
            let t: Vec<u8> = vec![10u8];
            assert(t@ =~= seq![10u8]);
            t
        }
    }

    /// Byte-identical for untouched documents.
    pub fn to_bytes(&self) -> (r: Vec<u8>)
        ensures
            r@ == concat_lines(self@.lines),
    {
        let mut out: Vec<u8> = Vec::new();
        let mut i: usize = 0;
        while i < self.lines.len()
            invariant
                i <= self.lines.len(),
                out@ == concat_lines(self@.lines.take(i as int)),
            decreases self.lines.len() - i,
        {
            proof {
                lemma_concat_push(self@.lines.take(i as int), self@.lines[i as int]);
                assert(self@.lines.take(i + 1) =~= self@.lines.take(i as int).push(self@.lines[i as int]));
            }
            push_bytes(&mut out, self.lines[i].raw.as_slice());
            i += 1;
        }
        assert(self@.lines.take(i as int) =~= self@.lines);
        out
    }
}

/// Whether an inline comment marker (`;`, `#` or `//`) starts at `i`.
pub open spec fn marker_at(s: Seq<char>, i: int) -> bool {
    s[i] == ';' || s[i] == '#' || (i + 1 < s.len() && s[i] == '/' && s[i + 1] == '/')
}

/// Index of the first inline comment marker at or after `i` (or the length).
pub open spec fn first_marker(s: Seq<char>, i: nat) -> nat
    decreases s.len() - i,
{
    if i >= s.len() {
        s.len()
    } else if marker_at(s, i as int) {
        i
    } else {
        first_marker(s, i + 1)
    }
}

/// First index at or after `i` that is not one of `;`, `#`, `/`.
pub open spec fn skip_mark_chars(s: Seq<char>, i: nat) -> nat
    decreases s.len() - i,
{
    if i < s.len() && (s[i as int] == ';' || s[i as int] == '#' || s[i as int] == '/') {
        skip_mark_chars(s, i + 1)
    } else {
        i
    }
}

/// Inline comments are searched byte by byte, probing `//` on the text from
/// each byte on; that probe needs a character boundary, so every character
/// before the first marker (all of them, when there is none) must be ASCII.
pub open spec fn comment_search_ok(s: Seq<char>) -> bool {
    forall|j: int| 0 <= j < first_marker(s, 0) ==> (#[trigger] s[j] as u32) < 128
}

/// Text of an inline comment: everything after the first marker run, trimmed.
pub open spec fn inline_comment_spec(s: Seq<char>) -> Option<Seq<char>> {
    let p = first_marker(s, 0);
    if p >= s.len() {
        None
    } else {
        let t = text::trim_ws(s.skip(skip_mark_chars(s, p) as int));
        if t.len() == 0 {
            None
        } else {
            Some(t)
        }
    }
}

/// First index at or after `i` holding a space or a tab (or the length).
pub open spec fn first_blank_char(s: Seq<char>, i: nat) -> nat
    decreases s.len() - i,
{
    if i >= s.len() {
        s.len()
    } else if s[i as int] == ' ' || s[i as int] == '\t' {
        i
    } else {
        first_blank_char(s, i + 1)
    }
}

/// The `debug` flag of an AMXX entry's trailing text and the text after it.
pub open spec fn debug_split(rest: Seq<char>) -> (bool, Seq<char>) {
    let r = text::trim_start_ws(rest);
    let e = first_blank_char(r, 0);
    if r.take(e as int) == "debug"@ {
        (true, r.skip(e as int))
    } else {
        (false, r)
    }
}

pub open spec fn meta_body_spec(file: Seq<char>, debug: bool, comment: Option<Seq<char>>) -> Seq<char> {
    file + (if debug {
        " debug"@
    } else {
        Seq::empty()
    }) + match comment {
        Some(c) => if text::trim_ws(c).len() > 0 {
            " ; "@ + text::trim_ws(c)
        } else {
            Seq::empty()
        },
        None => Seq::empty(),
    }
}

/// Text of an inline comment inside `s` — everything after the first `;`, `#` or
/// `//` marker run, trimmed. `None` when there is no marker or it is empty.
fn extract_inline_comment(s: &Vec<char>, from: usize) -> (r: Option<String>)
    requires
        from <= s.len(),
        comment_search_ok(s@.skip(from as int)),
    ensures
        opt_chars(r) == inline_comment_spec(s@.skip(from as int)),
{
    let ghost t = s@.skip(from as int);
    let mut i = from;
    while i < s.len() && !(s[i] == ';' || s[i] == '#' || (i + 1 < s.len() && s[i] == '/' && s[i + 1] == '/'))
        invariant
            from <= i <= s.len(),
            t == s@.skip(from as int),
            first_marker(t, (i - from) as nat) == first_marker(t, 0),
        decreases s.len() - i,
    {
        i += 1;
    }
    if i == s.len() {
        return None;
    }
    let mut b = i;
    while b < s.len() && (s[b] == ';' || s[b] == '#' || s[b] == '/')
        invariant
            from <= i <= b <= s.len(),
            t == s@.skip(from as int),
            skip_mark_chars(t, (b - from) as nat) == skip_mark_chars(t, (i - from) as nat),
        decreases s.len() - b,
    {
        assert(t[b - from] == s@[b as int]);
        b += 1;
    }
    let (x, y) = trim_bounds(s, b);
    assert(s@.skip(b as int) =~= t.skip(b - from));
    if x == y {
        return None;
    }
    let mut out: Vec<char> = Vec::new();
    push_range(&mut out, s, x, y);
    assert(out@ =~= s@.subrange(x as int, y as int));
    Some(string_from_chars(&out))
}

/// The `debug` flag of `rest` and where the text after it starts in `cs`.
fn split_debug(cs: &Vec<char>) -> (r: (bool, usize))
    ensures
        r.1 <= cs.len(),
        r.0 == debug_split(cs@).0,
        cs@.skip(r.1 as int) == debug_split(cs@).1,
{
    let (a, _) = trim_bounds(cs, 0);
    assert(cs@.skip(0) =~= cs@);
    let ghost r = cs@.skip(a as int);
    assert(r =~= text::trim_start_ws(cs@));
    let mut e = a;
    while e < cs.len() && !(cs[e] == ' ' || cs[e] == '\t')
        invariant
            a <= e <= cs.len(),
            r == cs@.skip(a as int),
            first_blank_char(r, (e - a) as nat) == first_blank_char(r, 0),
        decreases cs.len() - e,
    {
        e += 1;
    }
    let mut word: Vec<char> = Vec::new();
    push_range(&mut word, cs, a, e);
    assert(word@ =~= r.take(e - a));
    if text::chars_eq(&word, "debug") {
        assert(cs@.skip(e as int) =~= r.skip(e - a));
        (true, e)
    } else {
        (false, a)
    }
}

proof fn lemma_first_marker_ge(t: Seq<char>, i: nat)
    ensures
        i <= t.len() ==> first_marker(t, i) >= i,
    decreases t.len() - i,
{
    if i < t.len() && !marker_at(t, i as int) {
        lemma_first_marker_ge(t, i + 1);
    }
}

/// Whether `comment_search_ok` holds of `s[from..]`.
fn comment_search_safe(s: &Vec<char>, from: usize) -> (r: bool)
    requires
        from <= s.len(),
    ensures
        r == comment_search_ok(s@.skip(from as int)),
{
    let ghost t = s@.skip(from as int);
    let mut i = from;
    while i < s.len() && !(s[i] == ';' || s[i] == '#' || (i + 1 < s.len() && s[i] == '/' && s[i + 1] == '/'))
        invariant
            from <= i <= s.len(),
            t == s@.skip(from as int),
            first_marker(t, (i - from) as nat) == first_marker(t, 0),
            forall|j: int| 0 <= j < i - from ==> (#[trigger] t[j] as u32) < 128,
        decreases s.len() - i,
    {
        if (s[i] as u32) >= 128 {
            assert(!comment_search_ok(t)) by {
                assert(first_marker(t, (i - from) as nat) > i - from) by {
                    assert(t[i - from] == s@[i as int]);
                    if i + 1 < s.len() {
                        assert(t[i - from + 1] == s@[i + 1]);
                    }
                    assert(!marker_at(t, i - from));
                    lemma_first_marker_ge(t, (i - from + 1) as nat);
                }
            }
            return false;
        }
        i += 1;
    }
    true
}

/// Splits an AMXX entry's trailing `rest` (everything after the file name) into
/// the `debug` flag and its inline comment. `debug` is true only when the first
/// token is exactly `debug`, matching the AMX Mod X loader (`strcmp`).
pub fn amxx_debug_comment(rest: &str) -> (r: (bool, Option<String>))
    requires
        comment_search_ok(debug_split(rest@).1),
    ensures
        r.0 == debug_split(rest@).0,
        opt_chars(r.1) == inline_comment_spec(debug_split(rest@).1),
{
    let cs = chars_of(rest);
    let (debug, start) = split_debug(&cs);
    (debug, extract_inline_comment(&cs, start))
}

/// `amxx_debug_comment` where its comment search is defined, `None` where it
/// is not (a non-ASCII character before the first marker).
pub fn try_amxx_debug_comment(rest: &str) -> (r: Option<(bool, Option<String>)>)
    ensures
        match r {
            Some((d, c)) => comment_search_ok(debug_split(rest@).1) && d == debug_split(rest@).0
                && opt_chars(c) == inline_comment_spec(debug_split(rest@).1),
            None => !comment_search_ok(debug_split(rest@).1),
        },
{
    let cs = chars_of(rest);
    let (debug, start) = split_debug(&cs);
    if !comment_search_safe(&cs, start) {
        return None;
    }
    Some((debug, extract_inline_comment(&cs, start)))
}

/// Canonical AMXX entry body: `file`, then ` debug` when set, then ` ; comment`
/// when non-empty. Used to rewrite a line when its debug flag or comment change.
pub fn amxx_meta_body(file: &str, debug: bool, comment: Option<&str>) -> (r: String)
    ensures
        r@ == meta_body_spec(
            file@,
            debug,
            match comment {
                Some(c) => Some(c@),
                None => None,
            },
        ),
{
    let mut out = chars_of(file);
    if debug {
        let d = chars_of(" debug");
        push_range(&mut out, &d, 0, d.len());
        assert(d@.subrange(0, d.len() as int) =~= d@);
    }
    let ghost before = out@;
    match comment {
        Some(c) => {
            let cs = chars_of(c);
            let (x, y) = trim_bounds(&cs, 0);
            assert(cs@.skip(0) =~= cs@);
            if x < y {
                let sep = chars_of(" ; ");
                push_range(&mut out, &sep, 0, sep.len());
                push_range(&mut out, &cs, x, y);
                assert(sep@.subrange(0, sep.len() as int) =~= sep@);
            }
        },
        None => {},
    }
    let r = string_from_chars(&out);
    assert(r@ =~= meta_body_spec(file@, debug, match comment { Some(c) => Some(c@), None => None }));
    r
}

/// Serializing a freshly parsed document gives back the input bytes.
pub proof fn law_round_trip(bytes: Seq<u8>)
    ensures
        concat_lines(split_lines(bytes)) == bytes,
    decreases bytes.len(),
{
    if bytes.len() > 0 {
        lemma_newline_end(bytes, 0);
        let n = newline_end(bytes, 0);
        law_round_trip(bytes.skip(n as int));
        let ls = split_lines(bytes);
        assert(ls[0] == bytes.take(n as int));
        assert(ls.drop_first() =~= split_lines(bytes.skip(n as int)));
        assert(bytes.take(n as int) + bytes.skip(n as int) =~= bytes);
    }
}

/// The comment text that `amxx_meta_body` writes for `comment`: its trimmed
/// form, when that is not empty.
pub open spec fn written_comment(comment: Option<Seq<char>>) -> Option<Seq<char>> {
    match comment {
        Some(c) => if crate::text::trim_ws(c).len() > 0 {
            Some(crate::text::trim_ws(c))
        } else {
            None
        },
        None => None,
    }
}

/// An AMXX entry body written by `amxx_meta_body` reads back as written: the
/// text after the file name is `amxx_debug_comment`'s to read (its comment
/// search is defined there), and it gives the `debug` flag and the trimmed
/// comment that were written.
pub proof fn law_meta_body_reads_back(file: Seq<char>, debug: bool, comment: Option<Seq<char>>)
    ensures
        ({
            let tail = meta_body_spec(Seq::empty(), debug, comment);
            &&& meta_body_spec(file, debug, comment) == file + tail
            &&& comment_search_ok(debug_split(tail).1)
            &&& debug_split(tail).0 == debug
            &&& inline_comment_spec(debug_split(tail).1) == written_comment(comment)
        }),
{
    reveal_strlit(" debug");
    reveal_strlit(" ; ");
    reveal_strlit("debug");
    let tail = meta_body_spec(Seq::empty(), debug, comment);
    let d: Seq<char> = if debug { " debug"@ } else { Seq::empty() };
    let c: Seq<char> = match comment {
        Some(x) => if crate::text::trim_ws(x).len() > 0 { " ; "@ + crate::text::trim_ws(x) } else { Seq::empty() },
        None => Seq::empty(),
    };
    assert(tail =~= d + c);
    assert(meta_body_spec(file, debug, comment) =~= file + tail);
    let (flag, after) = debug_split(tail);
    let r = crate::text::trim_start_ws(tail);
    if debug {
        assert(tail[0] == ' ');
        assert((' ' as u32) == 32);
        assert(crate::text::is_ws(tail.first()));
        assert(tail.drop_first() =~= "debug"@ + c);
        assert(tail.drop_first().first() == 'd');
        assert(('d' as u32) == 100);
        assert(!crate::text::is_ws(tail.drop_first().first()));
        assert(crate::text::trim_start_ws(tail.drop_first()) == tail.drop_first());
        assert(r == "debug"@ + c);
        lemma_first_blank_at(r, 0, 5);
        assert(r.take(5) =~= "debug"@);
        assert(after =~= c);
        assert(flag);
    } else {
        assert(tail =~= c);
        if c.len() > 0 {
            assert(tail.drop_first() =~= seq![';', ' '] + crate::text::trim_ws(comment.unwrap()));
            assert((' ' as u32) == 32);
            assert((';' as u32) == 59);
            assert(crate::text::is_ws(tail.first()));
            assert(!crate::text::is_ws(tail.drop_first().first()));
            assert(crate::text::trim_start_ws(tail.drop_first()) == tail.drop_first());
            assert(r == tail.drop_first());
            lemma_first_blank_at(r, 0, 1);
            assert(r.take(1).len() != "debug"@.len());
            assert(after == r);
        } else {
            assert(r =~= Seq::<char>::empty());
            assert(r.take(0) =~= Seq::<char>::empty());
            assert(after == r);
        }
        assert(!flag);
    }
    match comment {
        Some(x) if crate::text::trim_ws(x).len() > 0 => {
            let t = crate::text::trim_ws(x);
            crate::text::lemma_trim_ws_idempotent(x);
            if debug {
                assert(after =~= seq![' ', ';', ' '] + t);
                assert(!marker_at(after, 0));
                assert(marker_at(after, 1));
                assert(first_marker(after, 1) == 1);
                assert(first_marker(after, 0) == 1);
                assert(skip_mark_chars(after, 2) == 2);
                assert(skip_mark_chars(after, 1) == 2);
                assert(after.skip(2) =~= seq![' '] + t);
                crate::text::lemma_trim_ws_after_space(t);
            } else {
                assert(after =~= seq![';', ' '] + t);
                assert(marker_at(after, 0));
                assert(first_marker(after, 0) == 0);
                assert(skip_mark_chars(after, 1) == 1);
                assert(skip_mark_chars(after, 0) == 1);
                assert(after.skip(1) =~= seq![' '] + t);
                crate::text::lemma_trim_ws_after_space(t);
            }
        },
        _ => {
            assert(after.len() == 0);
            assert(first_marker(after, 0) == 0);
        },
    }
}

/// `first_blank_char` from `i` is `j` when `j` is the first space or tab.
proof fn lemma_first_blank_at(s: Seq<char>, i: nat, j: nat)
    requires
        i <= j <= s.len(),
        forall|k: int| i <= k < j ==> s[k] != ' ' && s[k] != '\t',
        j == s.len() || s[j as int] == ' ' || s[j as int] == '\t',
    ensures
        first_blank_char(s, i) == j,
    decreases j - i,
{
    if i < j {
        lemma_first_blank_at(s, i + 1, j);
    }
}

} // verus!

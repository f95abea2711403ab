//! The plugin rows of the state route, built from the parsed `plugins.ini`
//! groups and from what the node reported (directory listings, existence of
//! Metamod binaries).

use vstd::prelude::*;

use crate::goldsrc::ini::{self, opt_chars, Entry, EntryFields, EntryGroup, EntryModel, FieldsModel, GroupModel};
use crate::goldsrc::{self, paths};
use crate::handlers::ctx;
use crate::http::ApiError;
use crate::model::{AmxxPluginEntry, MetamodPluginEntry};
use crate::text::{self, lower_str, string_from_chars};

verus! {

/// Every unnamed group collapses into a single "Other" bucket, sorted last.
pub const OTHER_GROUP: u32 = 4294967295u32;

/// Number of named groups in `gs`.
pub open spec fn count_named(gs: Seq<GroupModel>) -> nat
    decreases gs.len(),
{
    if gs.len() == 0 {
        0
    } else {
        count_named(gs.drop_last()) + if gs.last().title is Some { 1nat } else { 0nat }
    }
}

/// Display index of a group after `named` named groups: named groups are
/// numbered by appearance (modulo 2^32), unnamed ones share `OTHER_GROUP`.
pub open spec fn group_label(title: Option<Seq<char>>, named: nat) -> u32 {
    match title {
        Some(_) => (named % 4294967296) as u32,
        None => OTHER_GROUP,
    }
}

/// The entries of the groups in order, each with its group's display index
/// and title.
pub open spec fn labelled(gs: Seq<GroupModel>) -> Seq<(EntryModel, u32, Option<Seq<char>>)>
    decreases gs.len(),
{
    if gs.len() == 0 {
        Seq::empty()
    } else {
        let g = gs.last();
        let lab = group_label(g.title, count_named(gs.drop_last()));
        labelled(gs.drop_last()) + g.entries.map_values(|e: EntryModel| (e, lab, g.title))
    }
}

pub open spec fn labelled_view(xs: Seq<(&Entry, u32, Option<String>)>) -> Seq<(EntryModel, u32, Option<Seq<char>>)> {
    xs.map_values(|x: (&Entry, u32, Option<String>)| (x.0@, x.1, opt_chars(x.2)))
}

fn next_label(title: &Option<String>, next_named: &mut u32) -> (r: (u32, Option<String>))
    ensures
        r.0 == group_label(opt_chars(*title), *old(next_named) as nat),
        opt_chars(r.1) == opt_chars(*title),
        *final(next_named) == if title is Some {
            if *old(next_named) == 4294967295u32 { 0u32 } else { (*old(next_named) + 1) as u32 }
        } else {
            *old(next_named)
        },
{
    match title {
        Some(t) => {
            let index = *next_named;
            *next_named = if *next_named == 4294967295u32 { 0 } else { *next_named + 1 };
            (index, Some(t.clone()))
        },
        None => (OTHER_GROUP, None),
    }
}

/// Labels every entry of the groups with its group's display index and title.
pub fn label_entries<'a>(groups: &Vec<EntryGroup<'a>>) -> (r: Vec<(&'a Entry, u32, Option<String>)>)
    ensures
        labelled_view(r@) == labelled(groups@.map_values(|g: EntryGroup<'a>| g@)),
        others_share_label(labelled_view(r@)),
{
    proof {
        lemma_labels_other(groups@.map_values(|g: EntryGroup<'a>| g@));
    }
    let ghost gs = groups@.map_values(|g: EntryGroup<'a>| g@);
    let mut out: Vec<(&'a Entry, u32, Option<String>)> = Vec::new();
    let mut next_named: u32 = 0;
    let mut g: usize = 0;
    assert(gs.take(0) =~= Seq::<GroupModel>::empty());
    assert(labelled_view(out@) =~= labelled(gs.take(0)));
    while g < groups.len()
        invariant
            g <= groups.len(),
            gs == groups@.map_values(|g: EntryGroup<'a>| g@),
            labelled_view(out@) == labelled(gs.take(g as int)),
            next_named == (count_named(gs.take(g as int)) % 4294967296) as u32,
        decreases groups.len() - g,
    {
        let group = &groups[g];
        let ghost before = out@;
        let ghost named = count_named(gs.take(g as int));
        let (index, title) = next_label(&group.title, &mut next_named);
        assert(index == group_label(gs[g as int].title, named));
        let mut k: usize = 0;
        while k < group.entries.len()
            invariant
                k <= group.entries.len(),
                g < groups.len(),
                group == &groups@[g as int],
                gs == groups@.map_values(|g: EntryGroup<'a>| g@),
                opt_chars(title) == gs[g as int].title,
                index == group_label(gs[g as int].title, named),
                labelled_view(out@) == labelled_view(before) + gs[g as int].entries.take(k as int).map_values(
                    |e: EntryModel| (e, index, gs[g as int].title),
                ),
            decreases group.entries.len() - k,
        {
            let e = group.entries[k];
            let t = match &title {
                Some(s) => Some(s.clone()),
                None => None,
            };
            assert(opt_chars(t) == opt_chars(title));
            assert(e@ == gs[g as int].entries[k as int]);
            let ghost prev = out@;
            out.push((e, index, t));
            assert(out@ == prev.push((e, index, t)));
            assert(labelled_view(out@) =~= labelled_view(prev).push((e@, index, opt_chars(t))));
            let ghost es = gs[g as int].entries;
            let ghost title_v = gs[g as int].title;
            assert(es.take(k + 1).map_values(|e: EntryModel| (e, index, title_v)) =~= es.take(k as int).map_values(
                |e: EntryModel| (e, index, title_v),
            ).push((es[k as int], index, title_v)));
            k += 1;
            assert(labelled_view(out@) =~= labelled_view(before) + gs[g as int].entries.take(k as int).map_values(
                |e: EntryModel| (e, index, gs[g as int].title),
            ));
        }
        assert(gs[g as int].entries.take(k as int) =~= gs[g as int].entries);
        assert(gs.take(g + 1).drop_last() =~= gs.take(g as int));
        assert(gs.take(g + 1).last() == gs[g as int]);
        g += 1;
        assert(labelled_view(out@) =~= labelled(gs.take(g as int)));
    }
    assert(gs.take(g as int) =~= gs);
    out
}

/// The texts of a list of names.
pub open spec fn names_view(v: Seq<String>) -> Seq<Seq<char>> {
    v.map_values(|s: String| s@)
}

/// Lower-cased config file names an AMXX plugin is looked up by:
/// `<stem>.cfg`, `<stem>.ini` and known exceptions of popular plugins.
pub open spec fn config_candidates_spec(file: Seq<char>) -> Seq<Seq<char>> {
    let stem = text::lower_seq(paths::file_stem_spec(file));
    let base = seq![stem + ".cfg"@, stem + ".ini"@];
    if stem == "statsx"@ {
        base.push("stats.ini"@)
    } else if stem == "csdm_main"@ {
        base.push("csdm.cfg"@)
    } else {
        base
    }
}

fn config_candidates(file: &str) -> (r: Vec<String>)
    ensures
        names_view(r@) == config_candidates_spec(file@),
{
    let stem_chars = lower_str(paths::file_stem(file));
    let stem = string_from_chars(&stem_chars);
    let mut out: Vec<String> = Vec::new();
    out.push(text::concat2(stem.as_str(), ".cfg"));
    out.push(text::concat2(stem.as_str(), ".ini"));
    if text::chars_eq(&stem_chars, "statsx") {
        out.push("stats.ini".to_owned());
    } else if text::chars_eq(&stem_chars, "csdm_main") {
        out.push("csdm.cfg".to_owned());
    }
    assert(names_view(out@) =~= config_candidates_spec(file@));
    out
}

/// The first of `files` from index `j` on whose lower-cased name is `c`.
pub open spec fn file_named_from(files: Seq<Seq<char>>, c: Seq<char>, j: nat) -> Option<Seq<char>>
    decreases files.len() - j,
{
    if j >= files.len() {
        None
    } else if text::lower_seq(files[j as int]) == c {
        Some(files[j as int])
    } else {
        file_named_from(files, c, j + 1)
    }
}

/// The config file of the first candidate (from index `i` on) that any of
/// `files` is named, ignoring ASCII case; the first such file in listing order.
pub open spec fn config_pick_from(cands: Seq<Seq<char>>, files: Seq<Seq<char>>, i: nat) -> Option<Seq<char>>
    decreases cands.len() - i,
{
    if i >= cands.len() {
        None
    } else {
        match file_named_from(files, cands[i as int], 0) {
            Some(f) => Some(f),
            None => config_pick_from(cands, files, i + 1),
        }
    }
}

fn find_config(candidates: &Vec<String>, configs: &Vec<String>) -> (r: Option<String>)
    ensures
        opt_chars(r) == config_pick_from(names_view(candidates@), names_view(configs@), 0),
{
    let ghost cs = names_view(candidates@);
    let ghost fs = names_view(configs@);
    let mut i: usize = 0;
    while i < candidates.len()
        invariant
            i <= candidates.len(),
            cs == names_view(candidates@),
            fs == names_view(configs@),
            config_pick_from(cs, fs, i as nat) == config_pick_from(cs, fs, 0),
        decreases candidates.len() - i,
    {
        let mut j: usize = 0;
        while j < configs.len()
            invariant
                i < candidates.len(),
                j <= configs.len(),
                cs == names_view(candidates@),
                fs == names_view(configs@),
                file_named_from(fs, cs[i as int], j as nat) == file_named_from(fs, cs[i as int], 0),
                config_pick_from(cs, fs, i as nat) == config_pick_from(cs, fs, 0),
            decreases configs.len() - j,
        {
            let lowered = lower_str(configs[j].as_str());
            if text::chars_eq(&lowered, candidates[i].as_str()) {
                let c = configs[j].clone();
                assert(fs[j as int] == configs@[j as int]@);
                assert(cs[i as int] == candidates@[i as int]@);
                assert(file_named_from(fs, cs[i as int], j as nat) == Some(fs[j as int]));
                assert(config_pick_from(cs, fs, i as nat) == Some(fs[j as int]));
                assert(c@ == configs@[j as int]@);
                return Some(c);
            }
            j += 1;
        }
        i += 1;
    }
    None
}

/// Whether `name` is one of `names`, exactly.
pub(crate) fn names_contain(names: &Vec<String>, name: &str) -> (r: bool)
    ensures
        r == names_view(names@).contains(name@),
{
    let mut i: usize = 0;
    while i < names.len()
        invariant
            i <= names.len(),
            forall|j: int| 0 <= j < i ==> (#[trigger] names@[j])@ != name@,
        decreases names.len() - i,
    {
        if text::str_eq(names[i].as_str(), name) {
            assert(names_view(names@)[i as int] == name@);
            return true;
        }
        i += 1;
    }
    assert forall|j: int| 0 <= j < names_view(names@).len() implies names_view(names@)[j] != name@ by {
        assert(names_view(names@)[j] == names@[j]@);
    }
    false
}

/// An AMXX row of the state route.
pub struct AmxxRowModel {
    pub file: Seq<char>,
    pub debug: bool,
    pub comment: Option<Seq<char>>,
    pub enabled: bool,
    pub missing: bool,
    pub config_path: Option<Seq<char>>,
    pub group_index: u32,
    pub group_title: Option<Seq<char>>,
}

pub open spec fn amxx_row_view(p: AmxxPluginEntry) -> AmxxRowModel {
    AmxxRowModel {
        file: p.file@,
        debug: p.debug,
        comment: opt_chars(p.comment),
        enabled: p.enabled,
        missing: p.missing,
        config_path: opt_chars(p.config_path),
        group_index: p.group_index,
        group_title: opt_chars(p.group_title),
    }
}

/// The row of a labelled AMXX entry, given the file names of the plugins and
/// configs directories and the mod dir (`None` when its comment cannot be
/// read): flag and comment as `amxx_debug_comment` reads them, missing when
/// no plugin file has its exact name, and the config found for it as a path
/// relative to the server directory.
pub open spec fn amxx_row_spec(
    x: (EntryModel, u32, Option<Seq<char>>),
    plugin_files: Seq<Seq<char>>,
    config_files: Seq<Seq<char>>,
    mod_dir: Seq<char>,
) -> Option<AmxxRowModel> {
    match x.0.fields {
        FieldsModel::Amxx { file, rest } => {
            let (flag, after) = ini::debug_split(rest);
            if !ini::comment_search_ok(after) {
                None
            } else {
                Some(AmxxRowModel {
                    file,
                    debug: flag,
                    comment: ini::inline_comment_spec(after),
                    enabled: x.0.enabled,
                    missing: !plugin_files.contains(file),
                    config_path: match config_pick_from(config_candidates_spec(file), config_files, 0) {
                        Some(name) => Some(paths::join_spec(mod_dir, paths::join_spec(goldsrc::AMXX_CONFIGS_DIR@, name))),
                        None => None,
                    },
                    group_index: x.1,
                    group_title: x.2,
                })
            }
        },
        FieldsModel::Metamod { .. } => None,
    }
}

/// The AMXX rows of labelled entries (non-AMXX entries give none); `None`
/// when the comment of one of them cannot be read.
pub open spec fn amxx_rows_spec(
    xs: Seq<(EntryModel, u32, Option<Seq<char>>)>,
    plugin_files: Seq<Seq<char>>,
    config_files: Seq<Seq<char>>,
    mod_dir: Seq<char>,
) -> Option<Seq<AmxxRowModel>>
    decreases xs.len(),
{
    if xs.len() == 0 {
        Some(Seq::empty())
    } else {
        match amxx_rows_spec(xs.drop_last(), plugin_files, config_files, mod_dir) {
            None => None,
            Some(rows) => match xs.last().0.fields {
                FieldsModel::Amxx { .. } => match amxx_row_spec(xs.last(), plugin_files, config_files, mod_dir) {
                    Some(row) => Some(rows.push(row)),
                    None => None,
                },
                FieldsModel::Metamod { .. } => Some(rows),
            },
        }
    }
}

/// The AMXX plugin rows of the labelled entries `xs`.
pub fn amxx_rows(
    xs: &Vec<(&Entry, u32, Option<String>)>,
    plugin_files: &Vec<String>,
    config_files: &Vec<String>,
    mod_dir: &str,
) -> (r: Result<Vec<AmxxPluginEntry>, ApiError>)
    ensures
        match amxx_rows_spec(labelled_view(xs@), names_view(plugin_files@), names_view(config_files@), mod_dir@) {
            Some(rows) => r matches Ok(v) && v@.map_values(|p: AmxxPluginEntry| amxx_row_view(p)) == rows
                && forall|i: int| 0 <= i < v@.len() ==> (#[trigger] v@[i]).has_config == v@[i].config_path is Some,
            None => r matches Err(e) && ctx::is_error(e, 500, "INTERNAL_ERROR", "plugins.ini entry has an unreadable comment"@),
        },
{
    let ghost lv = labelled_view(xs@);
    let ghost pf = names_view(plugin_files@);
    let ghost cf = names_view(config_files@);
    let mut out: Vec<AmxxPluginEntry> = Vec::new();
    let mut k: usize = 0;
    assert(lv.take(0) =~= Seq::<(EntryModel, u32, Option<Seq<char>>)>::empty());
    while k < xs.len()
        invariant
            k <= xs.len(),
            lv == labelled_view(xs@),
            pf == names_view(plugin_files@),
            cf == names_view(config_files@),
            amxx_rows_spec(lv.take(k as int), pf, cf, mod_dir@) == Some(out@.map_values(|p: AmxxPluginEntry| amxx_row_view(p))),
            forall|i: int| 0 <= i < out@.len() ==> (#[trigger] out@[i]).has_config == out@[i].config_path is Some,
        decreases xs.len() - k,
    {
        let (entry, group_index, group_title) = &xs[k];
        let ghost x = lv[k as int];
        assert(x == (entry@, *group_index, opt_chars(*group_title)));
        assert(lv.take(k + 1).drop_last() =~= lv.take(k as int));
        assert(lv.take(k + 1).last() == x);
        match entry.entry_fields() {
            EntryFields::Amxx { file, rest } => {
                let (debug, comment) = match ini::try_amxx_debug_comment(rest.as_str()) {
                    Some(p) => p,
                    None => {
                        proof {
                            lemma_rows_none_extends(lv, pf, cf, mod_dir@, (k + 1) as nat);
                        }
                        return Err(ApiError::internal("plugins.ini entry has an unreadable comment"));
                    },
                };
                let missing = !names_contain(plugin_files, file.as_str());
                let candidates = config_candidates(file.as_str());
                let config_path = match find_config(&candidates, config_files) {
                    Some(name) => {
                        let rel = paths::join(goldsrc::AMXX_CONFIGS_DIR, name.as_str());
                        Some(paths::join(mod_dir, rel.as_str()))
                    },
                    None => None,
                };
                let title = match group_title {
                    Some(t) => Some(t.clone()),
                    None => None,
                };
                let row = AmxxPluginEntry {
                    file: file.clone(),
                    debug,
                    comment,
                    enabled: entry.is_enabled(),
                    missing,
                    has_config: config_path.is_some(),
                    config_path,
                    group_index: *group_index,
                    group_title: title,
                };
                assert(amxx_row_spec(x, pf, cf, mod_dir@) == Some(amxx_row_view(row)));
                let ghost prev = out@;
                out.push(row);
                assert(out@.map_values(|p: AmxxPluginEntry| amxx_row_view(p)) =~= prev.map_values(
                    |p: AmxxPluginEntry| amxx_row_view(p),
                ).push(amxx_row_view(row)));
            },
            EntryFields::Metamod { .. } => {},
        }
        k += 1;
    }
    assert(lv.take(k as int) =~= lv);
    Ok(out)
}

/// Once a prefix of the entries has an unreadable comment, so has every
/// longer one.
proof fn lemma_rows_none_extends(
    xs: Seq<(EntryModel, u32, Option<Seq<char>>)>,
    pf: Seq<Seq<char>>,
    cf: Seq<Seq<char>>,
    mod_dir: Seq<char>,
    k: nat,
)
    requires
        k <= xs.len(),
        amxx_rows_spec(xs.take(k as int), pf, cf, mod_dir) is None,
    ensures
        amxx_rows_spec(xs, pf, cf, mod_dir) is None,
    decreases xs.len() - k,
{
    if k < xs.len() {
        assert(xs.take(k + 1int).drop_last() =~= xs.take(k as int));
        lemma_rows_none_extends(xs, pf, cf, mod_dir, k + 1);
    } else {
        assert(xs.take(k as int) =~= xs);
    }
}

/// A Metamod row of the state route.
pub struct MetamodRowModel {
    pub platform: Seq<char>,
    pub path: Seq<char>,
    pub file: Seq<char>,
    pub description: Option<Seq<char>>,
    pub enabled: bool,
    pub missing: bool,
    pub system: bool,
    pub group_index: u32,
    pub group_title: Option<Seq<char>>,
}

pub open spec fn metamod_row_view(p: MetamodPluginEntry) -> MetamodRowModel {
    MetamodRowModel {
        platform: p.platform@,
        path: p.path@,
        file: p.file@,
        description: opt_chars(p.description),
        enabled: p.enabled,
        missing: p.missing,
        system: p.system,
        group_index: p.group_index,
        group_title: opt_chars(p.group_title),
    }
}

/// The row of a labelled Metamod entry whose binary the node reported
/// `missing` or not: the file is the path's last segment, the description
/// the trailing text, and `system` marks the AMX Mod X loader.
pub open spec fn metamod_row_spec(x: (EntryModel, u32, Option<Seq<char>>), missing: bool) -> MetamodRowModel {
    let (platform, path, rest) = match x.0.fields {
        FieldsModel::Metamod { platform, path, rest } => (platform, path, rest),
        FieldsModel::Amxx { file, rest } => (Seq::empty(), file, rest),
    };
    let normalized = paths::normalize_spec(path);
    MetamodRowModel {
        platform,
        path,
        file: paths::file_name_spec(normalized),
        description: if rest.len() == 0 { None } else { Some(rest) },
        enabled: x.0.enabled,
        missing,
        system: goldsrc::is_amxx_loader_spec(normalized),
        group_index: x.1,
        group_title: x.2,
    }
}

/// The Metamod rows of labelled entries (non-Metamod entries give none),
/// `missing[i]` telling whether the binary of entry `i` is absent.
pub open spec fn metamod_rows_spec(xs: Seq<(EntryModel, u32, Option<Seq<char>>)>, missing: Seq<bool>) -> Seq<MetamodRowModel>
    decreases xs.len(),
{
    if xs.len() == 0 {
        Seq::empty()
    } else {
        let rows = metamod_rows_spec(xs.drop_last(), missing);
        match xs.last().0.fields {
            FieldsModel::Metamod { .. } => rows.push(metamod_row_spec(xs.last(), missing[xs.len() - 1])),
            FieldsModel::Amxx { .. } => rows,
        }
    }
}

/// The Metamod plugin rows of the labelled entries `xs`; `missing[i]` tells
/// whether the binary of entry `i` is absent from the node.
pub fn metamod_rows(xs: &Vec<(&Entry, u32, Option<String>)>, missing: &Vec<bool>) -> (r: Vec<MetamodPluginEntry>)
    requires
        missing@.len() == xs@.len(),
    ensures
        r@.map_values(|p: MetamodPluginEntry| metamod_row_view(p)) == metamod_rows_spec(labelled_view(xs@), missing@),
{
    let ghost lv = labelled_view(xs@);
    let mut out: Vec<MetamodPluginEntry> = Vec::new();
    let mut k: usize = 0;
    assert(lv.take(0) =~= Seq::<(EntryModel, u32, Option<Seq<char>>)>::empty());
    while k < xs.len()
        invariant
            k <= xs.len(),
            missing@.len() == xs@.len(),
            lv == labelled_view(xs@),
            metamod_rows_spec(lv.take(k as int), missing@) == out@.map_values(|p: MetamodPluginEntry| metamod_row_view(p)),
        decreases xs.len() - k,
    {
        let (entry, group_index, group_title) = &xs[k];
        let ghost x = lv[k as int];
        assert(x == (entry@, *group_index, opt_chars(*group_title)));
        assert(lv.take(k + 1).drop_last() =~= lv.take(k as int));
        assert(lv.take(k + 1).last() == x);
        match entry.entry_fields() {
            EntryFields::Metamod { platform, path, rest } => {
                let normalized = paths::normalize_slashes(path.as_str());
                let description = if rest.as_str().is_empty() {
                    None
                } else {
                    Some(rest.clone())
                };
                let title = match group_title {
                    Some(t) => Some(t.clone()),
                    None => None,
                };
                let row = MetamodPluginEntry {
                    platform: platform.clone(),
                    path: path.clone(),
                    file: paths::file_name(normalized.as_str()).to_owned(),
                    description,
                    enabled: entry.is_enabled(),
                    missing: missing[k],
                    system: goldsrc::is_amxx_loader_entry(normalized.as_str()),
                    group_index: *group_index,
                    group_title: title,
                };
                assert(metamod_row_view(row) == metamod_row_spec(x, missing@[k as int]));
                let ghost prev = out@;
                out.push(row);
                assert(out@.map_values(|p: MetamodPluginEntry| metamod_row_view(p)) =~= prev.map_values(
                    |p: MetamodPluginEntry| metamod_row_view(p),
                ).push(metamod_row_view(row)));
            },
            EntryFields::Amxx { .. } => {},
        }
        k += 1;
    }
    assert(lv.take(k as int) =~= lv);
    out
}

/// Whether the AMX Mod X loader is registered and enabled among the rows.
pub open spec fn loader_registered_spec(rows: Seq<MetamodRowModel>) -> bool {
    exists|i: int| 0 <= i < rows.len() && (#[trigger] rows[i]).system && rows[i].enabled
}

pub fn loader_registered(rows: &Vec<MetamodPluginEntry>) -> (r: bool)
    ensures
        r == loader_registered_spec(rows@.map_values(|p: MetamodPluginEntry| metamod_row_view(p))),
{
    let ghost v = rows@.map_values(|p: MetamodPluginEntry| metamod_row_view(p));
    let mut i: usize = 0;
    while i < rows.len()
        invariant
            i <= rows.len(),
            v == rows@.map_values(|p: MetamodPluginEntry| metamod_row_view(p)),
            forall|j: int| 0 <= j < i ==> !((#[trigger] v[j]).system && v[j].enabled),
        decreases rows.len() - i,
    {
        if rows[i].system && rows[i].enabled {
            assert(v[i as int].system && v[i as int].enabled);
            return true;
        }
        i += 1;
    }
    false
}

/// Entries without a group title carry the "Other" index.
pub open spec fn others_share_label(xs: Seq<(EntryModel, u32, Option<Seq<char>>)>) -> bool {
    forall|i: int| 0 <= i < xs.len() ==> ((#[trigger] xs[i]).2 is None ==> xs[i].1 == OTHER_GROUP)
}

proof fn lemma_labels_other(gs: Seq<GroupModel>)
    ensures
        others_share_label(labelled(gs)),
    decreases gs.len(),
{
    if gs.len() > 0 {
        lemma_labels_other(gs.drop_last());
        let g = gs.last();
        let lab = group_label(g.title, count_named(gs.drop_last()));
        let front = labelled(gs.drop_last());
        let back = g.entries.map_values(|e: EntryModel| (e, lab, g.title));
        assert forall|i: int| 0 <= i < labelled(gs).len() implies ((#[trigger] labelled(gs)[i]).2 is None
            ==> labelled(gs)[i].1 == OTHER_GROUP) by {
            if i < front.len() {
                assert(labelled(gs)[i] == front[i]);
            } else {
                assert(labelled(gs)[i] == back[i - front.len()]);
            }
        }
    }
}

/// Every AMXX row of entries labelled that way is in the "Other" group when
/// it has no title.
pub proof fn lemma_amxx_rows_labels(
    xs: Seq<(EntryModel, u32, Option<Seq<char>>)>,
    pf: Seq<Seq<char>>,
    cf: Seq<Seq<char>>,
    mod_dir: Seq<char>,
)
    requires
        others_share_label(xs),
    ensures
        amxx_rows_spec(xs, pf, cf, mod_dir) matches Some(rows) ==> forall|i: int| 0 <= i < rows.len()
            ==> ((#[trigger] rows[i]).group_title is None ==> rows[i].group_index == OTHER_GROUP),
    decreases xs.len(),
{
    if xs.len() > 0 {
        let front = xs.drop_last();
        assert(others_share_label(front)) by {
            assert forall|i: int| 0 <= i < front.len() implies ((#[trigger] front[i]).2 is None ==> front[i].1 == OTHER_GROUP) by {
                assert(front[i] == xs[i]);
            }
        }
        lemma_amxx_rows_labels(front, pf, cf, mod_dir);
        assert(xs.last() == xs[xs.len() - 1]);
    }
}

/// Every Metamod row of entries labelled that way is in the "Other" group
/// when it has no title, and its file and `system` flag come from its path.
pub proof fn lemma_metamod_rows_props(xs: Seq<(EntryModel, u32, Option<Seq<char>>)>, missing: Seq<bool>)
    requires
        others_share_label(xs),
    ensures
        forall|i: int| 0 <= i < metamod_rows_spec(xs, missing).len() ==> {
            let row = #[trigger] metamod_rows_spec(xs, missing)[i];
            &&& (row.group_title is None ==> row.group_index == OTHER_GROUP)
            &&& row.file == paths::file_name_spec(paths::normalize_spec(row.path))
            &&& row.system == goldsrc::is_amxx_loader_spec(paths::normalize_spec(row.path))
        },
    decreases xs.len(),
{
    if xs.len() > 0 {
        let front = xs.drop_last();
        assert(others_share_label(front)) by {
            assert forall|i: int| 0 <= i < front.len() implies ((#[trigger] front[i]).2 is None ==> front[i].1 == OTHER_GROUP) by {
                assert(front[i] == xs[i]);
            }
        }
        lemma_metamod_rows_props(front, missing);
        assert(xs.last() == xs[xs.len() - 1]);
    }
}

} // verus!

//! Laws of the config lookup of the state route's AMX Mod X rows: which
//! file of the configs folder a plugin's row points at.

use vstd::prelude::*;

use crate::goldsrc::{self, ini, paths};
use crate::handlers::rows::{amxx_row_spec, config_candidates_spec, config_pick_from, file_named_from};
use crate::text;

verus! {

/// The lower-cased stem of a plugin file: its name without the extension.
pub open spec fn lower_stem(file: Seq<char>) -> Seq<char> {
    text::lower_seq(paths::file_stem_spec(file))
}

/// Some file of `files` is named `name`, ignoring ASCII case.
pub open spec fn has_named(files: Seq<Seq<char>>, name: Seq<char>) -> bool {
    exists|j: int| 0 <= j < files.len() && text::lower_seq(#[trigger] files[j]) == name
}

proof fn lemma_named_from(files: Seq<Seq<char>>, name: Seq<char>, j: nat)
    requires
        j <= files.len(),
    ensures
        (exists|k: int| j <= k < files.len() && text::lower_seq(#[trigger] files[k]) == name)
            ==> (file_named_from(files, name, j) matches Some(x) && files.contains(x) && text::lower_seq(x) == name),
        !(exists|k: int| j <= k < files.len() && text::lower_seq(#[trigger] files[k]) == name)
            ==> file_named_from(files, name, j) is None,
    decreases files.len() - j,
{
    if j < files.len() {
        lemma_named_from(files, name, j + 1);
        if text::lower_seq(files[j as int]) == name {
            assert(files.contains(files[j as int]));
        } else {
            if exists|k: int| j <= k < files.len() && text::lower_seq(#[trigger] files[k]) == name {
                let k = choose|k: int| j <= k < files.len() && text::lower_seq(#[trigger] files[k]) == name;
                assert(k != j);
            }
        }
    }
}

/// The names a plugin's config is looked up by begin with `<stem>.cfg`, then
/// `<stem>.ini`, lower-cased.
pub proof fn law_config_names_cfg_then_ini(file: Seq<char>)
    ensures
        config_candidates_spec(file).len() >= 2,
        config_candidates_spec(file)[0] == lower_stem(file) + ".cfg"@,
        config_candidates_spec(file)[1] == lower_stem(file) + ".ini"@,
{
}

/// A plugin whose configs folder holds a `<stem>.ini` (in any case) and no
/// `<stem>.cfg` gets that `.ini` file as its config; with both, the `.cfg`
/// file wins. The row's path is the file inside the configs folder.
pub proof fn law_config_found(
    x: (ini::EntryModel, u32, Option<Seq<char>>),
    plugin_files: Seq<Seq<char>>,
    config_files: Seq<Seq<char>>,
    mod_dir: Seq<char>,
)
    requires
        x.0.fields is Amxx,
        amxx_row_spec(x, plugin_files, config_files, mod_dir) is Some,
        has_named(config_files, lower_stem(x.0.fields->Amxx_file) + ".cfg"@)
            || has_named(config_files, lower_stem(x.0.fields->Amxx_file) + ".ini"@),
    ensures
        ({
            let file = x.0.fields->Amxx_file;
            let want = if has_named(config_files, lower_stem(file) + ".cfg"@) {
                lower_stem(file) + ".cfg"@
            } else {
                lower_stem(file) + ".ini"@
            };
            exists|name: Seq<char>|
                #![trigger config_files.contains(name)]
                config_files.contains(name) && text::lower_seq(name) == want
                    && amxx_row_spec(x, plugin_files, config_files, mod_dir).unwrap().config_path
                        == Some(paths::join_spec(mod_dir, paths::join_spec(goldsrc::AMXX_CONFIGS_DIR@, name)))
        }),
{
    let file = x.0.fields->Amxx_file;
    let cands = config_candidates_spec(file);
    law_config_names_cfg_then_ini(file);
    let cfg = lower_stem(file) + ".cfg"@;
    let ini_name = lower_stem(file) + ".ini"@;
    lemma_named_from(config_files, cfg, 0);
    lemma_named_from(config_files, ini_name, 0);
    assert(config_pick_from(cands, config_files, 0) == match file_named_from(config_files, cfg, 0) {
        Some(f) => Some(f),
        None => config_pick_from(cands, config_files, 1),
    });
    assert(config_pick_from(cands, config_files, 1) == match file_named_from(config_files, ini_name, 0) {
        Some(f) => Some(f),
        None => config_pick_from(cands, config_files, 2),
    });
    let name = config_pick_from(cands, config_files, 0).unwrap();
    assert(config_files.contains(name));
}

} // verus!

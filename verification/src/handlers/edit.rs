//! The `plugins.ini` edits behind the mutating routes, as functions from the
//! file's bytes to the reply and the bytes to write back. The handlers fetch
//! the file, call one of these and upload what it returns.

use vstd::prelude::*;

use crate::goldsrc::ini::{self, opt_chars, Dialect, Document, EntryFields};
use crate::goldsrc::{self, paths};
use crate::handlers::ctx;
use crate::http::ApiError;
use crate::text;

verus! {

/// The reply for a key that no entry of the file answers to.
pub open spec fn not_registered(e: ApiError, file: Seq<char>) -> bool {
    ctx::is_error(e, 404, "PLUGIN_NOT_REGISTERED", file + " is not present in plugins.ini"@)
}

fn not_registered_error(file: &str) -> (e: ApiError)
    ensures
        not_registered(e, file@),
{
    let message = text::concat2(file, " is not present in plugins.ini");
    ApiError::not_found("PLUGIN_NOT_REGISTERED", message.as_str())
}

/// What toggling gives on the file `b`: whether the line changed and the new
/// bytes; `None` when no entry answers to `file`.
pub open spec fn toggle_spec(dialect: Dialect, b: Seq<u8>, file: Seq<char>, enabled: bool) -> Option<(bool, Seq<u8>)> {
    let ls = ini::split_lines(b);
    match ini::first_match(dialect, ls, file) {
        None => None,
        Some(i) => {
            let e = ini::line::classify_spec(dialect, ls[i]).unwrap();
            let changed = e.enabled != enabled;
            Some((changed, if changed {
                ini::concat_lines(ls.update(i, if enabled { ini::enabled_raw(ls[i], e) } else { ini::disabled_raw(ls[i], e) }))
            } else {
                b
            }))
        },
    }
}

/// What registering gives on the file `b`: whether an entry was replaced and
/// the new bytes; `None` when an entry answers to `file` and `force` is off.
pub open spec fn register_spec(dialect: Dialect, b: Seq<u8>, file: Seq<char>, line: Seq<char>, enable: bool, force: bool) -> Option<(bool, Seq<u8>)> {
    let ls = ini::split_lines(b);
    match ini::first_match(dialect, ls, file) {
        None => Some((false, ini::concat_lines(ini::appended_lines(ls, line, enable)))),
        Some(i) => if force {
            Some((true, ini::concat_lines(ls.update(i, ini::entry_line(line, enable, ini::terminator_of(ls[i]))))))
        } else {
            None
        },
    }
}

/// What removing gives on the file `b`: the plugin file's mod-relative path
/// and the new bytes; `None` when no entry answers to `file`.
pub open spec fn remove_spec(dialect: Dialect, b: Seq<u8>, file: Seq<char>) -> Option<(Seq<char>, Seq<u8>)> {
    let ls = ini::split_lines(b);
    match ini::first_match(dialect, ls, file) {
        None => None,
        Some(i) => Some((removal_target_spec(ini::line::classify_spec(dialect, ls[i]).unwrap().fields), ini::concat_lines(ls.remove(i)))),
    }
}

/// Enables or disables the entry `file` of the file `bytes`: whether the line
/// changed, and the file's new bytes (the old ones when nothing changed).
pub fn toggle_ini(dialect: Dialect, bytes: &[u8], file: &str, enabled: bool) -> (r: Result<(bool, Vec<u8>), ApiError>)
    ensures
        ({
            let ls = ini::split_lines(bytes@);
            match ini::first_match(dialect, ls, file@) {
                None => r matches Err(e) && not_registered(e, file@),
                Some(i) => {
                    let e = ini::line::classify_spec(dialect, ls[i]).unwrap();
                    r matches Ok((changed, out)) && changed == (e.enabled != enabled) && out@ == if changed {
                        ini::concat_lines(
                            ls.update(
                                i,
                                if enabled {
                                    ini::enabled_raw(ls[i], e)
                                } else {
                                    ini::disabled_raw(ls[i], e)
                                },
                            ),
                        )
                    } else {
                        bytes@
                    }
                },
            }
        }),
        match toggle_spec(dialect, bytes@, file@, enabled) {
            None => r matches Err(e) && not_registered(e, file@),
            Some((c, o)) => r matches Ok((c2, o2)) && c2 == c && o2@ == o,
        },
{
    let mut doc = Document::parse(dialect, bytes);
    proof {
        ini::law_round_trip(bytes@);
    }
    match doc.set_enabled(file, enabled) {
        Ok(changed) => Ok((changed, doc.to_bytes())),
        Err(_) => Err(not_registered_error(file)),
    }
}

/// The reply for a key that an entry of the file already answers to.
pub open spec fn already_registered(e: ApiError, file: Seq<char>) -> bool {
    ctx::is_error(e, 409, "ALREADY_REGISTERED", file + " is already present in plugins.ini"@)
}

/// Registers `line` for `file` in the file `bytes` (empty when the file is
/// missing): appended when no entry answers to `file`; otherwise an error,
/// or with `force` the entry's line rewritten in place. Gives whether an
/// entry was replaced and the file's new bytes.
pub fn register_ini(dialect: Dialect, bytes: &[u8], file: &str, line: &str, enable: bool, force: bool) -> (r: Result<(bool, Vec<u8>), ApiError>)
    ensures
        ({
            let ls = ini::split_lines(bytes@);
            match ini::first_match(dialect, ls, file@) {
                None => r matches Ok((replaced, out)) && !replaced
                    && out@ == ini::concat_lines(ini::appended_lines(ls, line@, enable)),
                Some(i) => if force {
                    r matches Ok((replaced, out)) && replaced
                        && out@ == ini::concat_lines(ls.update(i, ini::entry_line(line@, enable, ini::terminator_of(ls[i]))))
                } else {
                    r matches Err(e) && already_registered(e, file@)
                },
            }
        }),
        match register_spec(dialect, bytes@, file@, line@, enable, force) {
            None => r matches Err(e) && already_registered(e, file@),
            Some((c, o)) => r matches Ok((c2, o2)) && c2 == c && o2@ == o,
        },
{
    let mut doc = Document::parse(dialect, bytes);
    if doc.find_entry(file).is_some() {
        if !force {
            let message = text::concat2(file, " is already present in plugins.ini");
            return Err(ApiError::conflict("ALREADY_REGISTERED", message.as_str()));
        }
        // The uploaded file has already overwritten the binary; rewrite the
        // ini line in place so the load order is preserved.
        match doc.replace_entry(file, line, enable) {
            Ok(_) => {},
            Err(_) => {
                let message = text::concat3("failed to replace the ", file, " entry");
                return Err(ApiError::internal(message.as_str()));
            },
        }
        Ok((true, doc.to_bytes()))
    } else {
        doc.append_entry(line, enable);
        Ok((false, doc.to_bytes()))
    }
}

/// Where the plugin file of a removed entry lives, relative to the mod dir:
/// a Metamod entry's path (with '/' separators), an AMXX file in the plugins
/// directory.
pub open spec fn removal_target_spec(f: ini::FieldsModel) -> Seq<char> {
    match f {
        ini::FieldsModel::Metamod { path, .. } => paths::normalize_spec(path),
        ini::FieldsModel::Amxx { file, .. } => paths::join_spec(goldsrc::AMXX_PLUGINS_DIR@, file),
    }
}

/// Removes the entry `file` from the file `bytes`: the mod-relative path of
/// its plugin file and the file's new bytes.
pub fn remove_ini(dialect: Dialect, bytes: &[u8], file: &str) -> (r: Result<(String, Vec<u8>), ApiError>)
    ensures
        ({
            let ls = ini::split_lines(bytes@);
            match ini::first_match(dialect, ls, file@) {
                None => r matches Err(e) && not_registered(e, file@),
                Some(i) => r matches Ok((target, out))
                    && target@ == removal_target_spec(ini::line::classify_spec(dialect, ls[i]).unwrap().fields)
                    && out@ == ini::concat_lines(ls.remove(i)),
            }
        }),
        match remove_spec(dialect, bytes@, file@) {
            None => r matches Err(e) && not_registered(e, file@),
            Some((t, o)) => r matches Ok((t2, o2)) && t2@ == t && o2@ == o,
        },
{
    let mut doc = Document::parse(dialect, bytes);
    let entry = match doc.remove_entry(file) {
        Ok(e) => e,
        Err(_) => return Err(not_registered_error(file)),
    };
    let target = match entry.entry_fields() {
        EntryFields::Metamod { path, .. } => paths::normalize_slashes(path.as_str()),
        EntryFields::Amxx { file, .. } => paths::join(goldsrc::AMXX_PLUGINS_DIR, file.as_str()),
    };
    Ok((target, doc.to_bytes()))
}

/// An entry's current `debug` flag and comment as the state route reads them
/// (`None` when its comment cannot be read). A Metamod entry has no flag; its
/// comment is its trailing description.
pub open spec fn current_attributes(f: ini::FieldsModel) -> Option<(bool, Option<Seq<char>>)> {
    match f {
        ini::FieldsModel::Amxx { rest, .. } => {
            let (flag, after) = ini::debug_split(rest);
            if ini::comment_search_ok(after) {
                Some((flag, ini::inline_comment_spec(after)))
            } else {
                None
            }
        },
        ini::FieldsModel::Metamod { rest, .. } => Some((false, if rest.len() == 0 { None } else { Some(rest) })),
    }
}

/// The `debug` flag an entry ends up with: as requested for AMXX, never for
/// Metamod.
pub open spec fn applied_debug(f: ini::FieldsModel, debug: bool) -> bool {
    match f {
        ini::FieldsModel::Amxx { .. } => debug,
        ini::FieldsModel::Metamod { .. } => false,
    }
}

/// The entry body written for new attributes: the canonical AMXX body, or a
/// Metamod entry's platform and path followed by the comment.
pub open spec fn attributes_body(f: ini::FieldsModel, debug: bool, comment: Option<Seq<char>>) -> Seq<char> {
    match f {
        ini::FieldsModel::Amxx { file, .. } => ini::meta_body_spec(file, debug, comment),
        ini::FieldsModel::Metamod { platform, path, .. } => platform + " "@ + path + match comment {
            Some(c) => " "@ + c,
            None => Seq::empty(),
        },
    }
}

fn opt_str_eq(a: &Option<String>, b: &Option<String>) -> (r: bool)
    ensures
        r == (opt_chars(*a) == opt_chars(*b)),
{
    match (a, b) {
        (Some(x), Some(y)) => text::str_eq(x.as_str(), y.as_str()),
        (None, None) => true,
        _ => false,
    }
}

/// What setting attributes gives on the file `b`: whether the line changed,
/// the flag the entry ends up with and the new bytes; `None` when no entry
/// answers to `file` or its comment cannot be read.
pub open spec fn attributes_spec(dialect: Dialect, b: Seq<u8>, file: Seq<char>, debug: bool, comment: Option<Seq<char>>) -> Option<(bool, bool, Seq<u8>)> {
    let ls = ini::split_lines(b);
    match ini::first_match(dialect, ls, file) {
        None => None,
        Some(i) => {
            let e = ini::line::classify_spec(dialect, ls[i]).unwrap();
            match current_attributes(e.fields) {
                None => None,
                Some((cur_debug, cur_comment)) => {
                    let new_debug = applied_debug(e.fields, debug);
                    let changed = new_debug != cur_debug || comment != cur_comment;
                    Some((changed, new_debug, if changed {
                        ini::concat_lines(ls.update(i, ini::entry_line(attributes_body(e.fields, debug, comment), e.enabled, ini::terminator_of(ls[i]))))
                    } else {
                        b
                    }))
                },
            }
        },
    }
}

/// The reply refusing new attributes on the file `b`.
pub open spec fn attributes_refusal(dialect: Dialect, b: Seq<u8>, file: Seq<char>, e: ApiError) -> bool {
    let ls = ini::split_lines(b);
    match ini::first_match(dialect, ls, file) {
        None => not_registered(e, file),
        Some(i) => ctx::is_error(e, 500, "INTERNAL_ERROR", "plugins.ini entry has an unreadable comment"@),
    }
}

/// Sets the `debug` flag and comment of the entry `file` of the file
/// `bytes`, rewriting only its line, and only when either differs: whether
/// it changed, the flag the entry now has, and the file's new bytes (the old
/// ones when nothing changed). The entry keeps its enabled state.
pub fn attributes_ini(dialect: Dialect, bytes: &[u8], file: &str, debug: bool, comment: &Option<String>) -> (r: Result<(bool, bool, Vec<u8>), ApiError>)
    ensures
        ({
            let ls = ini::split_lines(bytes@);
            match ini::first_match(dialect, ls, file@) {
                None => r matches Err(e) && not_registered(e, file@),
                Some(i) => {
                    let e = ini::line::classify_spec(dialect, ls[i]).unwrap();
                    match current_attributes(e.fields) {
                        None => r matches Err(err) && ctx::is_error(err, 500, "INTERNAL_ERROR", "plugins.ini entry has an unreadable comment"@),
                        Some((cur_debug, cur_comment)) => {
                            let new_debug = applied_debug(e.fields, debug);
                            let changed = new_debug != cur_debug || opt_chars(*comment) != cur_comment;
                            r matches Ok((c, d, out)) && c == changed && d == new_debug && out@ == if changed {
                                ini::concat_lines(ls.update(i, ini::entry_line(
                                    attributes_body(e.fields, debug, opt_chars(*comment)),
                                    e.enabled,
                                    ini::terminator_of(ls[i]),
                                )))
                            } else {
                                bytes@
                            }
                        },
                    }
                },
            }
        }),
        r matches Ok((_, d, _)) ==> d == (dialect == Dialect::Amxx && debug),
        match attributes_spec(dialect, bytes@, file@, debug, opt_chars(*comment)) {
            None => r matches Err(e) && attributes_refusal(dialect, bytes@, file@, e),
            Some((c, d, o)) => r matches Ok((c2, d2, o2)) && c2 == c && d2 == d && o2@ == o,
        },
{
    let mut doc = Document::parse(dialect, bytes);
    proof {
        ini::law_round_trip(bytes@);
    }
    let index = match doc.find_entry(file) {
        Some(i) => i,
        None => return Err(not_registered_error(file)),
    };
    proof {
        ini::lemma_first_match_bounds(doc@.dialect, doc@.lines, file@);
    }
    let entry = match doc.entry_at(index) {
        Some(e) => e,
        None => return Err(ApiError::internal("plugins.ini entry lookup failed")),
    };
    let enabled = entry.is_enabled();
    let comment_ref: Option<&str> = match comment {
        Some(c) => Some(c.as_str()),
        None => None,
    };
    let (new_debug, current_debug, current_comment, new_body) = match entry.entry_fields() {
        EntryFields::Amxx { file: name, rest } => {
            let (current_debug, current_comment) = match ini::try_amxx_debug_comment(rest.as_str()) {
                Some(p) => p,
                None => return Err(ApiError::internal("plugins.ini entry has an unreadable comment")),
            };
            let new_body = ini::amxx_meta_body(name.as_str(), debug, comment_ref);
            assert(new_body@ == attributes_body(entry@.fields, debug, opt_chars(*comment)));
            assert(dialect == Dialect::Amxx);
            assert(current_attributes(entry@.fields) == Some((current_debug, opt_chars(current_comment))));
            (debug, current_debug, current_comment, new_body)
        },
        // Metamod has no debug flag; its "comment" is the free-text description
        // that trails `<platform> <path>`.
        EntryFields::Metamod { platform: os, path, rest } => {
            let current_comment = if rest.as_str().is_empty() {
                None
            } else {
                Some(rest.clone())
            };
            assert(opt_chars(current_comment) == (if rest@.len() == 0 { None } else { Some(rest@) }));
            let mut body = text::concat3(os.as_str(), " ", path.as_str());
            if let Some(c) = comment_ref {
                body = text::concat3(body.as_str(), " ", c);
            }
            assert(body@ == attributes_body(entry@.fields, debug, opt_chars(*comment)));
            assert(dialect == Dialect::Metamod);
            (false, false, current_comment, body)
        },
    };
    let changed = new_debug != current_debug || !opt_str_eq(comment, &current_comment);
    if !changed {
        return Ok((false, new_debug, doc.to_bytes()));
    }
    match doc.replace_entry(file, new_body.as_str(), enabled) {
        Ok(_) => {},
        Err(_) => return Err(ApiError::internal("failed to rewrite the plugins.ini entry")),
    }
    Ok((true, new_debug, doc.to_bytes()))
}

} // verus!

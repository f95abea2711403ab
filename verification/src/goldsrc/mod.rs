pub mod amxxpc;
pub mod diagnostics;
pub mod ini;
pub mod liblist;
pub mod moddir;
pub mod paths;

use vstd::prelude::*;

use crate::text::{self, chars_of, chars_starts_with, lower_chars, str_eq};

verus! {

/// Managed plugin platform.
#[derive(Clone, Copy, PartialEq, Eq, Debug, Structural)]
pub enum Platform {
    Metamod,
    Amxx,
}

pub open spec fn platform_from_param(value: Seq<char>) -> Option<Platform> {
    if value == "metamod"@ {
        Some(Platform::Metamod)
    } else if value == "amxx"@ {
        Some(Platform::Amxx)
    } else {
        None
    }
}

impl Platform {
    pub fn from_route_param(value: &str) -> (r: Option<Platform>)
        ensures
            r == platform_from_param(value@),
    {
        if str_eq(value, "metamod") {
            Some(Platform::Metamod)
        } else if str_eq(value, "amxx") {
            Some(Platform::Amxx)
        } else {
            None
        }
    }

    pub fn dialect(self) -> (r: ini::Dialect)
        ensures
            r == (match self {
                Platform::Metamod => ini::Dialect::Metamod,
                Platform::Amxx => ini::Dialect::Amxx,
            }),
    {
        match self {
            Platform::Metamod => ini::Dialect::Metamod,
            Platform::Amxx => ini::Dialect::Amxx,
        }
    }
}

/// AMXX layout relative to the mod dir.
pub const AMXX_DIR: &'static str = "addons/amxmodx";

pub const AMXX_PLUGINS_DIR: &'static str = "addons/amxmodx/plugins";

pub const AMXX_CONFIGS_DIR: &'static str = "addons/amxmodx/configs";

pub const AMXX_PLUGINS_INI: &'static str = "addons/amxmodx/configs/plugins.ini";

/// Default metamod dir when liblist.gam does not point at one.
pub const METAMOD_DIR_DEFAULT: &'static str = "addons/metamod";

pub const LIBLIST_FILE: &'static str = "liblist.gam";

/// Whether a metamod plugins.ini path (or bare file name) designates the
/// AMX Mod X loader: its file name starts with `amxmodx_mm`, ignoring ASCII case.
pub open spec fn is_amxx_loader_spec(path_or_file: Seq<char>) -> bool {
    text::starts_with(
        text::lower_seq(paths::file_name_spec(paths::normalize_spec(path_or_file))),
        "amxmodx_mm"@,
    )
}

/// The AMXX loader entry in metamod's plugins.ini is managed by the platform,
/// not by this plugin's list operations.
pub fn is_amxx_loader_entry(path_or_file: &str) -> (r: bool)
    ensures
        r == is_amxx_loader_spec(path_or_file@),
{
    let normalized = paths::normalize_slashes(path_or_file);
    let name = paths::file_name(normalized.as_str());
    let lowered = lower_chars(&chars_of(name));
    chars_starts_with(&lowered, "amxmodx_mm")
}

} // verus!

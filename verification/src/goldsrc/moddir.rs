//! GoldSource mod directory resolution: game code → mod folder inside the
//! server root (the folder that holds `liblist.gam`).

use vstd::prelude::*;

use crate::text::{self, chars_eq, lower_str};

verus! {

/// Mod folder of a known GameAP game code, compared ignoring ASCII case.
pub open spec fn known_mod_dir_spec(game_code: Seq<char>) -> Option<Seq<char>> {
    let c = text::lower_seq(game_code);
    if c == "cstrike"@ || c == "cs"@ || c == "cs16"@ {
        Some("cstrike"@)
    } else if c == "valve"@ || c == "hl"@ || c == "hldm"@ {
        Some("valve"@)
    } else if c == "czero"@ || c == "cscz"@ {
        Some("czero"@)
    } else if c == "dod"@ {
        Some("dod"@)
    } else if c == "tfc"@ {
        Some("tfc"@)
    } else if c == "gearbox"@ || c == "op4"@ || c == "opfor"@ {
        Some("gearbox"@)
    } else if c == "dmc"@ {
        Some("dmc"@)
    } else if c == "ricochet"@ {
        Some("ricochet"@)
    } else if c == "ag"@ {
        Some("ag"@)
    } else if c == "svencoop"@ {
        Some("svencoop"@)
    } else {
        None
    }
}

/// Known GameAP game codes for GoldSource games.
pub fn known_mod_dir(game_code: &str) -> (r: Option<&'static str>)
    ensures
        match r {
            Some(d) => known_mod_dir_spec(game_code@) == Some(d@),
            None => known_mod_dir_spec(game_code@) is None,
        },
{
    let c = lower_str(game_code);
    if chars_eq(&c, "cstrike") || chars_eq(&c, "cs") || chars_eq(&c, "cs16") {
        Some("cstrike")
    } else if chars_eq(&c, "valve") || chars_eq(&c, "hl") || chars_eq(&c, "hldm") {
        Some("valve")
    } else if chars_eq(&c, "czero") || chars_eq(&c, "cscz") {
        Some("czero")
    } else if chars_eq(&c, "dod") {
        Some("dod")
    } else if chars_eq(&c, "tfc") {
        Some("tfc")
    } else if chars_eq(&c, "gearbox") || chars_eq(&c, "op4") || chars_eq(&c, "opfor") {
        Some("gearbox")
    } else if chars_eq(&c, "dmc") {
        Some("dmc")
    } else if chars_eq(&c, "ricochet") {
        Some("ricochet")
    } else if chars_eq(&c, "ag") {
        Some("ag")
    } else if chars_eq(&c, "svencoop") {
        Some("svencoop")
    } else {
        None
    }
}

} // verus!

//! GameAP plugin: manage Metamod and AMX Mod X plugins on GoldSource servers.
//!
//! Backend of the "Plugins" server tab: parses and edits `plugins.ini` and
//! `liblist.gam` byte-faithfully, resolves a server's mod directory, matches
//! the plugin's HTTP routes and decides every request from what the node
//! reports.

pub mod goldsrc;
pub mod handlers;
pub mod host_api;
pub mod http;
pub mod model;
pub mod router;
pub mod text;

use vstd::prelude::*;

verus! {

/// The plugin's id as the panel knows it. The panel normalizes plugin ids and
/// this one is round-trip stable, so `/api/plugins/ezvdsxmlu6fbk/...` works
/// literally; a hyphenated id would be rewritten to a hash and break routes.
pub const PLUGIN_ID: &'static str = "ezvdsxmlu6fbk";

/// The plugin instance: owns the host through which every node call goes,
/// with the record of those calls.
pub struct GoldsrcAddons<H> {
    host: host_api::Recorded<H>,
}

impl<H: host_api::HostApi> GoldsrcAddons<H> {
    pub closed spec fn host_spec(&self) -> host_api::Recorded<H> {
        self.host
    }

    pub fn new(host: H) -> (r: Self)
        ensures
            r.host_spec().host == host,
            r.host_spec().calls@ == Seq::<host_api::HostCall>::empty(),
    {
        GoldsrcAddons { host: host_api::Recorded::new(host) }
    }

    /// The host, for the request loop that hands it to the handlers.
    pub fn host_mut(&mut self) -> (r: &mut host_api::Recorded<H>)
        ensures
            *r == old(self).host_spec(),
            final(self).host_spec() == *final(r),
    {
        &mut self.host
    }
}

} // verus!

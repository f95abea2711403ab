//! Seam between handlers and the host functions of the panel SDK.
//!
//! The SDK's host calls exist only inside the panel's WebAssembly runtime, so
//! handlers depend on this trait instead; whatever implements it performs the
//! node operations, and the handlers decide on what comes back.

use vstd::prelude::*;

verus! {

#[derive(Debug, Clone, PartialEq, Eq)]
pub enum HostApiError {
    /// ABI/transport failure of the host call itself.
    Call(String),
    /// The daemon reported a failed operation (`success: false` / `error`).
    Op(String),
}

pub type HostResult<T> = Result<T, HostApiError>;

#[derive(Debug, Clone)]
pub struct ServerInfo {
    pub id: u64,
    pub game_code: String,
    pub node_id: u64,
    pub dir: String,
}

#[derive(Debug, Clone)]
pub struct GameInfo {
    pub code: String,
    pub name: String,
    pub engine: String,
}

#[derive(Debug, Clone)]
pub struct NodeInfo {
    pub id: u64,
    pub os: String,
    pub work_path: String,
}

#[derive(Debug, Clone)]
pub struct DirEntry {
    pub name: String,
    pub is_dir: bool,
}

#[derive(Debug, Clone, Copy)]
pub struct FileStat {
    pub is_dir: bool,
    pub size: u64,
    /// Unix permission bits (0 when the node does not report them).
    pub permissions: u32,
}

/// Result of a command executed on a node (nodecmd).
#[derive(Debug, Clone, PartialEq, Eq)]
pub struct CommandOutput {
    pub output: String,
    pub exit_code: i32,
}

/// A node or panel call as it was made through a host: its arguments and the
/// answer it got (paths and contents by their text and bytes).
pub enum HostCall {
    GetServer(u64, HostResult<Option<ServerInfo>>),
    GetGame(Seq<char>, HostResult<Option<GameInfo>>),
    GetNode(u64, HostResult<Option<NodeInfo>>),
    ReadDir(u64, Seq<char>, HostResult<Option<Vec<DirEntry>>>),
    Stat(u64, Seq<char>, HostResult<Option<FileStat>>),
    Download(u64, Seq<char>, HostResult<Vec<u8>>),
    Upload(u64, Seq<char>, Seq<u8>, u32, HostResult<()>),
    Remove(u64, Seq<char>, bool, HostResult<()>),
    Chmod(u64, Seq<char>, u32, HostResult<()>),
    ExecuteCommand(u64, Seq<char>, Option<Seq<char>>, HostResult<CommandOutput>),
}

/// Whether a call changes the node.
pub open spec fn is_write(c: HostCall) -> bool {
    c is Upload || c is Remove || c is Chmod || c is ExecuteCommand
}

/// `b` is `a` followed by calls that only read.
pub open spec fn extends_reading(a: Seq<HostCall>, b: Seq<HostCall>) -> bool {
    &&& a.len() <= b.len()
    &&& b.take(a.len() as int) == a
    &&& forall|k: int| a.len() <= k < b.len() ==> !is_write(#[trigger] b[k])
}

pub proof fn lemma_extends_reading_refl(a: Seq<HostCall>)
    ensures
        extends_reading(a, a),
{
    assert(a.take(a.len() as int) =~= a);
}

pub proof fn lemma_extends_reading_push(a: Seq<HostCall>, b: Seq<HostCall>, c: HostCall)
    requires
        extends_reading(a, b),
        !is_write(c),
    ensures
        extends_reading(a, b.push(c)),
{
    assert(b.push(c).take(a.len() as int) =~= b.take(a.len() as int));
    assert forall|k: int| a.len() <= k < b.push(c).len() implies !is_write(#[trigger] b.push(c)[k]) by {
        if k < b.len() {
            assert(b.push(c)[k] == b[k]);
        }
    }
}

pub proof fn lemma_extends_reading_trans(a: Seq<HostCall>, b: Seq<HostCall>, c: Seq<HostCall>)
    requires
        extends_reading(a, b),
        extends_reading(b, c),
    ensures
        extends_reading(a, c),
{
    assert(c.take(a.len() as int) =~= b.take(a.len() as int));
    assert forall|k: int| a.len() <= k < c.len() implies !is_write(#[trigger] c[k]) by {
        if k < b.len() {
            assert(c[k] == c.take(b.len() as int)[k]);
        }
    }
}

/// The error a call was answered with, if it failed.
pub open spec fn answer_error(c: HostCall) -> Option<HostApiError> {
    match c {
        HostCall::GetServer(_, a) => match a { Err(h) => Some(h), Ok(_) => None },
        HostCall::GetGame(_, a) => match a { Err(h) => Some(h), Ok(_) => None },
        HostCall::GetNode(_, a) => match a { Err(h) => Some(h), Ok(_) => None },
        HostCall::ReadDir(_, _, a) => match a { Err(h) => Some(h), Ok(_) => None },
        HostCall::Stat(_, _, a) => match a { Err(h) => Some(h), Ok(_) => None },
        HostCall::Download(_, _, a) => match a { Err(h) => Some(h), Ok(_) => None },
        HostCall::Upload(_, _, _, _, a) => match a { Err(h) => Some(h), Ok(_) => None },
        HostCall::Remove(_, _, _, a) => match a { Err(h) => Some(h), Ok(_) => None },
        HostCall::Chmod(_, _, _, a) => match a { Err(h) => Some(h), Ok(_) => None },
        HostCall::ExecuteCommand(_, _, _, a) => match a { Err(h) => Some(h), Ok(_) => None },
    }
}

/// `e` is the reply to the failure of the last of the calls `t`.
pub open spec fn failed_last(t: Seq<HostCall>, e: crate::http::ApiError) -> bool {
    t.len() > 0 && (answer_error(t.last()) matches Some(h) && e == crate::http::host_error_spec(h))
}

/// Node and panel operations the handlers need. Nothing is promised of what
/// an implementation answers: the handlers are correct for every answer.
pub trait HostApi {
    fn get_server(&mut self, id: u64) -> HostResult<Option<ServerInfo>>;

    fn get_game(&mut self, code: &str) -> HostResult<Option<GameInfo>>;

    fn get_node(&mut self, id: u64) -> HostResult<Option<NodeInfo>>;

    /// `Ok(None)` — directory missing or unreadable.
    fn read_dir(&mut self, node_id: u64, path: &str) -> HostResult<Option<Vec<DirEntry>>>;

    /// Existence probe; `Ok(None)` — not found.
    fn stat(&mut self, node_id: u64, path: &str) -> HostResult<Option<FileStat>>;

    fn download(&mut self, node_id: u64, path: &str) -> HostResult<Vec<u8>>;

    fn upload(&mut self, node_id: u64, path: &str, content: &[u8], permissions: u32) -> HostResult<()>;

    fn remove(&mut self, node_id: u64, path: &str, recursive: bool) -> HostResult<()>;

    fn chmod(&mut self, node_id: u64, path: &str, permissions: u32) -> HostResult<()>;

    fn execute_command(&mut self, node_id: u64, command: &str, work_dir: Option<&str>) -> HostResult<CommandOutput>;

    fn log_info(&mut self, message: &str);

    fn log_error(&mut self, message: &str);
}

/// A host whose calls are recorded, each with its arguments and the answer
/// it got, and whose error log is recorded too: the handlers work through
/// it, and their contracts speak of what they asked the node, what they did
/// with the answers and what they logged.
pub struct Recorded<H> {
    pub host: H,
    pub calls: Ghost<Seq<HostCall>>,
    /// The messages logged as errors, in order.
    pub errors: Ghost<Seq<Seq<char>>>,
}

impl<H: HostApi> Recorded<H> {
    pub fn new(host: H) -> (r: Self)
        ensures
            r.host == host,
            r.calls@ == Seq::<HostCall>::empty(),
            r.errors@ == Seq::<Seq<char>>::empty(),
    {
        Recorded { host, calls: Ghost(Seq::empty()), errors: Ghost(Seq::empty()) }
    }

    pub fn get_server(&mut self, id: u64) -> (r: HostResult<Option<ServerInfo>>)
        ensures
            final(self).calls@ == old(self).calls@.push(HostCall::GetServer(id, r)),
            final(self).errors@ == old(self).errors@,
    {
        let r = self.host.get_server(id);
        self.calls = Ghost(self.calls@.push(HostCall::GetServer(id, r)));
        r
    }

    pub fn get_game(&mut self, code: &str) -> (r: HostResult<Option<GameInfo>>)
        ensures
            final(self).calls@ == old(self).calls@.push(HostCall::GetGame(code@, r)),
            final(self).errors@ == old(self).errors@,
    {
        let r = self.host.get_game(code);
        self.calls = Ghost(self.calls@.push(HostCall::GetGame(code@, r)));
        r
    }

    pub fn get_node(&mut self, id: u64) -> (r: HostResult<Option<NodeInfo>>)
        ensures
            final(self).calls@ == old(self).calls@.push(HostCall::GetNode(id, r)),
            final(self).errors@ == old(self).errors@,
    {
        let r = self.host.get_node(id);
        self.calls = Ghost(self.calls@.push(HostCall::GetNode(id, r)));
        r
    }

    pub fn read_dir(&mut self, node_id: u64, path: &str) -> (r: HostResult<Option<Vec<DirEntry>>>)
        ensures
            final(self).calls@ == old(self).calls@.push(HostCall::ReadDir(node_id, path@, r)),
            final(self).errors@ == old(self).errors@,
    {
        let r = self.host.read_dir(node_id, path);
        self.calls = Ghost(self.calls@.push(HostCall::ReadDir(node_id, path@, r)));
        r
    }

    pub fn stat(&mut self, node_id: u64, path: &str) -> (r: HostResult<Option<FileStat>>)
        ensures
            final(self).calls@ == old(self).calls@.push(HostCall::Stat(node_id, path@, r)),
            final(self).errors@ == old(self).errors@,
    {
        let r = self.host.stat(node_id, path);
        self.calls = Ghost(self.calls@.push(HostCall::Stat(node_id, path@, r)));
        r
    }

    pub fn download(&mut self, node_id: u64, path: &str) -> (r: HostResult<Vec<u8>>)
        ensures
            final(self).calls@ == old(self).calls@.push(HostCall::Download(node_id, path@, r)),
            final(self).errors@ == old(self).errors@,
    {
        let r = self.host.download(node_id, path);
        self.calls = Ghost(self.calls@.push(HostCall::Download(node_id, path@, r)));
        r
    }

    pub fn upload(&mut self, node_id: u64, path: &str, content: &[u8], permissions: u32) -> (r: HostResult<()>)
        ensures
            final(self).calls@ == old(self).calls@.push(HostCall::Upload(node_id, path@, content@, permissions, r)),
            final(self).errors@ == old(self).errors@,
    {
        let r = self.host.upload(node_id, path, content, permissions);
        self.calls = Ghost(self.calls@.push(HostCall::Upload(node_id, path@, content@, permissions, r)));
        r
    }

    pub fn remove(&mut self, node_id: u64, path: &str, recursive: bool) -> (r: HostResult<()>)
        ensures
            final(self).calls@ == old(self).calls@.push(HostCall::Remove(node_id, path@, recursive, r)),
            final(self).errors@ == old(self).errors@,
    {
        let r = self.host.remove(node_id, path, recursive);
        self.calls = Ghost(self.calls@.push(HostCall::Remove(node_id, path@, recursive, r)));
        r
    }

    /// Logging is no node call: the calls stay as they are, and the message
    /// is added to the error log.
    pub fn log_error(&mut self, message: &str)
        ensures
            final(self).calls@ == old(self).calls@,
            final(self).errors@ == old(self).errors@.push(message@),
    {
        self.host.log_error(message);
        self.errors = Ghost(self.errors@.push(message@));
    }
}

} // verus!

//! How a filesystem gets attached to the kernel.
//!
//! Attaching is a matter of the transport: a FUSE session is one call, while a
//! local NFS server has to find a free port in a configured range.
use vstd::prelude::*;
use crate::text::{concat2, concat3, decimal, decimal_str, text_in};

verus! {

/// Configuration of the transports.
#[derive(Clone, Copy, Debug, PartialEq, Eq, Structural)]
pub struct VfsManagerConfig {
    /// Lowest port of the range for local NFS servers.
    pub min_nfs_port: u16,
    /// Highest port of the range.
    pub max_nfs_port: u16,
}

/// The transport of one mount.
#[derive(Clone, Copy, Debug, PartialEq, Eq, Structural)]
pub enum TransportInfo {
    /// The mount is made; there is nothing left to do.
    Fuse,
    /// A server listens on `port`, and the mount is still to be made.
    Nfs { port: u16 },
}

/// Why a filesystem was not attached.
#[derive(Clone, Debug)]
pub enum BindError {
    ManagerGone,
    FuseMount(String),
    NfsBind { min: u16, max: u16, last_error: String },
    UnsupportedPlatform,
}

impl BindError {
    /// What the error says.
    pub open spec fn message(self) -> Seq<char> {
        match self {
            BindError::ManagerGone => "VFS manager has shut down"@,
            BindError::FuseMount(cause) => "FUSE mount failed: "@ + cause@,
            BindError::NfsBind { min, max, last_error } => "NFS bind exhausted port range "@
                + decimal(min as nat) + "..="@ + decimal(max as nat) + ": "@ + last_error@,
            BindError::UnsupportedPlatform => "no VFS transport available on this platform"@,
        }
    }

    /// The message of the error.
    pub fn to_string(&self) -> (s: String)
        ensures
            s@ == self.message(),
    {
        match self {
            BindError::ManagerGone => "VFS manager has shut down".to_owned(),
            BindError::FuseMount(cause) => concat2("FUSE mount failed: ", cause.as_str()),
            BindError::NfsBind { min, max, last_error } => {
                let low = decimal_str(*min as u64);
                let high = decimal_str(*max as u64);
                let mut s = concat3("NFS bind exhausted port range ", low.as_str(), "..=");
                s.append(high.as_str());
                s.append(": ");
                s.append(last_error.as_str());
                s
            },
            BindError::UnsupportedPlatform =>
                "no VFS transport available on this platform".to_owned(),
        }
    }
}

/// A port number.
pub type Port = u16;

/// The ports of a range, in the order in which they are tried.
pub open spec fn ports(config: VfsManagerConfig) -> Seq<Port> {
    if config.min_nfs_port <= config.max_nfs_port {
        Seq::new(
            (config.max_nfs_port - config.min_nfs_port + 1) as nat,
            |i: int| (config.min_nfs_port + i) as u16,
        )
    } else {
        seq![]
    }
}

/// A search for a free port: the ports of the range are tried one after the
/// other, from the lowest on.
#[derive(Debug)]
pub struct PortSearch {
    config: VfsManagerConfig,
    tried: u32,
    last_error: Option<String>,
}

impl PortSearch {
    /// The range that is searched.
    pub closed spec fn config(&self) -> VfsManagerConfig {
        self.config
    }

    /// How many ports were refused so far.
    pub closed spec fn tried(&self) -> nat {
        self.tried as nat
    }

    /// Why the last port was refused.
    pub closed spec fn last_error(&self) -> Option<Seq<char>> {
        text_in(self.last_error)
    }

    /// No more ports were refused than there are, and a reason is known exactly
    /// when one was.
    pub open spec fn wf(&self) -> bool {
        &&& self.tried() <= ports(self.config()).len()
        &&& self.last_error() is Some <==> self.tried() > 0
    }

    /// Begin a search.
    pub fn new(config: VfsManagerConfig) -> (s: PortSearch)
        ensures
            s.wf(),
            s.config() == config,
            s.tried() == 0,
    {
        PortSearch { config, tried: 0, last_error: None }
    }

    /// The port to try next, if any is left.
    pub fn next_port(&self) -> (r: Option<Port>)
        requires
            self.wf(),
        ensures
            r == (if self.tried() < ports(self.config()).len() {
                Some(ports(self.config())[self.tried() as int])
            } else {
                None
            }),
    {
        if self.config.min_nfs_port > self.config.max_nfs_port {
            return None;
        }
        let count: u32 = (self.config.max_nfs_port - self.config.min_nfs_port) as u32 + 1;
        if self.tried < count {
            Some(self.config.min_nfs_port + self.tried as u16)
        } else {
            None
        }
    }

    /// Note that the port was refused.
    pub fn refused(&mut self, error: String)
        requires
            old(self).wf(),
            old(self).tried() < ports(old(self).config()).len(),
        ensures
            final(self).wf(),
            final(self).config() == old(self).config(),
            final(self).tried() == old(self).tried() + 1,
            final(self).last_error() == Some(error@),
    {
        self.tried = self.tried + 1;
        self.last_error = Some(error);
    }

    /// The error of a search that found nothing: it tells the range and why the
    /// last port was refused.
    pub fn exhausted(self) -> (e: BindError)
        requires
            self.wf(),
            self.tried() == ports(self.config()).len(),
        ensures
            e matches BindError::NfsBind { min, max, last_error } && {
                &&& min == self.config().min_nfs_port
                &&& max == self.config().max_nfs_port
                &&& last_error@ == match self.last_error() {
                    Some(text) => text,
                    None => "empty NFS port range"@,
                }
            },
    {
        let last_error = match self.last_error {
            Some(text) => text,
            None => "empty NFS port range".to_owned(),
        };
        BindError::NfsBind {
            min: self.config.min_nfs_port,
            max: self.config.max_nfs_port,
            last_error,
        }
    }
}

/// Every port of the range is tried, and none twice.
pub proof fn every_port_is_tried_once(config: VfsManagerConfig, port: Port)
    ensures
        config.min_nfs_port <= port <= config.max_nfs_port <==> ports(config).contains(port),
        ports(config).no_duplicates(),
{
    if config.min_nfs_port <= port <= config.max_nfs_port {
        assert(ports(config)[port - config.min_nfs_port] == port);
    }
}

/// What a front end is told of the transport; ports are wide on the wire.
#[derive(Clone, Copy, Debug, PartialEq, Eq, Structural)]
pub enum TransportReply {
    Fuse,
    Nfs { port: u32 },
}

/// What a front end is told of the transport.
pub open spec fn transport_reply(info: TransportInfo) -> TransportReply {
    match info {
        TransportInfo::Fuse => TransportReply::Fuse,
        TransportInfo::Nfs { port } => TransportReply::Nfs { port: port as u32 },
    }
}

/// What a front end is told of the transport.
pub fn transport_to_proto(info: TransportInfo) -> (r: TransportReply)
    ensures
        r == transport_reply(info),
{
    match info {
        TransportInfo::Fuse => TransportReply::Fuse,
        TransportInfo::Nfs { port } => TransportReply::Nfs { port: port as u32 },
    }
}

} // verus!

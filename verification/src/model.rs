//! The records the client keeps: servers, log entries, routing settings
//! and traffic counters, each with its mathematical view.
use vstd::prelude::*;

verus! {

/// A proxy server taken from a share link.
#[derive(Debug)]
pub struct Server {
    pub id: String,
    pub name: String,
    pub address: String,
    pub port: u16,
    pub protocol: String,
    pub uuid: String,
    pub flow: Option<String>,
    pub sni: Option<String>,
    pub public_key: Option<String>,
    pub short_id: Option<String>,
    pub security: Option<String>,
    pub fingerprint: Option<String>,
    /// The transport type (the `type` parameter of a link).
    pub net_type: Option<String>,
    pub ping: Option<u32>,
    pub status: String,
}

/// The contents of a [`Server`], as character sequences.
pub struct ServerView {
    pub id: Seq<char>,
    pub name: Seq<char>,
    pub address: Seq<char>,
    pub port: u16,
    pub protocol: Seq<char>,
    pub uuid: Seq<char>,
    pub flow: Option<Seq<char>>,
    pub sni: Option<Seq<char>>,
    pub public_key: Option<Seq<char>>,
    pub short_id: Option<Seq<char>>,
    pub security: Option<Seq<char>>,
    pub fingerprint: Option<Seq<char>>,
    pub net_type: Option<Seq<char>>,
    pub ping: Option<u32>,
    pub status: Seq<char>,
}

impl View for Server {
    type V = ServerView;

    open spec fn view(&self) -> ServerView {
        ServerView {
            id: self.id@,
            name: self.name@,
            address: self.address@,
            port: self.port,
            protocol: self.protocol@,
            uuid: self.uuid@,
            flow: self.flow.deep_view(),
            sni: self.sni.deep_view(),
            public_key: self.public_key.deep_view(),
            short_id: self.short_id.deep_view(),
            security: self.security.deep_view(),
            fingerprint: self.fingerprint.deep_view(),
            net_type: self.net_type.deep_view(),
            ping: self.ping,
            status: self.status@,
        }
    }
}

/// `v` with its identifier replaced by `id`.
pub open spec fn with_id(v: ServerView, id: Seq<char>) -> ServerView {
    ServerView {
        id: id,
        name: v.name,
        address: v.address,
        port: v.port,
        protocol: v.protocol,
        uuid: v.uuid,
        flow: v.flow,
        sni: v.sni,
        public_key: v.public_key,
        short_id: v.short_id,
        security: v.security,
        fingerprint: v.fingerprint,
        net_type: v.net_type,
        ping: v.ping,
        status: v.status,
    }
}

/// One line of the application log.
#[derive(Debug)]
pub struct LogEntry {
    pub timestamp: String,
    pub level: String,
    pub message: String,
}

pub struct LogEntryView {
    pub timestamp: Seq<char>,
    pub level: Seq<char>,
    pub message: Seq<char>,
}

impl View for LogEntry {
    type V = LogEntryView;

    open spec fn view(&self) -> LogEntryView {
        LogEntryView { timestamp: self.timestamp@, level: self.level@, message: self.message@ }
    }
}

impl LogEntry {
    /// A copy of this entry.
    pub fn copy(&self) -> (res: LogEntry)
        ensures
            res@ == self@,
    {
        LogEntry {
            timestamp: self.timestamp.clone(),
            level: self.level.clone(),
            message: self.message.clone(),
        }
    }
}

/// How traffic is routed through the tunnel.
#[derive(Debug)]
pub struct RoutingConfig {
    pub block_ads: bool,
    pub bypass_lan: bool,
    pub split_routing: bool,
    pub region: String,
}

pub struct RoutingConfigView {
    pub block_ads: bool,
    pub bypass_lan: bool,
    pub split_routing: bool,
    pub region: Seq<char>,
}

impl View for RoutingConfig {
    type V = RoutingConfigView;

    open spec fn view(&self) -> RoutingConfigView {
        RoutingConfigView {
            block_ads: self.block_ads,
            bypass_lan: self.bypass_lan,
            split_routing: self.split_routing,
            region: self.region@,
        }
    }
}

impl RoutingConfig {
    /// A copy of this configuration.
    pub fn copy(&self) -> (res: RoutingConfig)
        ensures
            res@ == self@,
    {
        RoutingConfig {
            block_ads: self.block_ads,
            bypass_lan: self.bypass_lan,
            split_routing: self.split_routing,
            region: self.region.clone(),
        }
    }
}

/// The settings used when none were saved: ads not blocked, local
/// networks bypassed, split routing on, region "russia".
impl Default for RoutingConfig {
    fn default() -> (res: RoutingConfig)
        ensures
            !res.block_ads,
            res.bypass_lan,
            res.split_routing,
            res.region@ == "russia"@,
    {
        RoutingConfig {
            block_ads: false,
            bypass_lan: true,
            split_routing: true,
            region: "russia".to_owned(),
        }
    }
}

/// Traffic counters of the running connection, in bytes.
#[derive(Debug)]
pub struct ConnectionStats {
    pub uplink: u64,
    pub downlink: u64,
}

impl ConnectionStats {
    /// The counters reported by the client, which does not measure
    /// traffic: both zero.
    pub fn unmeasured() -> (res: ConnectionStats)
        ensures
            res.uplink == 0,
            res.downlink == 0,
    {
        ConnectionStats { uplink: 0, downlink: 0 }
    }
}

} // verus!

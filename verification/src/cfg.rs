//! Connection configuration.

use crate::buf::{be_bytes, read_u32, value_at, write_u32};
use crate::msg::MsgError;
use crate::time::{Duration, NANOS_PER_MILLI, NANOS_PER_SEC};
use vstd::prelude::*;
use vstd::std_specs::convert::FromSpecImpl;

verus! {

/// Link pinging mode.
#[derive(Debug, Clone, Copy, PartialEq, Eq, PartialOrd, Ord, Hash, Structural)]
#[non_exhaustive]
pub enum LinkPing {
    /// Periodic with specified interval.
    Periodic(Duration),
    /// When idle for specified time.
    WhenIdle(Duration),
    /// When a previous transmission timed out.
    WhenTimedOut,
}

/// Step of the schedule for increasing the limit of sent unacknowledged data of a link.
#[derive(Debug, Clone, Copy, PartialEq, Eq, PartialOrd, Ord, Hash, Structural)]
pub struct UnackedIncrease {
    /// Minimum number of consecutive increases without buffer overrun for this step to apply.
    pub consecutive: u32,
    /// Percentage of the current limit the new limit is set to.
    ///
    /// Must be greater than 100 for the limit to actually increase.
    pub percent: u32,
}

/// Configuration of a connection consisting of aggregated links.
///
/// For most use cases the default configuration, i.e. `Cfg::default()`,
/// should be used. It has proven to work well for connections with a bandwidth of
/// up to 100 MB/s.
///
/// The parameters critical to performance are the buffer sizes, in particular
/// `send_buffer`, `recv_buffer` and `LinkCfg::unacked_limit`.
/// Thus, if the connection is under-performing, try increasing these limits.
#[derive(Debug, Clone, PartialEq, Eq, PartialOrd, Ord, Hash)]
pub struct Cfg {
    /// The size of a data packet when sending using stream-based IO.
    pub io_write_size: usize,
    /// Ignore explicit flush requests of the sender.
    ///
    /// Automatic flushing by `LinkCfg::flush_delay` and `LinkCfg::flush_interval`
    /// is unaffected.
    pub ignore_flush: bool,
    /// Maximum number of unacknowledged sent bytes.
    pub send_buffer: u32,
    /// Length of queue for sending data packets.
    pub send_queue: usize,
    /// Maximum number of unacknowledged received bytes.
    pub recv_buffer: u32,
    /// Length of queue for received data packets.
    pub recv_queue: usize,
    /// Maximum factor by which highest ping may exceed lowest ping.
    pub link_max_ping_spread: Option<u32>,
    /// Timeout after which connection is closed when no working links are present.
    pub no_link_timeout: Duration,
    /// Timeout after which connection is forcefully closed when sender and receiver are closed.
    pub termination_timeout: Duration,
    /// Queue length for establishing connections.
    pub connect_queue: usize,
    /// Disconnect the aggregated connection when a server id mismatch occurs while connecting a link.
    pub disconnect_on_server_id_mismatch: bool,
    /// Link speed statistics interval durations.
    pub stats_intervals: Vec<Duration>,
    /// Link-specific configuration. Can be overridden per link.
    pub link: LinkCfg,
}

/// Link-specific configuration.
///
/// For most use cases the default configuration, i.e. `LinkCfg::default()`,
/// should be used.
#[derive(Debug, Clone, PartialEq, Eq, PartialOrd, Ord, Hash)]
pub struct LinkCfg {
    /// Target packet size for IO-stream-based links.
    pub io_packet_size: usize,
    /// Minimum timeout waiting for a packet to be acknowledged.
    pub ack_timeout_min: Duration,
    /// Factor to calculate acknowledgement timeout from roundtrip time.
    ///
    /// Timeout is given by current roundtrip time (ping) of the link times this factor.
    pub ack_timeout_roundtrip_factor: u32,
    /// Additional factor applied to the acknowledgement timeout of a packet that has
    /// already been resent over another link.
    ///
    /// This avoids a packet cascading over all links in quick succession.
    pub ack_timeout_resent_factor: u32,
    /// Additional factor applied to the acknowledgement timeout while the roundtrip time
    /// of the link has not been measured often enough to be considered reliable.
    pub ack_timeout_unreliable_factor: u32,
    /// Maximum timeout waiting for a packet to be acknowledged.
    pub ack_timeout_max: Duration,
    /// Start value for discovering the amount of sent unacknowledged data.
    pub unacked_init: usize,
    /// Maximum amount of sent unacknowledged data per link.
    pub unacked_limit: usize,
    /// Schedule for increasing the limit of sent unacknowledged data of a link.
    ///
    /// Whenever a link is blocked by its limit and no other link is available for sending,
    /// the limit is increased. The step with the highest number of matching consecutive
    /// increases is applied; if no step matches, the limit is not increased.
    ///
    /// This does not apply when only one link is working; see `unacked_increase_single_link`.
    pub unacked_increase: Vec<UnackedIncrease>,
    /// Percentage of the current limit the new limit is set to when only one link is working.
    ///
    /// Must be greater than 100 for the limit to actually increase.
    pub unacked_increase_single_link: u32,
    /// Link pinging mode.
    pub ping: LinkPing,
    /// Timeout for waiting for ping response, which when exceeded leads to removal of the link.
    pub ping_timeout: Duration,
    /// Maximum ping for a link to be usable.
    ///
    /// A link is used anyways if all links have a ping higher than the specified value.
    pub max_ping: Option<Duration>,
    /// Maximum amount of data to send to test the functionality of a link before using it.
    ///
    /// If zero, no test data is sent and a newly established link is used immediately,
    /// relying on the roundtrip time measured during the handshake.
    pub test_data_limit: usize,
    /// Test a link after an acknowledgement timeout.
    pub test_after_ack_timeout: bool,
    /// Time to wait before link is tested again after a test has failed.
    pub retest_interval: Duration,
    /// Timeout after which a non-working link is disconnected.
    pub non_working_timeout: Duration,
    /// Delay before flushing a link when it has become idle.
    pub flush_delay: Duration,
    /// Interval for flushing non-idle links.
    pub flush_interval: Option<Duration>,
    /// Maximum age of unflushed acknowledgements.
    pub ack_flush_interval: Option<Duration>,
    /// Maximum amount of sent data on a link before triggering a flush.
    pub unflushed_limit: Option<usize>,
}

/// The duration of the specified number of milliseconds.
pub open spec fn millis(n: int) -> Duration {
    Duration { nanos: (n * NANOS_PER_MILLI) as u64 }
}

/// The duration of the specified number of seconds.
pub open spec fn secs(n: int) -> Duration {
    Duration { nanos: (n * NANOS_PER_SEC) as u64 }
}

impl LinkCfg {
    /// Whether the values are within the range in which the configuration works.
    ///
    /// Sizes and factors are not zero and the acknowledgement timeouts span a range.
    pub open spec fn wf(self) -> bool {
        &&& self.io_packet_size > 0
        &&& self.ack_timeout_roundtrip_factor > 0
        &&& self.ack_timeout_resent_factor > 0
        &&& self.ack_timeout_unreliable_factor > 0
        &&& self.ack_timeout_min.nanos <= self.ack_timeout_max.nanos
        &&& self.unacked_init > 0
        &&& self.unacked_limit > 0
        &&& (self.unflushed_limit matches Some(limit) ==> limit > 0)
    }

    /// Checks whether the values are within the range in which the configuration works.
    pub fn is_valid(&self) -> (r: bool)
        ensures
            r == self.wf(),
    {
        self.io_packet_size > 0 && self.ack_timeout_roundtrip_factor > 0 && self.ack_timeout_resent_factor > 0
            && self.ack_timeout_unreliable_factor > 0 && self.ack_timeout_min.nanos <= self.ack_timeout_max.nanos
            && self.unacked_init > 0 && self.unacked_limit > 0 && match self.unflushed_limit {
            Some(limit) => limit > 0,
            None => true,
        }
    }
}

impl Cfg {
    /// Whether the values are within the range in which the configuration works.
    ///
    /// Sizes and factors are not zero and the link configuration is valid.
    pub open spec fn wf(self) -> bool {
        &&& self.io_write_size > 0
        &&& self.send_buffer > 0
        &&& self.send_queue > 0
        &&& self.recv_buffer > 0
        &&& self.recv_queue > 0
        &&& (self.link_max_ping_spread matches Some(spread) ==> spread > 0)
        &&& self.connect_queue > 0
        &&& self.link.wf()
    }

    /// Checks whether the values are within the range in which the configuration works.
    pub fn is_valid(&self) -> (r: bool)
        ensures
            r == self.wf(),
    {
        self.io_write_size > 0 && self.send_buffer > 0 && self.send_queue > 0 && self.recv_buffer > 0
            && self.recv_queue > 0 && match self.link_max_ping_spread {
            Some(spread) => spread > 0,
            None => true,
        } && self.connect_queue > 0 && self.link.is_valid()
    }
}

impl Default for LinkCfg {
    /// The default link-specific configuration.
    fn default() -> (r: Self)
        ensures
            r.wf(),
            r.io_packet_size == 65_536,
            r.ack_timeout_min == secs(1),
            r.ack_timeout_roundtrip_factor == 3,
            r.ack_timeout_resent_factor == 3,
            r.ack_timeout_unreliable_factor == 3,
            r.ack_timeout_max == secs(30),
            r.unacked_init == 8192,
            r.unacked_limit == 134_217_728,
            r.unacked_increase@ == seq![
                UnackedIncrease { consecutive: 0, percent: 101 },
                UnackedIncrease { consecutive: 10, percent: 102 },
                UnackedIncrease { consecutive: 25, percent: 105 },
                UnackedIncrease { consecutive: 50, percent: 110 },
                UnackedIncrease { consecutive: 100, percent: 120 },
            ],
            r.unacked_increase_single_link == 200,
            r.ping == LinkPing::WhenIdle(secs(15)),
            r.ping_timeout == secs(40),
            r.max_ping is None,
            r.test_data_limit == 65_536,
            !r.test_after_ack_timeout,
            r.retest_interval == secs(3),
            r.non_working_timeout == secs(20),
            r.flush_delay == millis(50),
            r.flush_interval is None,
            r.ack_flush_interval == Some(millis(50)),
            r.unflushed_limit == Some(131_072usize),
    {
        LinkCfg {
            io_packet_size: 65_536,
            ack_timeout_min: Duration::from_secs(1),
            ack_timeout_roundtrip_factor: 3,
            ack_timeout_resent_factor: 3,
            ack_timeout_unreliable_factor: 3,
            ack_timeout_max: Duration::from_secs(30),
            unacked_init: 8192,
            unacked_limit: 134_217_728,
            unacked_increase: vec![
                UnackedIncrease { consecutive: 0, percent: 101 },
                UnackedIncrease { consecutive: 10, percent: 102 },
                UnackedIncrease { consecutive: 25, percent: 105 },
                UnackedIncrease { consecutive: 50, percent: 110 },
                UnackedIncrease { consecutive: 100, percent: 120 },
            ],
            unacked_increase_single_link: 200,
            ping: LinkPing::WhenIdle(Duration::from_secs(15)),
            ping_timeout: Duration::from_secs(40),
            max_ping: None,
            test_data_limit: 65_536,
            test_after_ack_timeout: false,
            retest_interval: Duration::from_secs(3),
            non_working_timeout: Duration::from_secs(20),
            flush_delay: Duration::from_millis(50),
            flush_interval: None,
            ack_flush_interval: Some(Duration::from_millis(50)),
            unflushed_limit: Some(131_072),
        }
    }
}

impl Default for Cfg {
    /// The default configuration.
    fn default() -> (r: Self)
        ensures
            r.wf(),
            r.io_write_size == 8_192,
            !r.ignore_flush,
            r.send_buffer == 134_217_728,
            r.send_queue == 16,
            r.recv_buffer == 134_217_728,
            r.recv_queue == 16,
            r.link_max_ping_spread == Some(5u32),
            r.no_link_timeout == secs(120),
            r.termination_timeout == secs(300),
            r.connect_queue == 32,
            r.disconnect_on_server_id_mismatch,
            r.stats_intervals@ == seq![millis(100), secs(1), secs(5), secs(10)],
            call_ensures(<LinkCfg as Default>::default, (), r.link),
    {
        Cfg {
            io_write_size: 8_192,
            ignore_flush: false,
            send_buffer: 134_217_728,
            send_queue: 16,
            recv_buffer: 134_217_728,
            recv_queue: 16,
            link_max_ping_spread: Some(5),
            no_link_timeout: Duration::from_secs(120),
            termination_timeout: Duration::from_secs(300),
            connect_queue: 32,
            disconnect_on_server_id_mismatch: true,
            stats_intervals: vec![
                Duration::from_millis(100),
                Duration::from_secs(1),
                Duration::from_secs(5),
                Duration::from_secs(10),
            ],
            link: LinkCfg::default(),
        }
    }
}

/// Link aggregator configuration exchanged with remote endpoint.
#[derive(Debug, Clone, Copy, PartialEq, Eq, Structural)]
pub struct ExchangedCfg {
    /// Maximum number of unacknowledged bytes.
    pub recv_buffer: u32,
}

impl ExchangedCfg {
    /// Whether this configuration may be exchanged.
    pub open spec fn wf(self) -> bool {
        self.recv_buffer > 0
    }

    /// The encoded configuration.
    pub open spec fn bytes(self) -> Seq<u8> {
        be_bytes(self.recv_buffer as nat, 4)
    }

    /// The configuration encoded in `bytes` from position `pos`.
    pub open spec fn parse(bytes: Seq<u8>, pos: int) -> Result<ExchangedCfg, MsgError> {
        match value_at(bytes, pos, 4) {
            None => Err(MsgError::TooShort),
            Some(n) => if n == 0 {
                Err(MsgError::ZeroRecvBuffer)
            } else {
                Ok(ExchangedCfg { recv_buffer: n as u32 })
            },
        }
    }

    /// Appends the encoded configuration.
    pub fn write(&self, writer: &mut Vec<u8>)
        ensures
            final(writer)@ == old(writer)@ + self.bytes(),
    {
        write_u32(writer, self.recv_buffer);
    }

    /// Reads the configuration from position `pos`.
    pub fn read(reader: &[u8], pos: usize) -> (r: Result<Self, MsgError>)
        requires
            pos <= reader@.len(),
        ensures
            r == Self::parse(reader@, pos as int),
    {
        match read_u32(reader, pos) {
            None => Err(MsgError::TooShort),
            Some(n) => if n == 0 {
                Err(MsgError::ZeroRecvBuffer)
            } else {
                Ok(ExchangedCfg { recv_buffer: n })
            },
        }
    }
}

impl FromSpecImpl<&Cfg> for ExchangedCfg {
    open spec fn obeys_from_spec() -> bool {
        true
    }

    open spec fn from_spec(cfg: &Cfg) -> ExchangedCfg {
        ExchangedCfg { recv_buffer: cfg.recv_buffer }
    }
}

impl From<&Cfg> for ExchangedCfg {
    fn from(cfg: &Cfg) -> (r: Self) {
        ExchangedCfg { recv_buffer: cfg.recv_buffer }
    }
}

} // verus!

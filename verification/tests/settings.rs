//! Configuration.

use aggligator::cfg::{Cfg, ExchangedCfg, LinkCfg, LinkPing, UnackedIncrease};
use aggligator::msg::MsgError;
use aggligator::time::Duration;

#[test]
fn default_configuration_is_valid() {
    let cfg = Cfg::default();
    assert!(cfg.is_valid());
    assert_eq!(cfg.io_write_size, 8192);
    assert_eq!((cfg.send_buffer, cfg.recv_buffer), (134_217_728, 134_217_728));
    assert_eq!(cfg.link_max_ping_spread, Some(5));
    assert_eq!(cfg.no_link_timeout, Duration::from_secs(120));
    assert_eq!(cfg.stats_intervals.len(), 4);
    assert_eq!(cfg.link, LinkCfg::default());
    assert_eq!(cfg.link.ping, LinkPing::WhenIdle(Duration::from_secs(15)));
    assert_eq!(cfg.link.unacked_increase[2], UnackedIncrease { consecutive: 25, percent: 105 });
    assert_eq!(cfg.link.flush_delay, Duration::from_millis(50));
}

#[test]
fn invalid_configurations_are_detected() {
    assert!(!Cfg { send_buffer: 0, ..Cfg::default() }.is_valid());
    assert!(!Cfg { recv_buffer: 0, ..Cfg::default() }.is_valid());
    assert!(!Cfg { link_max_ping_spread: Some(0), ..Cfg::default() }.is_valid());
    assert!(Cfg { link_max_ping_spread: None, ..Cfg::default() }.is_valid());
    assert!(!LinkCfg { unacked_init: 0, ..LinkCfg::default() }.is_valid());
    assert!(!LinkCfg { unflushed_limit: Some(0), ..LinkCfg::default() }.is_valid());
    assert!(!LinkCfg { ack_timeout_min: Duration::from_secs(31), ..LinkCfg::default() }.is_valid());
}

#[test]
fn configuration_is_exchanged() {
    let exchanged = ExchangedCfg::from(&Cfg { recv_buffer: 0x01020304, ..Cfg::default() });
    let mut buf = vec![0xff];
    exchanged.write(&mut buf);
    assert_eq!(buf, vec![0xff, 1, 2, 3, 4]);
    assert_eq!(ExchangedCfg::read(&buf, 1), Ok(exchanged));
    assert_eq!(ExchangedCfg::read(&buf, 2), Err(MsgError::TooShort));
    assert_eq!(ExchangedCfg::read(&[0, 0, 0, 0], 0), Err(MsgError::ZeroRecvBuffer));
}

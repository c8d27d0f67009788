//! The channel over aggregated links and its message queues.

use aggligator::alc::{check_send, max_send_size, recv_outcome, write_len, FlushStep, ReadBuffer, RecvError, SendError, SinkState};
use aggligator::cfg::{Cfg, ExchangedCfg};
use aggligator::error::ErrorKind;
use aggligator::peekable_mpsc::{PeekableReceiver, RecvIfError, TryRecvError, TryRecvIfError};
use bytes::Bytes;

#[test]
fn send_size_is_limited() {
    assert_eq!(max_send_size(&ExchangedCfg { recv_buffer: 1 }), 1);
    assert_eq!(max_send_size(&ExchangedCfg { recv_buffer: 4 }), 1);
    assert_eq!(max_send_size(&ExchangedCfg { recv_buffer: 7 }), 2);
    assert_eq!(max_send_size(&ExchangedCfg { recv_buffer: 1000 }), 499);
}

#[test]
fn send_requests_are_checked() {
    let remote = ExchangedCfg { recv_buffer: 10 };
    let small = Bytes::from_static(b"1234");
    let big = Bytes::from_static(b"12345");
    assert_eq!(check_send(&small, &remote), Ok(()));
    assert_eq!(check_send(&big, &remote), Err(SendError::DataTooBig));
}

#[test]
fn sink_is_flushed_and_closed() {
    let remote = ExchangedCfg { recv_buffer: 10 };
    let mut sink = SinkState::new();
    assert_eq!(sink.check_ready(), Ok(()));
    assert_eq!(sink.check_send(&Bytes::from_static(b"1234"), &remote), Ok(()));
    assert_eq!(sink.check_send(&Bytes::from_static(b"12345"), &remote), Err(SendError::DataTooBig));
    assert_eq!(sink.flush_step(), FlushStep::Request);
    sink.flush_requested();
    assert_eq!(sink.flush_step(), FlushStep::Wait);
    sink.flush_completed();
    assert_eq!(sink.flush_step(), FlushStep::Request);
    sink.close();
    assert_eq!(sink.flush_step(), FlushStep::Done);
    assert_eq!(sink.check_ready(), Err(SendError::Shutdown));
    assert_eq!(sink.check_send(&Bytes::from_static(b"12345"), &remote), Err(SendError::Shutdown));
}

#[test]
fn writes_are_split() {
    let cfg = Cfg { io_write_size: 100, ..Cfg::default() };
    assert_eq!(write_len(&cfg, &ExchangedCfg { recv_buffer: 1000 }, 500), 100);
    assert_eq!(write_len(&cfg, &ExchangedCfg { recv_buffer: 1000 }, 50), 50);
    assert_eq!(write_len(&cfg, &ExchangedCfg { recv_buffer: 30 }, 500), 30);
}

#[test]
fn end_of_reception_is_reported() {
    let data = Bytes::from_static(b"data");
    assert_eq!(recv_outcome(Some(data.clone()), Some(RecvError::TaskTerminated)), Ok(Some(data)));
    assert_eq!(recv_outcome(None, None), Ok(None));
    assert_eq!(recv_outcome(None, Some(RecvError::AllLinksFailed)), Err(RecvError::AllLinksFailed));
}

#[test]
fn packets_are_read_in_parts() {
    let mut buffer = ReadBuffer { buf: Bytes::new() };
    assert!(buffer.needs_packet());
    buffer.fill(Bytes::from_static(b"abcdef"));
    assert!(!buffer.needs_packet());
    assert_eq!(&buffer.read(4)[..], b"abcd");
    assert_eq!(&buffer.read(4)[..], b"ef");
    assert!(buffer.needs_packet());
    assert_eq!(buffer.take(), None);
    buffer.fill(Bytes::from_static(b"ghi"));
    assert_eq!(buffer.take(), Some(Bytes::from_static(b"ghi")));
    assert!(buffer.needs_packet());
}

#[test]
fn channel_errors_are_described() {
    assert_eq!(SendError::Closed.text(), "closed by remote endpoint");
    assert_eq!(SendError::Dropped.text(), "dropped by remote endpoint");
    assert_eq!(SendError::Shutdown.text(), "connection was shut down or closed locally");
    assert_eq!(SendError::DataTooBig.text(), "data too big for remote endpoint");
    assert_eq!(SendError::AllLinksFailed.text(), "all links failed");
    assert_eq!(SendError::TaskTerminated.text(), "task terminated");
    assert_eq!(SendError::Dropped.kind(), ErrorKind::ConnectionReset);
    assert_eq!(SendError::Shutdown.kind(), ErrorKind::BrokenPipe);
    assert_eq!(SendError::DataTooBig.kind(), ErrorKind::InvalidData);
    assert_eq!(SendError::AllLinksFailed.kind(), ErrorKind::ConnectionAborted);
    assert_eq!(RecvError::AllLinksFailed.text(), "all links failed");
    assert_eq!(RecvError::AllLinksFailed.kind(), ErrorKind::ConnectionAborted);
}

#[test]
fn message_can_be_peeked_at() {
    let mut rx: PeekableReceiver<u32> = PeekableReceiver::new();
    assert!(rx.needs_message());
    rx.peek(Some(5));
    assert!(!rx.needs_message());
    assert_eq!(rx.peeked, Some(5));
    assert_eq!(rx.recv(None), Some(5));
    assert_eq!(rx.recv(Some(6)), Some(6));
    assert_eq!(rx.recv(None), None);
    assert_eq!(rx.try_recv(Err(TryRecvError::Empty)), Err(TryRecvError::Empty));
    assert_eq!(rx.try_recv(Ok(7)), Ok(7));
    assert_eq!(rx.try_peek(Err(TryRecvError::Disconnected)), Err(TryRecvError::Disconnected));
    assert_eq!(rx.try_peek(Ok(8)), Ok(()));
    assert_eq!(rx.try_peek(Err(TryRecvError::Empty)), Ok(()));
    assert_eq!(rx.peeked, Some(8));
    assert_eq!(TryRecvIfError::from(TryRecvError::Empty), TryRecvIfError::Empty);
}

#[test]
fn message_is_received_conditionally() {
    let mut rx: PeekableReceiver<u32> = PeekableReceiver::new();
    rx.peek(Some(5));
    assert_eq!(rx.recv_if(|n| *n > 5), Err(RecvIfError::NoMatch));
    assert_eq!(rx.recv_if(|n| *n == 5), Ok(5));
    assert_eq!(rx.recv_if(|_| true), Err(RecvIfError::Disconnected));
    assert_eq!(rx.try_recv_if(Ok(9), |n| *n > 9), Err(TryRecvIfError::NoMatch));
    assert_eq!(rx.peeked, Some(9));
    assert_eq!(rx.try_recv_if(Err(TryRecvError::Empty), |n| *n == 9), Ok(9));
    assert_eq!(rx.try_recv_if(Err(TryRecvError::Empty), |_| true), Err(TryRecvIfError::Empty));
    assert_eq!(rx.try_recv_if(Err(TryRecvError::Disconnected), |_| true), Err(TryRecvIfError::Disconnected));
}

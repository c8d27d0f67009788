//! Peekable message queue.

use vstd::prelude::*;
use vstd::std_specs::convert::FromSpecImpl;

verus! {

/// Receiving end of a message queue that allows peeking at the next message.
///
/// Messages are obtained from the queue by the owner of the queue, which hands
/// the outcome of each attempt to this.
#[derive(Debug)]
pub struct PeekableReceiver<T> {
    /// Message that was obtained from the queue and has not been received yet.
    pub peeked: Option<T>,
}

/// Receive if condition fulfilled error.
#[derive(Debug, Clone, Copy, PartialEq, Eq, Structural)]
pub enum RecvIfError {
    /// Sender has been closed.
    Disconnected,
    /// Condition is not fulfilled.
    NoMatch,
}

/// Receive if condition fulfilled error.
#[derive(Debug, Clone, Copy, PartialEq, Eq, Structural)]
pub enum TryRecvIfError {
    /// No message is present.
    Empty,
    /// Sender has been closed.
    Disconnected,
    /// Condition is not fulfilled.
    NoMatch,
}

/// Reason why no message could be obtained from the queue immediately.
#[derive(Debug, Clone, Copy, PartialEq, Eq, Structural)]
pub enum TryRecvError {
    /// No message is present.
    Empty,
    /// Sender has been closed.
    Disconnected,
}

impl TryRecvError {
    /// The corresponding error of a conditional reception.
    pub open spec fn conditional(self) -> TryRecvIfError {
        match self {
            TryRecvError::Empty => TryRecvIfError::Empty,
            TryRecvError::Disconnected => TryRecvIfError::Disconnected,
        }
    }
}

impl FromSpecImpl<TryRecvError> for TryRecvIfError {
    open spec fn obeys_from_spec() -> bool {
        true
    }

    open spec fn from_spec(err: TryRecvError) -> TryRecvIfError {
        err.conditional()
    }
}

impl From<TryRecvError> for TryRecvIfError {
    fn from(err: TryRecvError) -> (r: Self) {
        match err {
            TryRecvError::Empty => TryRecvIfError::Empty,
            TryRecvError::Disconnected => TryRecvIfError::Disconnected,
        }
    }
}

impl<T> PeekableReceiver<T> {
    /// Creates a new peekable receiver.
    pub fn new() -> (r: Self)
        ensures
            r.peeked is None,
    {
        PeekableReceiver { peeked: None }
    }

    /// Whether a message must be obtained from the queue to peek or receive.
    pub fn needs_message(&self) -> (r: bool)
        ensures
            r == (self.peeked is None),
    {
        self.peeked.is_none()
    }

    /// Receive next message.
    ///
    /// If no message has been peeked at, `obtained` is the outcome of waiting for a message from the queue;
    /// otherwise it must be `None`.
    pub fn recv(&mut self, obtained: Option<T>) -> (r: Option<T>)
        requires
            old(self).peeked is Some ==> obtained is None,
        ensures
            r == if old(self).peeked is Some {
                old(self).peeked
            } else {
                obtained
            },
            final(self).peeked is None,
    {
        match self.peeked.take() {
            Some(msg) => Some(msg),
            None => obtained,
        }
    }

    /// Receives next message, if one is immediately available.
    ///
    /// If no message has been peeked at, `obtained` is the outcome of trying to obtain a message from the queue;
    /// otherwise it must not hold a message.
    pub fn try_recv(&mut self, obtained: Result<T, TryRecvError>) -> (r: Result<T, TryRecvError>)
        requires
            old(self).peeked is Some ==> obtained is Err,
        ensures
            r == match old(self).peeked {
                Some(msg) => Ok(msg),
                None => obtained,
            },
            final(self).peeked is None,
    {
        match self.peeked.take() {
            Some(msg) => Ok(msg),
            None => obtained,
        }
    }

    /// Stores the outcome of waiting for a message from the queue, so that it can be peeked at.
    ///
    /// A message that has already been peeked at stays.
    pub fn peek(&mut self, obtained: Option<T>)
        requires
            old(self).peeked is Some ==> obtained is None,
        ensures
            final(self).peeked == if old(self).peeked is Some {
                old(self).peeked
            } else {
                obtained
            },
    {
        if self.peeked.is_none() {
            self.peeked = obtained;
        }
    }

    /// Peeks at the next message, if one is available.
    ///
    /// If no message has been peeked at, `obtained` is the outcome of trying to obtain a message from the queue;
    /// otherwise it must not hold a message.
    pub fn try_peek(&mut self, obtained: Result<T, TryRecvError>) -> (r: Result<(), TryRecvError>)
        requires
            old(self).peeked is Some ==> obtained is Err,
        ensures
            r is Ok <==> final(self).peeked is Some,
            old(self).peeked is Some ==> final(self).peeked == old(self).peeked,
            old(self).peeked is None ==> match obtained {
                Ok(msg) => final(self).peeked == Some(msg),
                Err(err) => r == Err::<(), TryRecvError>(err),
            },
    {
        if self.peeked.is_none() {
            match obtained {
                Ok(msg) => {
                    self.peeked = Some(msg);
                },
                Err(err) => return Err(err),
            }
        }
        Ok(())
    }

    /// Receives the next messages if the condition is fulfilled.
    ///
    /// If no message has been peeked at, the queue has been waited for without obtaining a message,
    /// i.e. its sender has been closed.
    pub fn recv_if(&mut self, cond: impl FnOnce(&T) -> bool) -> (r: Result<T, RecvIfError>)
        requires
            old(self).peeked matches Some(msg) ==> call_requires(cond, (&msg,)),
        ensures
            match r {
                Ok(msg) => {
                    &&& old(self).peeked == Some(msg)
                    &&& call_ensures(cond, (&msg,), true)
                    &&& final(self).peeked is None
                },
                Err(RecvIfError::NoMatch) => {
                    &&& old(self).peeked is Some
                    &&& call_ensures(cond, (&old(self).peeked->0,), false)
                    &&& final(self).peeked == old(self).peeked
                },
                Err(RecvIfError::Disconnected) => old(self).peeked is None && final(self).peeked is None,
            },
    {
        match self.peeked.take() {
            Some(msg) => if cond(&msg) {
                Ok(msg)
            } else {
                self.peeked = Some(msg);
                Err(RecvIfError::NoMatch)
            },
            None => Err(RecvIfError::Disconnected),
        }
    }

    /// Receives the next messages if it is immediately available and the condition is fulfilled.
    ///
    /// If no message has been peeked at, `obtained` is the outcome of trying to obtain a message from the queue;
    /// otherwise it must not hold a message.
    pub fn try_recv_if(
        &mut self,
        obtained: Result<T, TryRecvError>,
        cond: impl FnOnce(&T) -> bool,
    ) -> (r: Result<T, TryRecvIfError>)
        requires
            old(self).peeked is Some ==> obtained is Err,
            old(self).peeked matches Some(msg) ==> call_requires(cond, (&msg,)),
            obtained matches Ok(msg) ==> call_requires(cond, (&msg,)),
        ensures
            ({
                let next: Result<T, TryRecvError> = match old(self).peeked {
                    Some(msg) => Ok(msg),
                    None => obtained,
                };
                match r {
                    Ok(msg) => {
                        &&& next == Ok::<T, TryRecvError>(msg)
                        &&& call_ensures(cond, (&msg,), true)
                        &&& final(self).peeked is None
                    },
                    Err(TryRecvIfError::NoMatch) => {
                        &&& next is Ok
                        &&& call_ensures(cond, (&next->Ok_0,), false)
                        &&& final(self).peeked == Some(next->Ok_0)
                    },
                    Err(err) => {
                        &&& next is Err
                        &&& err == next->Err_0.conditional()
                        &&& final(self).peeked is None
                    },
                }
            }),
    {
        let next: Result<T, TryRecvError> = match self.peeked.take() {
            Some(msg) => Ok(msg),
            None => obtained,
        };
        match next {
            Ok(msg) => if cond(&msg) {
                Ok(msg)
            } else {
                self.peeked = Some(msg);
                Err(TryRecvIfError::NoMatch)
            },
            Err(err) => Err(TryRecvIfError::from(err)),
        }
    }
}

} // verus!

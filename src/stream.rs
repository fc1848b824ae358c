//! The state of a byte stream carried over a message transport (a WebSocket): a
//! queue of received bytes, a closed latch and a latched error. The runtime feeds it
//! transport events and asks it what a read, write or close should do; wakers and
//! the transport itself stay with the runtime.
use crate::bytes::copy_range;
use vstd::prelude::*;
use vstd::string::StringExecFns;

verus! {

/// Above this many bytes buffered by the transport, writes wait.
pub const MAX_BUFFERED_AMOUNT: u32 = 65536;

/// What the stream holds.
pub struct StreamView {
    pub rx_queue: Seq<u8>,
    pub closed: bool,
    pub error: Option<Seq<char>>,
}

/// The outcome of a read.
#[derive(Debug, PartialEq, Eq)]
pub enum ReadPoll {
    /// Bytes taken from the front of the queue.
    Ready(Vec<u8>),
    /// The stream is closed and drained.
    Eof,
    /// Nothing yet: the reader waits for the next message.
    Pending,
    /// The transport failed.
    Failed(String),
}

/// What a write should do.
#[derive(Debug, Clone, Copy, PartialEq, Eq, Structural)]
pub enum WritePoll {
    /// Hand the bytes to the transport as one message.
    Send,
    /// Too much is buffered: the writer waits.
    Pending,
    /// The transport failed.
    Failed,
    /// The stream is closed.
    BrokenPipe,
}

pub struct StreamState {
    rx_queue: Vec<u8>,
    closed: bool,
    error: Option<String>,
}

impl View for StreamState {
    type V = StreamView;

    closed spec fn view(&self) -> StreamView {
        StreamView {
            rx_queue: self.rx_queue@,
            closed: self.closed,
            error: match self.error {
                None => None,
                Some(e) => Some(e@),
            },
        }
    }
}

impl StreamState {
    /// An open stream with nothing received.
    pub fn new() -> (r: StreamState)
        ensures
            r@.rx_queue == Seq::<u8>::empty(),
            !r@.closed,
            r@.error is None,
    {
        StreamState { rx_queue: Vec::new(), closed: false, error: None }
    }

    /// A binary message arrived: its bytes join the queue.
    pub fn on_message(&mut self, data: &[u8])
        ensures
            final(self)@.rx_queue == old(self)@.rx_queue + data@,
            final(self)@.closed == old(self)@.closed,
            final(self)@.error == old(self)@.error,
    {
        self.rx_queue.extend_from_slice(data);
    }

    /// The transport reported an error: it is latched and the stream is closed.
    pub fn on_error(&mut self)
        ensures
            final(self)@.rx_queue == old(self)@.rx_queue,
            final(self)@.closed,
            final(self)@.error == Some("WebSocket error"@),
    {
        self.error = Some(String::from_str("WebSocket error"));
        self.closed = true;
    }

    /// The transport closed.
    pub fn on_close(&mut self)
        ensures
            final(self)@.rx_queue == old(self)@.rx_queue,
            final(self)@.closed,
            final(self)@.error == old(self)@.error,
    {
        self.closed = true;
    }

    /// The latched error, if any.
    pub fn check_error(&self) -> (r: Result<(), String>)
        ensures
            self@.error is None ==> r is Ok,
            self@.error matches Some(e) ==> (r matches Err(s) && s@ == e),
    {
        match &self.error {
            Some(e) => Err(e.clone()),
            None => Ok(()),
        }
    }

    /// A read of at most `max` bytes: an error first, then end of stream once closed
    /// and drained, then waiting while empty, else bytes from the front of the queue.
    pub fn poll_read(&mut self, max: usize) -> (r: ReadPoll)
        ensures
            old(self)@.error matches Some(e) ==> (r matches ReadPoll::Failed(s) && s@ == e && final(self)@
                == old(self)@),
            old(self)@.error is None && old(self)@.rx_queue.len() == 0 && old(self)@.closed ==> r
                == ReadPoll::Eof && final(self)@ == old(self)@,
            old(self)@.error is None && old(self)@.rx_queue.len() == 0 && !old(self)@.closed ==> r
                == ReadPoll::Pending && final(self)@ == old(self)@,
            old(self)@.error is None && old(self)@.rx_queue.len() > 0 ==> {
                let n = if max < old(self)@.rx_queue.len() {
                    max as int
                } else {
                    old(self)@.rx_queue.len() as int
                };
                &&& r matches ReadPoll::Ready(b) && b@ == old(self)@.rx_queue.subrange(0, n)
                &&& final(self)@.rx_queue == old(self)@.rx_queue.subrange(n, old(self)@.rx_queue.len() as int)
                &&& final(self)@.closed == old(self)@.closed
                &&& final(self)@.error == old(self)@.error
            },
    {
        match &self.error {
            Some(e) => {
                return ReadPoll::Failed(e.clone());
            },
            None => {},
        }
        let len = self.rx_queue.len();
        if len == 0 {
            if self.closed {
                return ReadPoll::Eof;
            }
            return ReadPoll::Pending;
        }
        let n = if max < len {
            max
        } else {
            len
        };
        let taken = copy_range(self.rx_queue.as_slice(), 0, n);
        let rest = copy_range(self.rx_queue.as_slice(), n, len);
        self.rx_queue = rest;
        ReadPoll::Ready(taken)
    }

    /// What a write should do, given how many bytes the transport has buffered.
    pub fn poll_write(&self, buffered_amount: u32) -> (r: WritePoll)
        ensures
            self@.error is Some ==> r == WritePoll::Failed,
            self@.error is None && self@.closed ==> r == WritePoll::BrokenPipe,
            self@.error is None && !self@.closed && buffered_amount > MAX_BUFFERED_AMOUNT ==> r
                == WritePoll::Pending,
            self@.error is None && !self@.closed && buffered_amount <= MAX_BUFFERED_AMOUNT ==> r
                == WritePoll::Send,
    {
        if self.error.is_some() {
            WritePoll::Failed
        } else if self.closed {
            WritePoll::BrokenPipe
        } else if buffered_amount > MAX_BUFFERED_AMOUNT {
            WritePoll::Pending
        } else {
            WritePoll::Send
        }
    }

    /// Closes the stream; returns whether the transport must be closed now (only the
    /// first close does so). Later reads see the end, later writes a broken pipe.
    pub fn poll_close(&mut self) -> (r: bool)
        ensures
            r == !old(self)@.closed,
            final(self)@.closed,
            final(self)@.rx_queue == old(self)@.rx_queue,
            final(self)@.error == old(self)@.error,
    {
        if !self.closed {
            self.closed = true;
            true
        } else {
            false
        }
    }
}

} // verus!

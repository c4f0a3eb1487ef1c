//! Writing CRLF-terminated lines to a buffered byte sink.

use vstd::prelude::*;

use crate::errors::{IoError, LineError};
use crate::framing::crlf;

verus! {

/// A byte-consuming sink: it queues appended bytes in a write window and
/// delivers them to an underlying transport when flushed, possibly blocking
/// to do so.
pub trait ByteSink {
    /// The bytes already delivered to the underlying transport.
    spec fn transmitted(&self) -> Seq<u8>;

    /// The bytes appended but not yet flushed.
    spec fn queued(&self) -> Seq<u8>;

    /// True when appending to and flushing this sink can no longer fail.
    spec fn reliable(&self) -> bool;

    /// Append `bytes` at the end of the write window, delivering nothing
    /// yet.
    fn append_bytes(&mut self, bytes: &[u8]) -> (r: Result<(), IoError>)
        ensures
            old(self).reliable() ==> r is Ok && final(self).reliable(),
            r is Ok ==> final(self).transmitted() == old(self).transmitted()
                && final(self).queued() == old(self).queued() + bytes@,
            r is Err ==> !old(self).reliable(),
    ;

    /// Deliver the whole write window to the underlying transport.
    fn flush(&mut self) -> (r: Result<(), IoError>)
        ensures
            old(self).reliable() ==> r is Ok && final(self).reliable(),
            r is Ok ==> final(self).transmitted() == old(self).transmitted()
                + old(self).queued() && final(self).queued() == Seq::<u8>::empty(),
            r is Err ==> !old(self).reliable(),
    ;
}

/// An in-memory byte sink: flushed bytes accumulate in a buffer. It never
/// fails.
pub struct MemSink {
    sent: Vec<u8>,
    pending: Vec<u8>,
}

impl MemSink {
    /// An empty sink: nothing delivered, nothing queued.
    pub fn new() -> (r: MemSink)
        ensures
            r.transmitted() == Seq::<u8>::empty(),
            r.queued() == Seq::<u8>::empty(),
            r.reliable(),
    {
        let r = MemSink { sent: Vec::new(), pending: Vec::new() };
        proof {
            assert(r.transmitted() =~= Seq::<u8>::empty());
            assert(r.queued() =~= Seq::<u8>::empty());
        }
        r
    }

    /// The bytes delivered so far, handing the buffer over.
    pub fn into_bytes(self) -> (r: Vec<u8>)
        ensures
            r@ == self.transmitted(),
    {
        self.sent
    }
}

impl ByteSink for MemSink {
    closed spec fn transmitted(&self) -> Seq<u8> {
        self.sent@
    }

    closed spec fn queued(&self) -> Seq<u8> {
        self.pending@
    }

    closed spec fn reliable(&self) -> bool {
        true
    }

    fn append_bytes(&mut self, bytes: &[u8]) -> (r: Result<(), IoError>) {
        self.pending.extend_from_slice(bytes);
        Ok(())
    }

    fn flush(&mut self) -> (r: Result<(), IoError>) {
        self.sent.append(&mut self.pending);
        proof {
            assert(self.queued() =~= Seq::<u8>::empty());
        }
        Ok(())
    }
}

/// Writing one CRLF-terminated line at a time to a buffered stream.
pub trait WriteCrlfLine {
    /// The bytes already delivered to the underlying transport.
    spec fn transmitted(&self) -> Seq<u8>;

    /// The bytes queued ahead of the next line.
    spec fn queued(&self) -> Seq<u8>;

    /// True when the underlying transport can no longer fail.
    spec fn reliable(&self) -> bool;

    /// Write `payload` verbatim, then the CR LF terminator, then flush, so
    /// that the line is delivered before the call returns. The payload is
    /// not inspected: embedded CR or LF bytes are the caller's own framing
    /// to break.
    fn write_crlf_line(&mut self, payload: &[u8]) -> (r: Result<(), LineError>)
        ensures
            old(self).reliable() ==> r is Ok && final(self).reliable(),
            r is Ok ==> final(self).transmitted() == old(self).transmitted()
                + old(self).queued() + payload@ + crlf() && final(self).queued()
                == Seq::<u8>::empty(),
            r is Err ==> r == Err::<(), LineError>(LineError::Io) && !old(self).reliable(),
    ;
}

/// A line writer over a byte sink.
pub struct LineWriter<K: ByteSink> {
    sink: K,
}

impl<K: ByteSink> LineWriter<K> {
    /// A writer that frames lines onto `sink`.
    pub fn new(sink: K) -> (r: LineWriter<K>)
        ensures
            r.transmitted() == sink.transmitted(),
            r.queued() == sink.queued(),
            r.reliable() == sink.reliable(),
    {
        LineWriter { sink }
    }

    /// The sink this writer was framing lines onto.
    pub fn into_sink(self) -> (r: K)
        ensures
            r.transmitted() == self.transmitted(),
            r.queued() == self.queued(),
            r.reliable() == self.reliable(),
    {
        self.sink
    }
}

impl<K: ByteSink> WriteCrlfLine for LineWriter<K> {
    closed spec fn transmitted(&self) -> Seq<u8> {
        self.sink.transmitted()
    }

    closed spec fn queued(&self) -> Seq<u8> {
        self.sink.queued()
    }

    closed spec fn reliable(&self) -> bool {
        self.sink.reliable()
    }

    fn write_crlf_line(&mut self, payload: &[u8]) -> (r: Result<(), LineError>) {
        let ghost t0 = old(self).transmitted();
        let ghost q0 = old(self).queued();
        match self.sink.append_bytes(payload) {
            Err(_) => {
                return Err(LineError::Io);
            },
            Ok(_) => {},
        }
        let mut terminator: Vec<u8> = Vec::new();
        terminator.push(13u8);
        terminator.push(10u8);
        proof {
            assert(terminator@ =~= crlf());
        }
        match self.sink.append_bytes(terminator.as_slice()) {
            Err(_) => {
                return Err(LineError::Io);
            },
            Ok(_) => {},
        }
        match self.sink.flush() {
            Err(_) => {
                return Err(LineError::Io);
            },
            Ok(_) => {},
        }
        proof {
            assert(self.sink.transmitted() =~= t0 + q0 + payload@ + crlf());
        }
        Ok(())
    }
}

} // verus!

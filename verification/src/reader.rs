//! Reading CRLF-terminated lines from a buffered byte source.

use vstd::prelude::*;
use vstd::slice::slice_subrange;
use vstd::string::StringExecFns;
use vstd::utf8::{decode_utf8, valid_utf8};

use crate::errors::{IoError, LineError};
use crate::framing::{
    consumed_len, is_crlf_at, lemma_consumed_bounds, lemma_crlf_in_prefix,
    lemma_line_len_at_first_crlf, lemma_line_len_no_crlf, lemma_skip_concat, line_content,
    rest_after_line,
};
use crate::text::decode_text;

verus! {

/// A byte-producing source: it hands out the bytes of an underlying stream
/// in chunks, front to back, possibly blocking to do so.
pub trait ByteSource {
    /// The bytes the source has yet to hand out.
    spec fn remaining(&self) -> Seq<u8>;

    /// True when fetching from this source can no longer fail.
    spec fn reliable(&self) -> bool;

    /// Fetch the next chunk of bytes. The chunk is a front part of the
    /// remaining bytes, which it consumes; an empty chunk means the source
    /// is exhausted. On failure the remaining bytes are unchanged.
    fn fetch_chunk(&mut self) -> (r: Result<Vec<u8>, IoError>)
        ensures
            old(self).reliable() ==> r is Ok && final(self).reliable(),
            match r {
                Ok(chunk) => {
                    &&& chunk@.len() <= old(self).remaining().len()
                    &&& chunk@ == old(self).remaining().take(chunk@.len() as int)
                    &&& final(self).remaining() == old(self).remaining().skip(chunk@.len() as int)
                    &&& (chunk@.len() == 0 ==> old(self).remaining().len() == 0)
                },
                Err(_) => {
                    &&& final(self).remaining() == old(self).remaining()
                    &&& !old(self).reliable()
                },
            },
    ;
}

/// An in-memory byte source: a buffer handed out front to back. It never
/// fails.
pub struct MemSource {
    data: Vec<u8>,
    pos: usize,
    step: usize,
}

impl MemSource {
    #[verifier::type_invariant]
    spec fn bounds_inv(self) -> bool {
        &&& self.pos <= self.data@.len()
        &&& self.step >= 1
    }

    /// A source over `data` that hands out everything still unread in one
    /// fetch.
    pub fn new(data: Vec<u8>) -> (r: MemSource)
        ensures
            r.remaining() == data@,
            r.reliable(),
    {
        let ghost d = data@;
        let r = MemSource { data, pos: 0, step: usize::MAX };
        proof {
            assert(r.remaining() =~= d);
        }
        r
    }

    /// A source over `data` that hands out at most `granularity` bytes per
    /// fetch; a granularity of zero is raised to one. A small granularity
    /// exercises lines that straddle several fetches.
    pub fn with_granularity(data: Vec<u8>, granularity: usize) -> (r: MemSource)
        ensures
            r.remaining() == data@,
            r.reliable(),
    {
        let step = if granularity < 1 {
            1
        } else {
            granularity
        };
        let ghost d = data@;
        let r = MemSource { data, pos: 0, step };
        proof {
            assert(r.remaining() =~= d);
        }
        r
    }
}

impl ByteSource for MemSource {
    closed spec fn remaining(&self) -> Seq<u8> {
        if self.pos <= self.data@.len() {
            self.data@.skip(self.pos as int)
        } else {
            Seq::<u8>::empty()
        }
    }

    closed spec fn reliable(&self) -> bool {
        true
    }

    fn fetch_chunk(&mut self) -> (r: Result<Vec<u8>, IoError>) {
        proof {
            use_type_invariant(&*self);
        }
        let ghost rem0 = self.remaining();
        let left = self.data.len() - self.pos;
        let n = if left < self.step {
            left
        } else {
            self.step
        };
        let mut chunk: Vec<u8> = Vec::new();
        let mut k: usize = 0;
        while k < n
            invariant
                k <= n,
                n <= self.data@.len() - self.pos,
                self.pos + n <= self.data@.len(),
                self.data@.len() <= usize::MAX,
                chunk@ == self.data@.subrange(self.pos as int, self.pos as int + k as int),
            decreases n - k,
        {
            let b = self.data[self.pos + k];
            chunk.push(b);
            proof {
                assert(self.data@.subrange(self.pos as int, self.pos as int + k as int + 1)
                    =~= self.data@.subrange(self.pos as int, self.pos as int + k as int).push(b));
            }
            k += 1;
        }
        self.pos = self.pos + n;
        proof {
            assert(chunk@ =~= rem0.take(n as int));
            assert(self.remaining() =~= rem0.skip(n as int));
        }
        Ok(chunk)
    }
}

/// Reading one CRLF-terminated line at a time from a buffered stream.
pub trait ReadCrlfLine {
    /// The bytes not yet consumed: buffered bytes first, then the source's.
    spec fn stream(&self) -> Seq<u8>;

    /// True when the underlying transport can no longer fail.
    spec fn reliable(&self) -> bool;

    /// Read the next line: scan for the first CR LF pair, fetching more
    /// bytes as long as none is in sight and the source is not exhausted;
    /// decode the content as UTF-8, append it onto `buffer` (which is not
    /// cleared first), and consume the content plus the terminator when one
    /// was found. The result counts the bytes consumed; zero means the
    /// stream was already exhausted. Content that is not valid UTF-8 fails
    /// the call and consumes nothing.
    fn read_crlf_line(&mut self, buffer: &mut String) -> (r: Result<usize, LineError>)
        ensures
            old(self).reliable() ==> final(self).reliable(),
            old(self).reliable() && valid_utf8(line_content(old(self).stream())) ==> r is Ok,
            match r {
                Ok(n) => {
                    &&& n == consumed_len(old(self).stream())
                    &&& (n == 0 <==> old(self).stream().len() == 0)
                    &&& valid_utf8(line_content(old(self).stream()))
                    &&& final(buffer)@ == old(buffer)@ + decode_utf8(
                        line_content(old(self).stream()),
                    )
                    &&& final(self).stream() == rest_after_line(old(self).stream())
                },
                Err(e) => {
                    &&& final(buffer)@ == old(buffer)@
                    &&& final(self).stream() == old(self).stream()
                    &&& (e is Encoding ==> !valid_utf8(line_content(old(self).stream())))
                    &&& (e is Io ==> !old(self).reliable())
                },
            },
    ;
}

/// A line reader over a byte source, keeping fetched, not-yet-consumed
/// bytes in an internal window.
pub struct LineReader<S: ByteSource> {
    source: S,
    window: Vec<u8>,
}

impl<S: ByteSource> LineReader<S> {
    /// A reader that serves the lines of `source`.
    pub fn new(source: S) -> (r: LineReader<S>)
        ensures
            r.stream() == source.remaining(),
            r.reliable() == source.reliable(),
    {
        let ghost rem = source.remaining();
        let r = LineReader { source, window: Vec::new() };
        proof {
            assert(r.stream() =~= rem);
        }
        r
    }
}

impl<S: ByteSource> ReadCrlfLine for LineReader<S> {
    closed spec fn stream(&self) -> Seq<u8> {
        self.window@ + self.source.remaining()
    }

    closed spec fn reliable(&self) -> bool {
        self.source.reliable()
    }

    fn read_crlf_line(&mut self, buffer: &mut String) -> (r: Result<usize, LineError>) {
        let ghost s0 = old(self).stream();
        let ghost r0 = old(self).reliable();
        let mut i: usize = 0;
        let mut found: bool = false;
        loop
            invariant_except_break
                !found,
            invariant
                s0 == old(self).stream(),
                r0 == old(self).reliable(),
                self.stream() == s0,
                r0 ==> self.source.reliable(),
                i <= self.window@.len(),
                self.window@.len() > 0 ==> i < self.window@.len(),
                self.window@.len() == 0 ==> i == 0,
                forall|j: int| 0 <= j < i ==> !is_crlf_at(self.window@, j),
            ensures
                self.stream() == s0,
                r0 ==> self.source.reliable(),
                i <= self.window@.len(),
                forall|j: int| 0 <= j < i ==> !is_crlf_at(self.window@, j),
                found ==> i + 1 < self.window@.len() && is_crlf_at(self.window@, i as int),
                !found ==> self.source.remaining().len() == 0 && (forall|j: int|
                    !is_crlf_at(self.window@, j)),
            decreases self.source.remaining().len(), self.window@.len() - i,
        {
            let wlen = self.window.len();
            if i + 1 < wlen {
                if self.window[i] == 13u8 && self.window[i + 1] == 10u8 {
                    found = true;
                    break ;
                }
                i += 1;
            } else {
                let ghost prev_window = self.window@;
                let ghost prev_rem = self.source.remaining();
                let fetched = self.source.fetch_chunk();
                match fetched {
                    Err(_) => {
                        return Err(LineError::Io);
                    },
                    Ok(chunk) => {
                        if chunk.len() == 0 {
                            proof {
                                assert(self.source.remaining() =~= prev_rem);
                                // the scan already stood at the last byte, so
                                // no pair fits anywhere in the window
                                assert forall|j: int| !is_crlf_at(self.window@, j) by {
                                    if 0 <= j && j + 1 < self.window@.len() {
                                        assert(j < i);
                                    }
                                }
                            }
                            break ;
                        }
                        let mut tail = chunk;
                        self.window.append(&mut tail);
                        proof {
                            assert(self.window@ + self.source.remaining() =~= prev_window
                                + prev_rem);
                            assert forall|j: int| 0 <= j < i implies !is_crlf_at(
                                self.window@,
                                j,
                            ) by {
                                assert(self.window@[j] == prev_window[j]);
                                assert(self.window@[j + 1] == prev_window[j + 1]);
                                assert(!is_crlf_at(prev_window, j));
                            }
                        }
                    },
                }
            }
        }
        let wlen = self.window.len();
        let content_len = if found {
            i
        } else {
            wlen
        };
        let consumed = if found {
            i + 2
        } else {
            wlen
        };
        proof {
            let w = self.window@;
            let rem = self.source.remaining();
            if found {
                lemma_crlf_in_prefix(w, rem, i as int);
                assert forall|j: int| 0 <= j < i implies !is_crlf_at(s0, j) by {
                    lemma_crlf_in_prefix(w, rem, j);
                }
                lemma_line_len_at_first_crlf(s0, i as int);
            } else {
                assert(s0 =~= w);
                lemma_line_len_no_crlf(s0);
            }
            assert(line_content(s0) =~= w.subrange(0, content_len as int));
            lemma_consumed_bounds(s0);
        }
        let content = slice_subrange(self.window.as_slice(), 0, content_len);
        match decode_text(content) {
            None => Err(LineError::Encoding),
            Some(t) => {
                buffer.append(t.as_str());
                let ghost prev_window = self.window@;
                let ghost rem = self.source.remaining();
                let tail = self.window.split_off(consumed);
                self.window = tail;
                proof {
                    lemma_skip_concat(prev_window, rem, consumed as int);
                    assert(self.window@ =~= prev_window.skip(consumed as int));
                    assert(self.stream() == rest_after_line(s0));
                }
                Ok(consumed)
            },
        }
    }
}

} // verus!

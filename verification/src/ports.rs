//! Ports between the multiplexer and its sockets.
//!
//! Every I/O attempt is modelled as a three-way outcome: data delivered,
//! end-of-stream, or suspend-and-retry-later (would-block).  The multiplexer
//! drives any `ByteSource`/`ByteSink` pair; the scripted implementations here
//! replay a fixed plan, so the drain discipline can be exercised without a
//! socket.

use vstd::prelude::*;

verus! {

/// What one read attempt produced: a chunk of bytes, end-of-stream, or a
/// would-block suspension.
#[derive(Debug)]
pub enum ReadOutcome {
    Data(Vec<u8>),
    Eof,
    WouldBlock,
}

/// What one write attempt produced: a count of bytes taken, or a would-block
/// suspension.
#[derive(Debug)]
pub enum WriteOutcome {
    Wrote(usize),
    WouldBlock,
}

/// A readable socket, seen through its readiness-driven read attempts.
///
/// `delivered()` is the whole byte stream the source has handed out so far;
/// `at_eof()` records whether it has reported end-of-stream; `fuel()` bounds
/// how many more chunks it can deliver before it must suspend, so that a
/// drain-to-exhaustion loop terminates.
pub trait ByteSource {
    open spec fn delivered(&self) -> Seq<u8> {
        Seq::empty()
    }

    open spec fn at_eof(&self) -> bool {
        false
    }

    open spec fn fuel(&self) -> nat {
        0
    }

    /// One non-blocking read attempt.
    fn read_step(&mut self) -> (r: ReadOutcome)
        ensures
            match r {
                ReadOutcome::Data(chunk) => final(self).delivered() == old(self).delivered()
                    + chunk@ && final(self).at_eof() == old(self).at_eof() && final(self).fuel()
                    < old(self).fuel(),
                ReadOutcome::Eof => final(self).delivered() == old(self).delivered()
                    && final(self).at_eof(),
                ReadOutcome::WouldBlock => final(self).delivered() == old(self).delivered()
                    && final(self).at_eof() == old(self).at_eof(),
            },
    ;
}

/// A writable socket, seen through its readiness-driven write attempts.
///
/// `accepted()` is the whole byte stream the sink has taken so far.  A write
/// attempt either takes a non-empty prefix of the offered chunk or suspends.
pub trait ByteSink {
    open spec fn accepted(&self) -> Seq<u8> {
        Seq::empty()
    }

    /// One non-blocking write attempt on a non-empty chunk.
    fn write_step(&mut self, buf: &Vec<u8>) -> (r: WriteOutcome)
        requires
            buf@.len() > 0,
        ensures
            match r {
                WriteOutcome::Wrote(n) => 1 <= n <= buf@.len() && final(self).accepted()
                    == old(self).accepted() + buf@.take(n as int),
                WriteOutcome::WouldBlock => final(self).accepted() == old(self).accepted(),
            },
    ;
}

/// A source that replays a fixed script of read outcomes, front first.
pub struct ScriptedSource {
    script: Vec<ReadOutcome>,
    handed: Ghost<Seq<u8>>,
    seen_eof: Ghost<bool>,
}

impl ScriptedSource {
    pub fn new(script: Vec<ReadOutcome>) -> (r: ScriptedSource)
        ensures
            r.delivered() == Seq::<u8>::empty(),
            !r.at_eof(),
    {
        ScriptedSource { script, handed: Ghost(Seq::empty()), seen_eof: Ghost(false) }
    }
}

impl ByteSource for ScriptedSource {
    closed spec fn delivered(&self) -> Seq<u8> {
        self.handed@
    }

    closed spec fn at_eof(&self) -> bool {
        self.seen_eof@
    }

    closed spec fn fuel(&self) -> nat {
        self.script@.len()
    }

    fn read_step(&mut self) -> (r: ReadOutcome) {
        if self.script.len() == 0 {
            return ReadOutcome::WouldBlock;
        }
        let item = self.script.remove(0);
        match item {
            ReadOutcome::Data(chunk) => {
                proof {
                    self.handed@ = self.handed@ + chunk@;
                }
                ReadOutcome::Data(chunk)
            },
            ReadOutcome::Eof => {
                proof {
                    self.seen_eof@ = true;
                }
                ReadOutcome::Eof
            },
            ReadOutcome::WouldBlock => ReadOutcome::WouldBlock,
        }
    }
}

/// A sink that accepts bytes according to a fixed plan of per-attempt
/// capacities, front first; a capacity of zero is a would-block suspension,
/// and an exhausted plan suspends forever.
pub struct ScriptedSink {
    caps: Vec<usize>,
    taken: Vec<u8>,
}

impl ScriptedSink {
    pub fn new(caps: Vec<usize>) -> (r: ScriptedSink)
        ensures
            r.accepted() == Seq::<u8>::empty(),
    {
        ScriptedSink { caps, taken: Vec::new() }
    }

    /// The bytes taken so far, in the order they were accepted.
    pub fn taken_bytes(&self) -> (r: &Vec<u8>)
        ensures
            r@ == self.accepted(),
    {
        &self.taken
    }
}

impl ByteSink for ScriptedSink {
    closed spec fn accepted(&self) -> Seq<u8> {
        self.taken@
    }

    fn write_step(&mut self, buf: &Vec<u8>) -> (r: WriteOutcome) {
        if self.caps.len() == 0 {
            return WriteOutcome::WouldBlock;
        }
        let cap = self.caps.remove(0);
        if cap == 0 {
            return WriteOutcome::WouldBlock;
        }
        let n: usize = if cap < buf.len() {
            cap
        } else {
            buf.len()
        };
        let mut piece = crate::chunks::take_prefix(buf, n);
        self.taken.append(&mut piece);
        WriteOutcome::Wrote(n)
    }
}

} // verus!

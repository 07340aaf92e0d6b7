//! The write side of a Wayland connection: messages are queued in a
//! buffer, with the file descriptors that travel beside them, and written
//! out one batch at a time, the next batch only after the previous write
//! completed; and the read side's completions.
use vstd::prelude::*;

use crate::wire::{encode_message, frames_at, message_bytes, parse_messages, events_view, RawWaylandEvent};

verus! {

/// Outgoing bytes and file descriptors: those queued, and the batch being
/// written (with the token of its write, once submitted).
pub struct WriteQueue {
    little: bool,
    write_buf: Vec<u8>,
    write_fds_buf: Vec<i32>,
    write_in_flight: Vec<u8>,
    write_fds_in_flight: Vec<i32>,
    write_token: Option<u64>,
}

/// What a completion on the connection means.
pub enum IoCompletion {
    /// Messages were read.
    Read(Vec<RawWaylandEvent>),
    /// A write finished.
    Write,
    /// The peer closed the connection.
    Disconnect,
    /// The completion belongs to something else.
    Unrelated,
}

impl WriteQueue {
    /// Bytes queued and not yet handed to a write.
    pub closed spec fn queued(&self) -> Seq<u8> {
        self.write_buf@
    }

    /// Bytes of the write in progress.
    pub closed spec fn in_flight(&self) -> Seq<u8> {
        self.write_in_flight@
    }

    /// Descriptors queued and not yet handed to a write, in order.
    pub closed spec fn queued_fds(&self) -> Seq<i32> {
        self.write_fds_buf@
    }

    /// Descriptors sent with the write in progress, in order.
    pub closed spec fn in_flight_fds(&self) -> Seq<i32> {
        self.write_fds_in_flight@
    }

    /// Token of the write in progress, once submitted.
    pub closed spec fn token(&self) -> Option<u64> {
        self.write_token
    }

    /// Byte order of the connection.
    pub closed spec fn byte_order(&self) -> bool {
        self.little
    }

    /// Descriptors travel only with bytes: none is queued or in flight
    /// without bytes beside it.
    pub closed spec fn wf(&self) -> bool {
        &&& self.write_in_flight@.len() == 0 ==> self.write_fds_in_flight@.len() == 0
        &&& self.write_buf@.len() == 0 ==> self.write_fds_buf@.len() == 0
    }

    /// A write is under way exactly when a batch is in flight.
    pub open spec fn busy(&self) -> bool {
        self.token() is Some || self.in_flight().len() > 0
    }

    /// Nothing queued or in flight.
    pub fn new(little: bool) -> (q: Self)
        ensures
            q.queued().len() == 0,
            q.in_flight().len() == 0,
            q.wf(),
            q.queued_fds().len() == 0,
            q.in_flight_fds().len() == 0,
            q.token() is None,
            q.byte_order() == little,
    {
        WriteQueue {
            little,
            write_buf: Vec::new(),
            write_fds_buf: Vec::new(),
            write_in_flight: Vec::new(),
            write_fds_in_flight: Vec::new(),
            write_token: None,
        }
    }

    /// The bytes of the batch being written.
    pub fn in_flight_bytes(&self) -> (s: &[u8])
        ensures
            s@ == self.in_flight(),
    {
        self.write_in_flight.as_slice()
    }

    /// The descriptors to send with the batch being written, in order:
    /// when there are any, the batch goes out as one message carrying them
    /// all (`SCM_RIGHTS`), else as a plain write.
    pub fn in_flight_fds_slice(&self) -> (s: &[i32])
        ensures
            s@ == self.in_flight_fds(),
    {
        self.write_fds_in_flight.as_slice()
    }

    /// Starts the next batch when no write is under way and bytes are
    /// queued: the queued bytes and descriptors become the batch in flight.
    /// Returns whether a write of `in_flight_bytes`, with the descriptors of
    /// `in_flight_fds_slice`, has to be submitted now.
    pub fn submit_write(&mut self) -> (start: bool)
        requires
            old(self).wf(),
        ensures
            final(self).wf(),
            final(self).byte_order() == old(self).byte_order(),
            final(self).token() == old(self).token(),
            start == (!old(self).busy() && old(self).queued().len() > 0),
            start ==> {
                &&& final(self).in_flight() == old(self).queued() && final(self).queued().len() == 0
                &&& final(self).in_flight_fds() == old(self).queued_fds() && final(self).queued_fds().len() == 0
            },
            !start ==> {
                &&& final(self).in_flight() == old(self).in_flight() && final(self).queued() == old(self).queued()
                &&& final(self).in_flight_fds() == old(self).in_flight_fds()
                &&& final(self).queued_fds() == old(self).queued_fds()
            },
    {
        if self.write_token.is_some() || self.write_in_flight.len() > 0 {
            return false;
        }
        if self.write_buf.len() == 0 {
            return false;
        }
        std::mem::swap(&mut self.write_buf, &mut self.write_in_flight);
        std::mem::swap(&mut self.write_fds_buf, &mut self.write_fds_in_flight);
        true
    }

    /// The write of the batch in flight was submitted with `token`.
    pub fn write_submitted(&mut self, token: u64)
        ensures
            final(self).token() == Some(token),
            final(self).queued() == old(self).queued(),
            final(self).in_flight() == old(self).in_flight(),
            final(self).queued_fds() == old(self).queued_fds(),
            final(self).in_flight_fds() == old(self).in_flight_fds(),
            final(self).wf() == old(self).wf(),
            final(self).byte_order() == old(self).byte_order(),
    {
        self.write_token = Some(token);
    }

    /// Queues one message, with the descriptors `fds` to travel beside it,
    /// and starts a write if none is under way. Returns whether a write has
    /// to be submitted now.
    pub fn write_raw(&mut self, sender: u32, opcode: u16, body: &[u8], fds: &[i32]) -> (start: bool)
        requires
            old(self).wf(),
            body@.len() + 8 <= u32::MAX,
        ensures
            final(self).wf(),
            final(self).byte_order() == old(self).byte_order(),
            final(self).token() == old(self).token(),
            ({
                let all = old(self).queued() + message_bytes(sender, opcode, body@, old(self).byte_order());
                let all_fds = old(self).queued_fds() + fds@;
                &&& start == !old(self).busy()
                &&& start ==> final(self).in_flight() == all && final(self).queued().len() == 0
                &&& start ==> final(self).in_flight_fds() == all_fds && final(self).queued_fds().len() == 0
                &&& !start ==> final(self).in_flight() == old(self).in_flight() && final(self).queued() == all
                &&& !start ==> final(self).in_flight_fds() == old(self).in_flight_fds() && final(self).queued_fds() == all_fds
                &&& final(self).in_flight() + final(self).queued() == old(self).in_flight() + all
                &&& final(self).in_flight_fds() + final(self).queued_fds() == old(self).in_flight_fds() + all_fds
            }),
    {
        encode_message(&mut self.write_buf, sender, opcode, body, self.little);
        let mut i: usize = 0;
        let ghost q0 = self.write_fds_buf@;
        while i < fds.len()
            invariant
                i <= fds@.len(),
                self.write_fds_buf@ == q0 + fds@.take(i as int),
                self.write_buf@ == old(self).write_buf@ + message_bytes(sender, opcode, body@, old(self).byte_order()),
                self.write_in_flight == old(self).write_in_flight,
                self.write_fds_in_flight == old(self).write_fds_in_flight,
                self.write_token == old(self).write_token,
                self.little == old(self).little,
                q0 == old(self).write_fds_buf@,
            decreases fds@.len() - i,
        {
            self.write_fds_buf.push(fds[i]);
            i = i + 1;
            assert(self.write_fds_buf@ =~= q0 + fds@.take(i as int));
        }
        assert(fds@.take(fds@.len() as int) =~= fds@);
        assert(message_bytes(sender, opcode, body@, old(self).byte_order()).len() >= 8);
        self.submit_write()
    }

    /// The write with `token` finished: the batch and its descriptors are
    /// done, and the next batch starts if bytes were queued meanwhile.
    /// Returns whether a write has to be submitted now.
    pub fn on_write_done(&mut self) -> (start: bool)
        requires
            old(self).wf(),
        ensures
            final(self).wf(),
            final(self).byte_order() == old(self).byte_order(),
            final(self).token() is None,
            start == (old(self).queued().len() > 0),
            start ==> final(self).in_flight() == old(self).queued() && final(self).queued().len() == 0,
            start ==> final(self).in_flight_fds() == old(self).queued_fds() && final(self).queued_fds().len() == 0,
            !start ==> final(self).in_flight().len() == 0 && final(self).queued().len() == 0,
            !start ==> final(self).in_flight_fds().len() == 0 && final(self).queued_fds().len() == 0,
            final(self).in_flight() + final(self).queued() == old(self).queued(),
            final(self).in_flight_fds() + final(self).queued_fds() == old(self).queued_fds(),
    {
        self.write_token = None;
        self.write_in_flight.clear();
        self.write_fds_in_flight.clear();
        self.submit_write()
    }

    /// A completion with `token` and `result`: the read with `read_token`
    /// (whose `result` bytes are `bytes`) or the write in progress.
    pub fn on_completion(&mut self, read_token: Option<u64>, token: u64, result: i32, bytes: Vec<u8>) -> (r: (IoCompletion, bool))
        requires
            old(self).wf(),
            read_token == Some(token) && result > 0 ==> frames_at(bytes@, 0, old(self).byte_order()) is Some,
        ensures
            final(self).wf(),
            final(self).byte_order() == old(self).byte_order(),
            read_token == Some(token) ==> {
                &&& *final(self) == *old(self)
                &&& final(self).queued() == old(self).queued()
                &&& final(self).in_flight() == old(self).in_flight()
                &&& final(self).token() == old(self).token()
                &&& !r.1
                &&& result <= 0 ==> r.0 is Disconnect
                &&& result > 0 ==> (r.0 matches IoCompletion::Read(evs)
                    && events_view(evs@) == frames_at(bytes@, 0, old(self).byte_order()).unwrap())
            },
            read_token != Some(token) && old(self).token() == Some(token) ==> {
                &&& r.0 is Write
                &&& final(self).token() is None
                &&& r.1 == (old(self).queued().len() > 0)
                &&& r.1 ==> final(self).in_flight() == old(self).queued() && final(self).queued().len() == 0
                &&& r.1 ==> final(self).in_flight_fds() == old(self).queued_fds() && final(self).queued_fds().len() == 0
                &&& !r.1 ==> final(self).in_flight().len() == 0 && final(self).queued().len() == 0
                &&& !r.1 ==> final(self).in_flight_fds().len() == 0 && final(self).queued_fds().len() == 0
            },
            read_token != Some(token) && old(self).token() != Some(token) ==> {
                &&& r.0 is Unrelated
                &&& !r.1
                &&& *final(self) == *old(self)
                &&& final(self).queued() == old(self).queued()
                &&& final(self).in_flight() == old(self).in_flight()
                &&& final(self).token() == old(self).token()
            },
    {
        let is_read = match read_token {
            Some(t) => t == token,
            None => false,
        };
        if is_read {
            if result <= 0 {
                return (IoCompletion::Disconnect, false);
            }
            return (IoCompletion::Read(parse_messages(bytes, self.little)), false);
        }
        let is_write = match self.write_token {
            Some(t) => t == token,
            None => false,
        };
        if is_write {
            let start = self.on_write_done();
            (IoCompletion::Write, start)
        } else {
            (IoCompletion::Unrelated, false)
        }
    }
}

} // verus!

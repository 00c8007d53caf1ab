//! The sending side of a transfer: the file cut into chunks, a sliding
//! window with Go-Back-N retransmission, and what the listener on the
//! control channel does with each message.
use vstd::prelude::*;
use vstd::slice::slice_to_vec;
use crate::message::{encode_frame, ChunkData, Message, MessageView};
use crate::network::GenericError;

verus! {

/// Payload bytes of every chunk but the last.
pub const CHUNK_LEN: usize = 1000;

/// The most chunks in flight at once.
pub const SEND_WINDOW: u32 = 10;

/// Milliseconds without an advancing acknowledgement after which the
/// outstanding chunks are sent again.
pub const RETRANSMIT_TIMEOUT_MS: u64 = 200;

/// The number of chunks a file of `len` bytes is sent in: one per started
/// thousand bytes, and one empty chunk for an empty file.
pub open spec fn chunk_count_of(len: nat) -> nat {
    if len == 0 {
        1
    } else {
        ((len + 999) / 1000) as nat
    }
}

/// The first byte of chunk `i`.
pub open spec fn chunk_start(i: nat) -> nat {
    i * 1000
}

/// The bytes of chunk `i` of `file`.
pub open spec fn chunk_of(file: Seq<u8>, i: nat) -> Seq<u8> {
    let start = chunk_start(i) as int;
    let end = if file.len() < start + 1000 {
        file.len() as int
    } else {
        start + 1000
    };
    file.subrange(start, end)
}

/// The number of chunks a file of `len` bytes is sent in.
pub fn chunk_count(len: usize) -> (r: usize)
    ensures
        r == chunk_count_of(len as nat),
{
    if len == 0 {
        1
    } else if len % CHUNK_LEN == 0 {
        len / CHUNK_LEN
    } else {
        len / CHUNK_LEN + 1
    }
}

/// The `File` datagram that carries chunk `seq` of `file`.
pub fn file_chunk_message(file: &[u8], seq: u32) -> (r: Vec<u8>)
    requires
        seq < chunk_count_of(file@.len()),
    ensures
        r@ == encode_frame(
            MessageView::File(
                seq,
                chunk_of(file@, seq as nat).len() as u16,
                chunk_of(file@, seq as nat),
            ),
        ),
        chunk_of(file@, seq as nat).len() <= CHUNK_LEN,
{
    let len = file.len();
    assert(seq as nat * 1000 <= len) by (nonlinear_arith)
        requires
            len == 0 ==> seq == 0,
            len > 0 ==> seq < (len + 999) / 1000,
    ;
    let start = seq as usize * CHUNK_LEN;
    let end = if len - start < CHUNK_LEN {
        len
    } else {
        start + CHUNK_LEN
    };
    let data = slice_to_vec(&file[start..end]);
    let payload_size = (end - start) as u16;
    let m = Message::File(ChunkData { sequence_number: seq, payload_size, data });
    m.encode()
}

/// The state of a sending window over `n` chunks.
pub struct SenderState {
    pub n: nat,
    pub window: nat,
    pub send_base: nat,
    pub next_seq: nat,
    pub last_ack_at: nat,
    pub finished: bool,
}

impl SenderState {
    /// What every state of the sender satisfies.
    pub open spec fn wf(self) -> bool {
        &&& 1 <= self.n <= u32::MAX
        &&& self.window == if self.n < SEND_WINDOW {
            self.n
        } else {
            SEND_WINDOW as nat
        }
        &&& self.send_base <= u32::MAX
        &&& self.next_seq <= self.n
        &&& self.next_seq <= self.send_base + self.window
    }

    /// The sliding-window bounds: `send_base <= next_seq <= send_base + window`.
    pub open spec fn in_window(self) -> bool {
        self.send_base <= self.next_seq <= self.send_base + self.window
    }

    /// The window before any chunk was sent, at time `now`.
    pub open spec fn initial(n: nat, now: nat) -> SenderState {
        SenderState {
            n,
            window: if n < SEND_WINDOW {
                n
            } else {
                SEND_WINDOW as nat
            },
            send_base: 0,
            next_seq: 0,
            last_ack_at: now,
            finished: false,
        }
    }

    /// The sender still has work: a single chunk not yet acknowledged, or a
    /// base below the last chunk.
    pub open spec fn running(self) -> bool {
        !self.finished && (self.send_base + 1 < self.n || self.n == 1)
    }

    /// Sends chunk `next_seq` when there is one and the window has room.
    pub open spec fn transmit(self) -> (SenderState, Option<u32>) {
        if self.next_seq < self.n && self.next_seq < self.send_base + self.window {
            (SenderState { next_seq: self.next_seq + 1, ..self }, Some(self.next_seq as u32))
        } else {
            (self, None)
        }
    }

    /// Takes acknowledgement `ack` at time `now`. With one chunk any
    /// acknowledgement finishes; otherwise one past the base moves the base
    /// to it and restarts the timer.
    pub open spec fn acknowledge(self, ack: u32, now: nat) -> SenderState {
        if self.n == 1 {
            SenderState { finished: true, ..self }
        } else if ack > self.send_base {
            SenderState { send_base: ack as nat, last_ack_at: now, ..self }
        } else {
            self
        }
    }

    /// More than the timeout has passed since the last advancing
    /// acknowledgement.
    pub open spec fn timed_out(self, now: nat) -> bool {
        now > self.last_ack_at + RETRANSMIT_TIMEOUT_MS
    }

    /// The state after one round of the pump: nothing when it has stopped
    /// or is told to stop; else a chunk sent if the window has room, then
    /// the acknowledgement taken, if one came.
    pub open spec fn round(self, stop: bool, ack: Option<u32>, now: nat) -> SenderState {
        if !self.running() || stop {
            self
        } else {
            match ack {
                Some(a) => self.transmit().0.acknowledge(a, now),
                None => self.transmit().0,
            }
        }
    }

    /// The acknowledgement of a round, if the round takes one, names no
    /// chunk past those sent so far.
    pub open spec fn ack_fits(self, stop: bool, ack: Option<u32>) -> bool {
        (self.running() && !stop && ack is Some) ==> ack->Some_0 <= self.transmit().0.next_seq
    }

    /// The chunks sent and not yet acknowledged, in order.
    pub open spec fn outstanding(self) -> Seq<u32> {
        if self.next_seq <= self.send_base {
            Seq::empty()
        } else {
            Seq::new(
                (self.next_seq - self.send_base) as nat,
                |i: int| (self.send_base + i) as u32,
            )
        }
    }
}

/// The inputs of one round of the pump: a stop signal, an acknowledgement
/// if one came, and the time.
pub struct Round {
    pub stop: bool,
    pub ack: Option<u32>,
    pub now: nat,
}

/// The state after the rounds `rounds`, from `s`.
pub open spec fn run(s: SenderState, rounds: Seq<Round>) -> SenderState
    decreases rounds.len(),
{
    if rounds.len() == 0 {
        s
    } else {
        let r = rounds.last();
        run(s, rounds.drop_last()).round(r.stop, r.ack, r.now)
    }
}

/// Every acknowledgement taken along `rounds` names no chunk past those sent
/// before it.
pub open spec fn acks_of_sent_chunks(s: SenderState, rounds: Seq<Round>) -> bool {
    forall|k: int|
        0 <= k < rounds.len() ==> #[trigger] run(s, rounds.take(k)).ack_fits(
            rounds[k].stop,
            rounds[k].ack,
        )
}

/// What the pump does in one round.
pub struct PumpAction {
    /// Leave the loop.
    pub stop: bool,
    /// The chunk to send now.
    pub send: Option<u32>,
    /// Pause before sending `resend`, so the listener is not starved.
    pub pause: bool,
    /// The chunks to send again after the pause.
    pub resend: Vec<u32>,
}

/// The sending window of one session.
pub struct SendWindow {
    chunk_count: u32,
    window_size: u32,
    send_base: u32,
    next_seq: u32,
    last_ack_at: u64,
    finished: bool,
}

impl View for SendWindow {
    type V = SenderState;

    closed spec fn view(&self) -> SenderState {
        SenderState {
            n: self.chunk_count as nat,
            window: self.window_size as nat,
            send_base: self.send_base as nat,
            next_seq: self.next_seq as nat,
            last_ack_at: self.last_ack_at as nat,
            finished: self.finished,
        }
    }
}

impl SendWindow {
    /// What every state of the window satisfies.
    pub open spec fn wf(&self) -> bool {
        self@.wf()
    }

    /// A window over `chunk_count` chunks, its timer started at `now`.
    pub fn new(chunk_count: u32, now: u64) -> (r: SendWindow)
        requires
            chunk_count >= 1,
        ensures
            r.wf(),
            r@ == SenderState::initial(chunk_count as nat, now as nat),
    {
        let window_size = if chunk_count < SEND_WINDOW {
            chunk_count
        } else {
            SEND_WINDOW
        };
        SendWindow {
            chunk_count,
            window_size,
            send_base: 0,
            next_seq: 0,
            last_ack_at: now,
            finished: false,
        }
    }

    /// Whether the sender still has work.
    pub fn is_running(&self) -> (r: bool)
        requires
            self.wf(),
        ensures
            r == self@.running(),
    {
        !self.finished && (self.send_base as u64 + 1 < self.chunk_count as u64 || self.chunk_count
            == 1)
    }

    /// The chunk to send now, if the window has room for one.
    pub fn next_to_send(&mut self) -> (r: Option<u32>)
        requires
            old(self).wf(),
        ensures
            final(self).wf(),
            (final(self)@, r) == old(self)@.transmit(),
    {
        if self.next_seq < self.chunk_count && (self.next_seq as u64) < self.send_base as u64
            + self.window_size as u64 {
            let seq = self.next_seq;
            self.next_seq = self.next_seq + 1;
            Some(seq)
        } else {
            None
        }
    }

    /// Takes acknowledgement `ack`, received at time `now`.
    pub fn on_ack(&mut self, ack: u32, now: u64)
        requires
            old(self).wf(),
        ensures
            final(self).wf(),
            final(self)@ == old(self)@.acknowledge(ack, now as nat),
    {
        if self.chunk_count == 1 {
            self.finished = true;
        } else if ack > self.send_base {
            self.send_base = ack;
            self.last_ack_at = now;
        }
    }

    /// Whether the outstanding chunks are due to be sent again at time `now`.
    pub fn timed_out(&self, now: u64) -> (r: bool)
        requires
            self.wf(),
        ensures
            r == self@.timed_out(now as nat),
    {
        now > self.last_ack_at && now - self.last_ack_at > RETRANSMIT_TIMEOUT_MS
    }

    /// The chunks to send again on a timeout: every one from the base up to
    /// the next to send.
    pub fn outstanding(&self) -> (r: Vec<u32>)
        requires
            self.wf(),
        ensures
            r@ == self@.outstanding(),
    {
        let mut out: Vec<u32> = Vec::new();
        let mut i: u32 = self.send_base;
        while i < self.next_seq
            invariant
                self.send_base <= i,
                self.send_base < self.next_seq ==> i <= self.next_seq,
                self.next_seq <= self.send_base ==> i == self.send_base,
                out@ == Seq::new((i - self.send_base) as nat, |k: int| (self.send_base + k) as u32),
            decreases self.next_seq - i,
        {
            out.push(i);
            i = i + 1;
            assert(out@ =~= Seq::new(
                (i - self.send_base) as nat,
                |k: int| (self.send_base + k) as u32,
            ));
        }
        if self.next_seq <= self.send_base {
            assert(out@ =~= Seq::<u32>::empty());
        }
        out
    }

    /// One round of the pump at time `now`, given whether the listener asked
    /// to stop and the acknowledgement it handed over, if any. A round that
    /// takes an acknowledgement neither pauses nor checks the timer.
    pub fn step(&mut self, stop: bool, ack: Option<u32>, now: u64) -> (r: PumpAction)
        requires
            old(self).wf(),
        ensures
            final(self).wf(),
            final(self)@ == old(self)@.round(stop, ack, now as nat),
            r.stop == (!old(self)@.running() || stop),
            r.send == if r.stop {
                None
            } else {
                old(self)@.transmit().1
            },
            r.pause == (!r.stop && ack is None),
            r.resend@ == if !r.stop && ack is None && old(self)@.transmit().0.timed_out(now as nat) {
                old(self)@.transmit().0.outstanding()
            } else {
                Seq::<u32>::empty()
            },
    {
        if !self.is_running() || stop {
            return PumpAction { stop: true, send: None, pause: false, resend: Vec::new() };
        }
        let send = self.next_to_send();
        match ack {
            Some(a) => {
                self.on_ack(a, now);
                PumpAction { stop: false, send, pause: false, resend: Vec::new() }
            },
            None => {
                let resend = if self.timed_out(now) {
                    self.outstanding()
                } else {
                    Vec::new()
                };
                PumpAction { stop: false, send, pause: true, resend }
            },
        }
    }

    /// The number of chunks.
    pub fn chunk_count(&self) -> (r: u32)
        ensures
            r == self@.n,
    {
        self.chunk_count
    }

    /// The smallest chunk not yet acknowledged.
    pub fn send_base(&self) -> (r: u32)
        ensures
            r == self@.send_base,
    {
        self.send_base
    }

    /// The next chunk to send.
    pub fn next_seq(&self) -> (r: u32)
        ensures
            r == self@.next_seq,
    {
        self.next_seq
    }

    /// The most chunks in flight at once.
    pub fn window_size(&self) -> (r: u32)
        ensures
            r == self@.window,
    {
        self.window_size
    }
}

/// Every step of the sender keeps `send_base <= next_seq <= send_base + window`,
/// for acknowledgements no higher than the next chunk to send.
pub proof fn lemma_sender_keeps_window(s: SenderState, ack: u32, now: nat)
    requires
        s.wf(),
        s.in_window(),
    ensures
        s.transmit().0.wf(),
        s.transmit().0.in_window(),
        s.acknowledge(ack, now).wf(),
        ack <= s.next_seq ==> s.acknowledge(ack, now).in_window(),
{
}

proof fn lemma_run_keeps_window(s: SenderState, rounds: Seq<Round>)
    requires
        s.wf(),
        s.in_window(),
        acks_of_sent_chunks(s, rounds),
    ensures
        run(s, rounds).wf(),
        run(s, rounds).in_window(),
    decreases rounds.len(),
{
    if rounds.len() > 0 {
        let n = rounds.len() - 1;
        let front = rounds.drop_last();
        assert forall|k: int| 0 <= k < front.len() implies #[trigger] run(s, front.take(k)).ack_fits(
            front[k].stop,
            front[k].ack,
        ) by {
            assert(front.take(k) =~= rounds.take(k));
            assert(run(s, rounds.take(k)).ack_fits(rounds[k].stop, rounds[k].ack));
        }
        lemma_run_keeps_window(s, front);
        assert(rounds.take(n) =~= front);
        assert(run(s, rounds.take(n)).ack_fits(rounds[n].stop, rounds[n].ack));
        let p = run(s, front);
        lemma_sender_keeps_window(p, 0, 0);
        let r = rounds.last();
        if p.running() && !r.stop {
            lemma_sender_keeps_window(p.transmit().0, 0, 0);
            if let Some(a) = r.ack {
                lemma_sender_keeps_window(p.transmit().0, a, r.now);
            }
        }
    }
}

/// Along any run of the pump from a fresh window in which every
/// acknowledgement taken names a chunk already sent, every state keeps
/// `send_base <= next_seq <= send_base + window`.
pub proof fn lemma_pump_keeps_window(n: nat, start: nat, rounds: Seq<Round>)
    requires
        1 <= n <= u32::MAX,
        acks_of_sent_chunks(SenderState::initial(n, start), rounds),
    ensures
        forall|k: int|
            0 <= k <= rounds.len() ==> #[trigger] run(SenderState::initial(n, start), rounds.take(k)).in_window(),
{
    let s = SenderState::initial(n, start);
    assert forall|k: int| 0 <= k <= rounds.len() implies #[trigger] run(s, rounds.take(k)).in_window() by {
        let prefix = rounds.take(k);
        assert forall|j: int| 0 <= j < prefix.len() implies #[trigger] run(s, prefix.take(j)).ack_fits(
            prefix[j].stop,
            prefix[j].ack,
        ) by {
            assert(prefix.take(j) =~= rounds.take(j));
            assert(run(s, rounds.take(j)).ack_fits(rounds[j].stop, rounds[j].ack));
        }
        lemma_run_keeps_window(s, prefix);
    }
}

/// What is sent again after a timeout is exactly the chunks from the base
/// up to the next one to send, in order; and the acknowledgement of the last
/// chunk ends the pump.
pub proof fn lemma_go_back_n(s: SenderState, now: nat)
    requires
        s.wf(),
        s.in_window(),
    ensures
        s.outstanding().len() == s.next_seq - s.send_base,
        forall|i: int|
            0 <= i < s.outstanding().len() ==> #[trigger] s.outstanding()[i] == s.send_base + i,
        !s.acknowledge((s.n - 1) as u32, now).running(),
{
}

/// The base and the next chunk to send never move back.
pub proof fn lemma_sender_monotonic(s: SenderState, ack: u32, now: nat)
    requires
        s.wf(),
    ensures
        s.send_base <= s.transmit().0.send_base,
        s.next_seq <= s.transmit().0.next_seq,
        s.send_base <= s.acknowledge(ack, now).send_base,
        s.next_seq <= s.acknowledge(ack, now).next_seq,
{
}

/// What the listener on the control channel does with what one read gave.
pub enum ListenerAction {
    /// Hand the acknowledgement to the sender and keep listening.
    Forward(u32),
    /// Hand the acknowledgement of the last chunk to the sender and stop.
    ForwardLast(u32),
    /// The receiver announced the end of the transfer.
    Finished,
    /// The receiver closed the channel: tell the sender to stop.
    Closed,
    /// The channel failed.
    Failed,
    /// Nothing to do with it: keep listening.
    Ignore,
}

/// The listener's decision for one read, when the file's last chunk is
/// `last_chunk`.
pub fn ack_listener_step(received: &Result<Message, GenericError>, last_chunk: u32) -> (r:
    ListenerAction)
    ensures
        match *received {
            Ok(Message::Ack(seq)) => if seq == last_chunk {
                r == ListenerAction::ForwardLast(seq)
            } else {
                r == ListenerAction::Forward(seq)
            },
            Ok(Message::End) => r == ListenerAction::Finished,
            Ok(_) => r == ListenerAction::Ignore,
            Err(GenericError::Closed) => r == ListenerAction::Closed,
            Err(GenericError::IO(_)) => r == ListenerAction::Failed,
            Err(GenericError::Logic(_)) => r == ListenerAction::Ignore,
        },
{
    match received {
        Ok(Message::Ack(seq)) => {
            if *seq == last_chunk {
                ListenerAction::ForwardLast(*seq)
            } else {
                ListenerAction::Forward(*seq)
            }
        },
        Ok(Message::End) => ListenerAction::Finished,
        Ok(_) => ListenerAction::Ignore,
        Err(GenericError::Closed) => ListenerAction::Closed,
        Err(GenericError::IO(_)) => ListenerAction::Failed,
        Err(GenericError::Logic(_)) => ListenerAction::Ignore,
    }
}

} // verus!

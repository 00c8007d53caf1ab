//! The receiving side of a transfer: a sliding window over the chunks of one
//! file, which stores what arrives, decides which acknowledgement to send,
//! and says when the file is complete.
use vstd::prelude::*;
use crate::message::{decode_frame, Message, MessageCreationError, MessageView};
use crate::network::GenericError;

verus! {

/// Payload bytes of every chunk but the last.
pub const CHUNK_SIZE: u64 = 1000;

/// How many chunks past the last one read the receiver accepts.
pub const RECEIVE_WINDOW: u64 = 10;

/// The number of chunks that a file of `file_size` bytes is received in.
pub open spec fn expected_chunks_of(file_size: nat) -> nat {
    file_size / 1000 + 1
}

/// The number of chunks that a file of `file_size` bytes is received in.
pub fn expected_chunks(file_size: u64) -> (r: u64)
    ensures
        r == expected_chunks_of(file_size as nat),
{
    file_size / CHUNK_SIZE + 1
}

/// All slots are filled.
pub open spec fn all_received(received: Seq<bool>) -> bool {
    forall|i: int| 0 <= i < received.len() ==> #[trigger] received[i]
}

/// `g` is the smallest index from 1 on whose slot is still empty.
pub open spec fn is_first_gap(received: Seq<bool>, g: int) -> bool {
    &&& 1 <= g < received.len()
    &&& !received[g]
    &&& forall|j: int| 1 <= j < g ==> #[trigger] received[j]
}

/// The bytes of a slot: what was stored there, or nothing.
pub open spec fn slot_bytes(slot: Option<Seq<u8>>) -> Seq<u8> {
    match slot {
        Some(d) => d,
        None => Seq::empty(),
    }
}

/// The slots' bytes one after the other, in sequence order.
pub open spec fn joined(slots: Seq<Option<Seq<u8>>>) -> Seq<u8>
    decreases slots.len(),
{
    if slots.len() == 0 {
        Seq::empty()
    } else {
        joined(slots.drop_last()) + slot_bytes(slots.last())
    }
}

/// What the receiver does after a datagram: the acknowledgement to send, if
/// any, and whether the file is complete and to be written out.
pub struct ReceiveStep {
    pub ack: Option<u32>,
    pub finished: bool,
}

/// The state of a receiving window.
///
/// `lfr` is the last chunk read and `laf` the last acceptable one.
pub struct ReceiverState {
    pub expected: nat,
    pub contents: Seq<Option<Seq<u8>>>,
    pub received: Seq<bool>,
    pub lfr: nat,
    pub laf: nat,
}

impl ReceiverState {
    /// The window's invariant: one slot per chunk, a slot marked received
    /// exactly when it holds data, `lfr <= laf == lfr + 10`, and every slot
    /// from 1 below `lfr` filled.
    pub open spec fn wf(self) -> bool {
        &&& 1 <= self.expected <= 0x1_0000_0000
        &&& self.contents.len() == self.expected
        &&& self.received.len() == self.expected
        &&& self.lfr < self.expected
        &&& self.lfr <= self.laf
        &&& self.laf == self.lfr + RECEIVE_WINDOW
        &&& forall|i: int|
            0 <= i < self.expected ==> (#[trigger] self.received[i] <==> self.contents[i] is Some)
        &&& forall|i: int| 1 <= i < self.lfr ==> #[trigger] self.received[i]
    }

    /// The window before any chunk arrived.
    pub open spec fn initial(expected: nat) -> ReceiverState {
        ReceiverState {
            expected,
            contents: Seq::new(expected, |i: int| None),
            received: Seq::new(expected, |i: int| false),
            lfr: 0,
            laf: RECEIVE_WINDOW as nat,
        }
    }

    /// Chunk `seq` falls inside the window and names a slot.
    pub open spec fn in_window(self, seq: u32) -> bool {
        self.lfr <= seq <= self.laf && seq < self.expected
    }

    /// The acknowledgement repeated for a chunk outside the window: the one
    /// before `lfr`; none while `lfr` is 0, when no chunk precedes it.
    pub open spec fn duplicate_ack(self) -> Option<u32> {
        if self.lfr == 0 {
            None
        } else {
            Some((self.lfr - 1) as u32)
        }
    }

    /// The state and step that follow the arrival of chunk `seq` with `data`.
    pub open spec fn deliver(self, seq: u32, data: Seq<u8>) -> (ReceiverState, ReceiveStep) {
        if self.in_window(seq) {
            let received = self.received.update(seq as int, true);
            let contents = self.contents.update(seq as int, Some(data));
            let stored = ReceiverState {
                expected: self.expected,
                contents,
                received,
                lfr: self.lfr,
                laf: self.laf,
            };
            let all = all_received(received);
            let should_ack = seq == self.lfr || seq == self.lfr + 1 || all;
            if should_ack && all {
                (stored, ReceiveStep { ack: Some((self.expected - 1) as u32), finished: true })
            } else if should_ack && exists|g: int| is_first_gap(received, g) {
                let g = choose|g: int| is_first_gap(received, g);
                (
                    ReceiverState {
                        expected: self.expected,
                        contents,
                        received,
                        lfr: g as nat,
                        laf: (g + RECEIVE_WINDOW) as nat,
                    },
                    ReceiveStep { ack: Some((g - 1) as u32), finished: false },
                )
            } else if should_ack && seq == self.expected - 1 {
                (stored, ReceiveStep { ack: Some(seq), finished: true })
            } else {
                (stored, ReceiveStep { ack: None, finished: false })
            }
        } else {
            (
                self,
                ReceiveStep {
                    ack: self.duplicate_ack(),
                    finished: self.lfr > 0 && self.lfr - 1 == self.expected - 1,
                },
            )
        }
    }
}

/// The receiving window of one session.
pub struct ReceiveWindow {
    expected_chunks: u64,
    contents: Vec<Option<Vec<u8>>>,
    received: Vec<bool>,
    last_chunk_read: u64,
    last_acceptable_chunk: u64,
}

/// The contents of the slots, as byte sequences.
pub open spec fn slots_view(v: Seq<Option<Vec<u8>>>) -> Seq<Option<Seq<u8>>> {
    v.map_values(|c: Option<Vec<u8>>| match c {
        Some(d) => Some(d@),
        None => None,
    })
}

impl View for ReceiveWindow {
    type V = ReceiverState;

    closed spec fn view(&self) -> ReceiverState {
        ReceiverState {
            expected: self.expected_chunks as nat,
            contents: slots_view(self.contents@),
            received: self.received@,
            lfr: self.last_chunk_read as nat,
            laf: self.last_acceptable_chunk as nat,
        }
    }
}

proof fn lemma_first_gap_unique(received: Seq<bool>, a: int, b: int)
    requires
        is_first_gap(received, a),
        is_first_gap(received, b),
    ensures
        a == b,
{
    if a < b {
        assert(received[a]);
    } else if b < a {
        assert(received[b]);
    }
}

impl ReceiveWindow {
    /// The window's invariant, on its state.
    pub open spec fn wf(&self) -> bool {
        self@.wf()
    }

    /// An empty window for a file of `file_size` bytes.
    pub fn new(file_size: u64) -> (r: ReceiveWindow)
        requires
            expected_chunks_of(file_size as nat) <= 0x1_0000_0000,
            expected_chunks_of(file_size as nat) <= usize::MAX,
        ensures
            r.wf(),
            r@ == ReceiverState::initial(expected_chunks_of(file_size as nat)),
    {
        let expected = expected_chunks(file_size);
        let n = expected as usize;
        let mut contents: Vec<Option<Vec<u8>>> = Vec::new();
        let mut received: Vec<bool> = Vec::new();
        let mut i: usize = 0;
        while i < n
            invariant
                i <= n,
                contents@.len() == i,
                received@.len() == i,
                forall|j: int| 0 <= j < i ==> #[trigger] contents@[j] is None,
                forall|j: int| 0 <= j < i ==> !#[trigger] received@[j],
            decreases n - i,
        {
            contents.push(None);
            received.push(false);
            i = i + 1;
        }
        let r = ReceiveWindow {
            expected_chunks: expected,
            contents,
            received,
            last_chunk_read: 0,
            last_acceptable_chunk: RECEIVE_WINDOW,
        };
        assert(r@.contents =~= ReceiverState::initial(expected as nat).contents);
        assert(r@.received =~= ReceiverState::initial(expected as nat).received);
        r
    }

    fn all_received(&self) -> (r: bool)
        requires
            self.wf(),
        ensures
            r == all_received(self@.received),
    {
        let mut i: usize = 0;
        while i < self.received.len()
            invariant
                i <= self.received@.len(),
                forall|j: int| 0 <= j < i ==> #[trigger] self.received@[j],
            decreases self.received@.len() - i,
        {
            if !self.received[i] {
                return false;
            }
            i = i + 1;
        }
        true
    }

    fn first_gap(&self) -> (r: Option<usize>)
        requires
            self.wf(),
        ensures
            r matches Some(g) ==> is_first_gap(self@.received, g as int),
            r is None ==> forall|j: int| 1 <= j < self@.received.len() ==> #[trigger] self@.received[j],
    {
        let mut i: usize = 1;
        while i < self.received.len()
            invariant
                1 <= i,
                i <= self.received@.len() || self.received@.len() == 0,
                forall|j: int| 1 <= j < i ==> #[trigger] self.received@[j],
            decreases self.received@.len() - i,
        {
            if !self.received[i] {
                return Some(i);
            }
            i = i + 1;
        }
        None
    }

    /// Takes chunk `seq` with its payload `data`.
    pub fn on_chunk(&mut self, seq: u32, data: Vec<u8>) -> (r: ReceiveStep)
        requires
            old(self).wf(),
        ensures
            final(self).wf(),
            (final(self)@, r) == old(self)@.deliver(seq, data@),
    {
        let ghost old_state = self@;
        let ghost data_view = data@;
        if self.last_chunk_read <= seq as u64 && seq as u64 <= self.last_acceptable_chunk && (seq
            as u64) < self.expected_chunks {
            let i = seq as usize;
            self.received[i] = true;
            self.contents[i] = Some(data);
            let ghost received = old_state.received.update(seq as int, true);
            let ghost contents = old_state.contents.update(seq as int, Some(data_view));
            assert(self@.received =~= received);
            assert(self@.contents =~= contents);
            let all = self.all_received();
            let should_ack = seq as u64 == self.last_chunk_read || seq as u64
                == self.last_chunk_read + 1 || all;
            if should_ack && all {
                return ReceiveStep { ack: Some((self.expected_chunks - 1) as u32), finished: true };
            }
            if should_ack {
                match self.first_gap() {
                    Some(g) => {
                        proof {
                            assert(is_first_gap(received, g as int));
                            let c = choose|c: int| is_first_gap(received, c);
                            lemma_first_gap_unique(received, c, g as int);
                            if old_state.lfr > 0 {
                                assert(received[old_state.lfr - 1] || old_state.lfr == 1);
                                if g < old_state.lfr {
                                    assert(old_state.received[g as int]);
                                }
                            }
                        }
                        self.last_chunk_read = g as u64;
                        self.last_acceptable_chunk = g as u64 + RECEIVE_WINDOW;
                        return ReceiveStep { ack: Some((g - 1) as u32), finished: false };
                    },
                    None => {
                        assert(!exists|g: int| is_first_gap(received, g));
                        if seq as u64 == self.expected_chunks - 1 {
                            return ReceiveStep { ack: Some(seq), finished: true };
                        }
                    },
                }
            }
            ReceiveStep { ack: None, finished: false }
        } else {
            if self.last_chunk_read == 0 {
                ReceiveStep { ack: None, finished: false }
            } else {
                let ack = (self.last_chunk_read - 1) as u32;
                ReceiveStep { ack: Some(ack), finished: ack as u64 == self.expected_chunks - 1 }
            }
        }
    }

    /// Takes one datagram of `bytes_read` bytes: a `File` message goes to
    /// [`Self::on_chunk`]; anything else ends the session with a logic error
    /// and leaves the window as it was.
    pub fn handle_datagram(&mut self, buffer: &[u8], bytes_read: usize) -> (r: Result<
        ReceiveStep,
        GenericError,
    >)
        requires
            old(self).wf(),
            bytes_read <= buffer@.len(),
        ensures
            final(self).wf(),
            match decode_frame(buffer@.take(bytes_read as int)) {
                Ok(MessageView::File(seq, _, data)) => r matches Ok(step) && (final(self)@, step)
                    == old(self)@.deliver(seq, data),
                Ok(_) => final(self)@ == old(self)@ && (r matches Err(GenericError::Logic(e)) && e@
                    == "Invalid message type"@),
                Err(k) => final(self)@ == old(self)@ && (r matches Err(GenericError::Logic(e))
                    && e@ == k.text()),
            },
    {
        match Message::new(buffer, bytes_read) {
            Ok(Message::File(chunk)) => Ok(self.on_chunk(chunk.sequence_number, chunk.data)),
            Ok(_) => Err(GenericError::Logic(MessageCreationError::new("Invalid message type"))),
            Err(e) => Err(GenericError::Logic(e)),
        }
    }

    /// The file: the stored chunks one after the other, in sequence order.
    pub fn assemble(&self) -> (r: Vec<u8>)
        requires
            self.wf(),
        ensures
            r@ == joined(self@.contents),
    {
        let mut out: Vec<u8> = Vec::new();
        let mut i: usize = 0;
        while i < self.contents.len()
            invariant
                i <= self.contents@.len(),
                out@ == joined(slots_view(self.contents@).take(i as int)),
            decreases self.contents@.len() - i,
        {
            let ghost before = out@;
            match &self.contents[i] {
                Some(d) => {
                    let mut j: usize = 0;
                    while j < d.len()
                        invariant
                            j <= d@.len(),
                            out@ == before + d@.take(j as int),
                        decreases d@.len() - j,
                    {
                        out.push(d[j]);
                        j = j + 1;
                        assert(out@ =~= before + d@.take(j as int));
                    }
                    assert(d@.take(j as int) =~= d@);
                },
                None => {},
            }
            let ghost slots = slots_view(self.contents@);
            assert(slots.take(i + 1).drop_last() =~= slots.take(i as int));
            assert(out@ =~= joined(slots.take(i + 1)));
            i = i + 1;
        }
        assert(slots_view(self.contents@).take(i as int) =~= slots_view(self.contents@));
        out
    }

    /// The number of chunks the file is received in.
    pub fn expected_chunks(&self) -> (r: u64)
        ensures
            r == self@.expected,
    {
        self.expected_chunks
    }

    /// The last chunk read (the lower edge of the window).
    pub fn last_chunk_read(&self) -> (r: u64)
        ensures
            r == self@.lfr,
    {
        self.last_chunk_read
    }

    /// The last acceptable chunk (the upper edge of the window).
    pub fn last_acceptable_chunk(&self) -> (r: u64)
        ensures
            r == self@.laf,
    {
        self.last_acceptable_chunk
    }

    /// Whether chunk `i` has arrived.
    pub fn is_received(&self, i: u64) -> (r: bool)
        requires
            self.wf(),
            i < self@.expected,
        ensures
            r == self@.received[i as int],
    {
        self.received[i as usize]
    }
}

/// Every step of the receiver keeps its invariant: `lfr <= laf == lfr + 10`,
/// and a slot marked received holds data.
pub proof fn lemma_deliver_keeps_invariant(s: ReceiverState, seq: u32, data: Seq<u8>)
    requires
        s.wf(),
    ensures
        s.deliver(seq, data).0.wf(),
        s.deliver(seq, data).0.lfr <= s.deliver(seq, data).0.laf,
        s.deliver(seq, data).0.laf == s.deliver(seq, data).0.lfr + RECEIVE_WINDOW,
        forall|i: int|
            0 <= i < s.deliver(seq, data).0.expected && #[trigger] s.deliver(seq, data).0.received[i]
                ==> s.deliver(seq, data).0.contents[i] is Some,
{
    lemma_deliver_advances(s, seq, data);
}

/// The edges of the receiving window never move back.
pub proof fn lemma_deliver_monotonic(s: ReceiverState, seq: u32, data: Seq<u8>)
    requires
        s.wf(),
    ensures
        s.lfr <= s.deliver(seq, data).0.lfr,
        s.laf <= s.deliver(seq, data).0.laf,
{
    lemma_deliver_advances(s, seq, data);
}

proof fn lemma_deliver_advances(s: ReceiverState, seq: u32, data: Seq<u8>)
    requires
        s.wf(),
    ensures
        s.deliver(seq, data).0.wf(),
        s.lfr <= s.deliver(seq, data).0.lfr,
{
    if s.in_window(seq) {
        let received = s.received.update(seq as int, true);
        if exists|g: int| is_first_gap(received, g) {
            let g = choose|g: int| is_first_gap(received, g);
            if 1 <= g < s.lfr {
                assert(s.received[g]);
            }
        }
    }
}

/// Delivering the same chunk a second time changes neither the stored data
/// nor which slots are marked received.
pub proof fn lemma_deliver_idempotent(s: ReceiverState, seq: u32, data: Seq<u8>)
    requires
        s.wf(),
    ensures
        s.deliver(seq, data).0.deliver(seq, data).0.contents == s.deliver(seq, data).0.contents,
        s.deliver(seq, data).0.deliver(seq, data).0.received == s.deliver(seq, data).0.received,
{
    let s1 = s.deliver(seq, data).0;
    lemma_deliver_advances(s, seq, data);
    if s1.in_window(seq) {
        assert(s.in_window(seq)) by {
            if !s.in_window(seq) {
                assert(s1 == s);
            }
        }
        assert(s1.received.update(seq as int, true) =~= s1.received);
        assert(s1.contents.update(seq as int, Some(data)) =~= s1.contents);
    }
}

} // verus!

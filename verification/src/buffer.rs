//! A byte buffer with a hard capacity that keeps the most recent bytes.

use vstd::prelude::*;
use vstd::slice::slice_subrange;

verus! {

/// Capacity of the output buffer of an interactive session: 1 MiB.
pub const SESSION_BUFFER_CAPACITY: usize = 1_048_576;

/// Capacity of the output buffer of a one-shot command: 2 MiB.
pub const EXEC_BUFFER_CAPACITY: usize = 2_097_152;

/// How many bytes a drain loop asks of the terminal in one read.
pub const DRAIN_CHUNK_SIZE: usize = 4096;

/// The last `capacity` elements of `bytes`, or all of `bytes` if there are
/// no more than `capacity` of them.
pub open spec fn retained_tail(bytes: Seq<u8>, capacity: nat) -> Seq<u8> {
    if bytes.len() <= capacity {
        bytes
    } else {
        bytes.subrange(bytes.len() - capacity, bytes.len() as int)
    }
}

/// What a buffer of the given capacity holds after the chunks have been
/// appended to it one after the other, starting from `start`.
pub open spec fn after_appends(start: Seq<u8>, chunks: Seq<Seq<u8>>, capacity: nat) -> Seq<u8>
    decreases chunks.len(),
{
    if chunks.len() == 0 {
        start
    } else {
        retained_tail(after_appends(start, chunks.drop_last(), capacity) + chunks.last(), capacity)
    }
}

/// All chunks joined in order.
pub open spec fn concat_chunks(chunks: Seq<Seq<u8>>) -> Seq<u8>
    decreases chunks.len(),
{
    if chunks.len() == 0 {
        Seq::empty()
    } else {
        concat_chunks(chunks.drop_last()) + chunks.last()
    }
}

/// Keeping a tail and then a tail of what follows is keeping a tail of the whole.
pub proof fn lemma_retained_tail_absorbs(prefix: Seq<u8>, chunk: Seq<u8>, capacity: nat)
    ensures
        retained_tail(retained_tail(prefix, capacity) + chunk, capacity) == retained_tail(
            prefix + chunk,
            capacity,
        ),
        retained_tail(prefix, capacity).len() <= capacity,
        retained_tail(prefix, capacity).len() == if prefix.len() <= capacity {
            prefix.len()
        } else {
            capacity
        },
{
    assert(retained_tail(retained_tail(prefix, capacity) + chunk, capacity) =~= retained_tail(
        prefix + chunk,
        capacity,
    ));
}

/// However the output is cut into chunks, a buffer that starts empty never
/// holds more than its capacity, and holds exactly the last bytes of
/// everything that was appended: all of it while it fits, else the final
/// `capacity` bytes.
pub proof fn lemma_appends_keep_suffix(chunks: Seq<Seq<u8>>, capacity: nat)
    ensures
        after_appends(Seq::empty(), chunks, capacity) == retained_tail(
            concat_chunks(chunks),
            capacity,
        ),
        after_appends(Seq::empty(), chunks, capacity).len() <= capacity,
        after_appends(Seq::empty(), chunks, capacity).len() == if concat_chunks(chunks).len()
            <= capacity {
            concat_chunks(chunks).len()
        } else {
            capacity
        },
    decreases chunks.len(),
{
    if chunks.len() == 0 {
        lemma_retained_tail_absorbs(Seq::empty(), Seq::empty(), capacity);
    } else {
        lemma_appends_keep_suffix(chunks.drop_last(), capacity);
        lemma_retained_tail_absorbs(concat_chunks(chunks.drop_last()), chunks.last(), capacity);
        lemma_retained_tail_absorbs(concat_chunks(chunks), Seq::empty(), capacity);
    }
}

/// One read from the output stream of a process.
pub enum ReadOutcome<'a> {
    /// The bytes that the read delivered; none at the end of the stream.
    Data(&'a [u8]),
    /// The read failed.
    Failed,
}

/// Whether a read ends the stream: it failed, or it delivered nothing.
pub open spec fn ends_stream(outcome: ReadOutcome) -> bool {
    match outcome {
        ReadOutcome::Data(bytes) => bytes@.len() == 0,
        ReadOutcome::Failed => true,
    }
}

/// What a buffer of the given capacity holds after a read: delivered bytes
/// are appended, and the end of the stream changes nothing.
pub open spec fn contents_after_read(contents: Seq<u8>, outcome: ReadOutcome, capacity: nat) -> Seq<
    u8,
> {
    match outcome {
        ReadOutcome::Data(bytes) => retained_tail(contents + bytes@, capacity),
        ReadOutcome::Failed => contents,
    }
}

/// A tail of what follows a tail is the tail of the whole.
pub proof fn lemma_retained_tail_of_tail(prefix: Seq<u8>, rest: Seq<u8>, capacity: nat)
    ensures
        retained_tail(prefix + retained_tail(rest, capacity), capacity) == retained_tail(
            prefix + rest,
            capacity,
        ),
{
    assert(retained_tail(prefix + retained_tail(rest, capacity), capacity) =~= retained_tail(
        prefix + rest,
        capacity,
    ));
}

/// Whether a buffer takes in the chunks one by one, or takes in at once
/// what another buffer of the same capacity made of them, it ends up
/// holding the same.
pub proof fn lemma_appends_by_way_of_inbox(start: Seq<u8>, chunks: Seq<Seq<u8>>, capacity: nat)
    requires
        start.len() <= capacity,
    ensures
        retained_tail(start + after_appends(Seq::empty(), chunks, capacity), capacity)
            == after_appends(start, chunks, capacity),
    decreases chunks.len(),
{
    if chunks.len() == 0 {
        assert(start + Seq::<u8>::empty() =~= start);
    } else {
        let before = chunks.drop_last();
        lemma_appends_by_way_of_inbox(start, before, capacity);
        let direct = after_appends(start, before, capacity);
        let inbox = after_appends(Seq::empty(), before, capacity);
        lemma_retained_tail_of_tail(start, inbox + chunks.last(), capacity);
        lemma_retained_tail_absorbs(start + inbox, chunks.last(), capacity);
        assert(start + (inbox + chunks.last()) =~= start + inbox + chunks.last());
    }
}

/// Captured output of one process, oldest byte first.
pub struct OutputBuffer {
    data: Vec<u8>,
    capacity: usize,
}

impl View for OutputBuffer {
    type V = Seq<u8>;

    closed spec fn view(&self) -> Seq<u8> {
        self.data@
    }
}

impl OutputBuffer {
    /// The most bytes the buffer ever holds.
    pub closed spec fn limit(&self) -> nat {
        self.capacity as nat
    }

    #[verifier::type_invariant]
    spec fn within_capacity(&self) -> bool {
        self.data@.len() <= self.capacity
    }

    /// An empty buffer that will hold at most `capacity` bytes.
    pub fn new(capacity: usize) -> (buffer: Self)
        ensures
            buffer@ == Seq::<u8>::empty(),
            buffer.limit() == capacity,
    {
        OutputBuffer { data: Vec::new(), capacity }
    }

    /// The most bytes the buffer ever holds.
    pub fn capacity(&self) -> (capacity: usize)
        ensures
            capacity == self.limit(),
    {
        self.capacity
    }

    /// How many bytes the buffer holds.
    pub fn len(&self) -> (len: usize)
        ensures
            len == self@.len(),
            len <= self.limit(),
    {
        proof {
            use_type_invariant(self);
        }
        self.data.len()
    }

    /// Whether the buffer holds nothing.
    pub fn is_empty(&self) -> (empty: bool)
        ensures
            empty == (self@.len() == 0),
    {
        self.data.len() == 0
    }

    /// Appends `chunk`, then drops from the front exactly as many bytes as
    /// the capacity requires.
    pub fn append(&mut self, chunk: &[u8])
        ensures
            final(self)@ == retained_tail(old(self)@ + chunk@, old(self).limit()),
            final(self).limit() == old(self).limit(),
            final(self)@.len() <= final(self).limit(),
    {
        proof {
            use_type_invariant(&*self);
        }
        let ghost before = self.data@;
        let incoming: usize = chunk.len();
        // The bytes are worked on outside `self` and put back whole.
        let mut data: Vec<u8> = Vec::new();
        std::mem::swap(&mut self.data, &mut data);
        if incoming >= self.capacity {
            let kept = slice_subrange(chunk, incoming - self.capacity, incoming);
            data.clear();
            data.extend_from_slice(kept);
        } else {
            let room: usize = self.capacity - incoming;
            if data.len() > room {
                let evicted: usize = data.len() - room;
                data = data.split_off(evicted);
            }
            data.extend_from_slice(chunk);
        }
        assert(data@ =~= retained_tail(before + chunk@, self.capacity as nat));
        self.data = data;
    }

    /// Takes in one read from the output stream, and says whether the
    /// stream goes on: the drain loop stops at the first read that fails or
    /// delivers nothing.
    pub fn absorb(&mut self, outcome: ReadOutcome) -> (keep_reading: bool)
        ensures
            final(self)@ == contents_after_read(old(self)@, outcome, old(self).limit()),
            final(self).limit() == old(self).limit(),
            final(self)@.len() <= final(self).limit(),
            keep_reading == !ends_stream(outcome),
    {
        proof {
            use_type_invariant(&*self);
        }
        match outcome {
            ReadOutcome::Data(bytes) => {
                if bytes.len() == 0 {
                    assert(self@ + bytes@ =~= self@);
                    false
                } else {
                    self.append(bytes);
                    true
                }
            },
            ReadOutcome::Failed => false,
        }
    }

    /// Hands out everything the buffer holds and leaves it empty.
    pub fn take(&mut self) -> (contents: Vec<u8>)
        ensures
            contents@ == old(self)@,
            final(self)@ == Seq::<u8>::empty(),
            final(self).limit() == old(self).limit(),
    {
        let mut contents: Vec<u8> = Vec::new();
        std::mem::swap(&mut self.data, &mut contents);
        contents
    }
}

/// What the drain loop of one session has captured and not yet handed to
/// the registry, and whether it has seen the stream end.
pub struct DrainInbox {
    captured: OutputBuffer,
    ended: bool,
}

impl DrainInbox {
    /// The bytes captured and not yet handed on, oldest first.
    pub closed spec fn captured(&self) -> Seq<u8> {
        self.captured@
    }

    /// Whether a read has ended the stream.
    pub closed spec fn has_ended(&self) -> bool {
        self.ended
    }

    /// The most bytes the inbox ever holds.
    pub closed spec fn limit(&self) -> nat {
        self.captured.limit()
    }

    /// An empty inbox with the capacity of a session buffer, for a stream
    /// that has not ended.
    pub fn new() -> (inbox: Self)
        ensures
            inbox.captured() == Seq::<u8>::empty(),
            !inbox.has_ended(),
            inbox.limit() == SESSION_BUFFER_CAPACITY,
    {
        DrainInbox { captured: OutputBuffer::new(SESSION_BUFFER_CAPACITY), ended: false }
    }

    /// Takes in one read from the output stream, and says whether the drain
    /// loop should read on. The first read that fails or delivers nothing
    /// marks the stream as ended, for good.
    pub fn absorb(&mut self, outcome: ReadOutcome) -> (keep_reading: bool)
        ensures
            final(self).captured() == contents_after_read(
                old(self).captured(),
                outcome,
                old(self).limit(),
            ),
            final(self).has_ended() == (old(self).has_ended() || ends_stream(outcome)),
            final(self).limit() == old(self).limit(),
            final(self).captured().len() <= final(self).limit(),
            keep_reading == !ends_stream(outcome),
    {
        let keep_reading = self.captured.absorb(outcome);
        if !keep_reading {
            self.ended = true;
        }
        keep_reading
    }

    /// Whether a read has ended the stream.
    pub fn ended(&self) -> (ended: bool)
        ensures
            ended == self.has_ended(),
    {
        self.ended
    }

    /// Hands out what was captured and leaves the inbox empty; whether the
    /// stream has ended stays on record.
    pub fn take(&mut self) -> (bytes: Vec<u8>)
        ensures
            bytes@ == old(self).captured(),
            final(self).captured() == Seq::<u8>::empty(),
            final(self).has_ended() == old(self).has_ended(),
            final(self).limit() == old(self).limit(),
    {
        self.captured.take()
    }
}

} // verus!

use vstd::prelude::*;

verus! {

/// How many bytes one read moves out of `pending` into a buffer with room for `cap` bytes.
pub open spec fn read_len(pending: Seq<u8>, cap: int) -> int {
    if pending.len() < cap {
        pending.len() as int
    } else {
        cap
    }
}

/// The buffer `buf` after its first `n` bytes were overwritten by the first `n` bytes of `src`.
pub open spec fn overwrite_prefix(buf: Seq<u8>, src: Seq<u8>, n: int) -> Seq<u8> {
    src.subrange(0, n) + buf.subrange(n, buf.len() as int)
}

/// The bytes a read hands out when `chunk` arrives behind `pending` and the
/// user's buffer has room for `cap` bytes (an empty `chunk` is a read of pending bytes only).
pub open spec fn step_delivered(pending: Seq<u8>, chunk: Seq<u8>, cap: nat) -> Seq<u8> {
    let all = pending + chunk;
    all.subrange(0, read_len(all, cap as int))
}

/// The bytes left pending after that read.
pub open spec fn step_rest(pending: Seq<u8>, chunk: Seq<u8>, cap: nat) -> Seq<u8> {
    let all = pending + chunk;
    all.subrange(read_len(all, cap as int), all.len() as int)
}

/// All bytes handed out by a run of reads, each step a received message and a buffer size.
pub open spec fn run_delivered(pending: Seq<u8>, steps: Seq<(Seq<u8>, nat)>) -> Seq<u8>
    decreases steps.len(),
{
    if steps.len() == 0 {
        Seq::empty()
    } else {
        step_delivered(pending, steps[0].0, steps[0].1) + run_delivered(
            step_rest(pending, steps[0].0, steps[0].1),
            steps.drop_first(),
        )
    }
}

/// The bytes left pending after a run of reads.
pub open spec fn run_rest(pending: Seq<u8>, steps: Seq<(Seq<u8>, nat)>) -> Seq<u8>
    decreases steps.len(),
{
    if steps.len() == 0 {
        pending
    } else {
        run_rest(step_rest(pending, steps[0].0, steps[0].1), steps.drop_first())
    }
}

/// All messages received during a run, one after the other.
pub open spec fn run_received(steps: Seq<(Seq<u8>, nat)>) -> Seq<u8>
    decreases steps.len(),
{
    if steps.len() == 0 {
        Seq::empty()
    } else {
        steps[0].0 + run_received(steps.drop_first())
    }
}

/// One read loses and repeats no byte: what it hands out, followed by what stays
/// pending, is exactly the pending bytes followed by the message received.
pub proof fn lemma_read_conserves_bytes(pending: Seq<u8>, chunk: Seq<u8>, cap: nat)
    ensures
        step_delivered(pending, chunk, cap) + step_rest(pending, chunk, cap) == pending + chunk,
        step_delivered(pending, chunk, cap).len() <= cap,
{
    let all = pending + chunk;
    assert(all.subrange(0, read_len(all, cap as int)) + all.subrange(
        read_len(all, cap as int),
        all.len() as int,
    ) =~= all);
}

/// A read into a non-empty buffer, with bytes pending or arriving, hands out at least
/// one byte, and it hands out all of them when they fit.
pub proof fn lemma_read_progress(pending: Seq<u8>, chunk: Seq<u8>, cap: nat)
    ensures
        cap > 0 && (pending + chunk).len() > 0 ==> step_delivered(pending, chunk, cap).len() > 0,
        (pending + chunk).len() <= cap ==> step_rest(pending, chunk, cap).len() == 0,
{
}

/// A read hands out as many bytes as it can: all of the buffer's room when at least
/// that many bytes are pending or arriving, and every one of them otherwise; it never
/// hands out more than either.
pub proof fn lemma_read_fills_buffer(pending: Seq<u8>, chunk: Seq<u8>, cap: nat)
    ensures
        (pending + chunk).len() >= cap ==> step_delivered(pending, chunk, cap).len() == cap,
        (pending + chunk).len() < cap ==> step_delivered(pending, chunk, cap) == pending + chunk,
        read_len(pending, cap as int) <= cap && read_len(pending, cap as int) <= pending.len(),
        read_len(pending, cap as int) == cap || read_len(pending, cap as int) == pending.len(),
{
    let all = pending + chunk;
    assert(all.len() < cap ==> all.subrange(0, all.len() as int) =~= all);
}

/// The reader is a byte stream: over any run of reads, the bytes handed out, followed
/// by those still pending, are the initially pending bytes followed by every received
/// message, in the order received.
pub proof fn lemma_stream_order(pending: Seq<u8>, steps: Seq<(Seq<u8>, nat)>)
    ensures
        run_delivered(pending, steps) + run_rest(pending, steps) == pending + run_received(steps),
    decreases steps.len(),
{
    if steps.len() > 0 {
        let chunk = steps[0].0;
        let cap = steps[0].1;
        let rest = step_rest(pending, chunk, cap);
        lemma_read_conserves_bytes(pending, chunk, cap);
        lemma_stream_order(rest, steps.drop_first());
        let d = step_delivered(pending, chunk, cap);
        let r = run_delivered(rest, steps.drop_first());
        let q = run_rest(rest, steps.drop_first());
        let later = run_received(steps.drop_first());
        assert((d + r) + q =~= d + (r + q));
        assert(d + (rest + later) =~= (d + rest) + later);
        assert((pending + chunk) + later =~= pending + (chunk + later));
    } else {
        assert(Seq::<u8>::empty() + pending =~= pending + Seq::<u8>::empty());
    }
}

/// Reading through `fill_buf` and `consume` gives what a read gives: the bytes a read
/// of room `cap` hands out are the first ones `fill_buf` shows, and consuming that
/// many leaves what the read leaves.
pub proof fn lemma_fill_consume_matches_read(pending: Seq<u8>, cap: nat)
    ensures
        step_delivered(pending, Seq::empty(), cap) == pending.subrange(
            0,
            read_len(pending, cap as int),
        ),
        step_rest(pending, Seq::empty(), cap) == pending.subrange(
            read_len(pending, cap as int),
            pending.len() as int,
        ),
{
    assert(pending + Seq::<u8>::empty() =~= pending);
}

/// Whether every step of a run of the buffered interface is possible: each step
/// takes in a received message (`fill_chunk`; an empty one for a step that only
/// consumes) and then consumes at most the bytes then pending (`consume`).
pub open spec fn buffered_run_valid(pending: Seq<u8>, steps: Seq<(Seq<u8>, nat)>) -> bool
    decreases steps.len(),
{
    if steps.len() == 0 {
        true
    } else {
        let all = pending + steps[0].0;
        &&& steps[0].1 <= all.len()
        &&& buffered_run_valid(
            all.subrange(steps[0].1 as int, all.len() as int),
            steps.drop_first(),
        )
    }
}

/// The bytes consumed over a run of the buffered interface, in order.
pub open spec fn buffered_run_consumed(pending: Seq<u8>, steps: Seq<(Seq<u8>, nat)>) -> Seq<u8>
    decreases steps.len(),
{
    if steps.len() == 0 {
        Seq::empty()
    } else {
        let all = pending + steps[0].0;
        all.subrange(0, steps[0].1 as int) + buffered_run_consumed(
            all.subrange(steps[0].1 as int, all.len() as int),
            steps.drop_first(),
        )
    }
}

/// The bytes still pending after a run of the buffered interface.
pub open spec fn buffered_run_rest(pending: Seq<u8>, steps: Seq<(Seq<u8>, nat)>) -> Seq<u8>
    decreases steps.len(),
{
    if steps.len() == 0 {
        pending
    } else {
        let all = pending + steps[0].0;
        buffered_run_rest(all.subrange(steps[0].1 as int, all.len() as int), steps.drop_first())
    }
}

/// The buffered interface is a byte stream too: over any run of `fill_chunk` and
/// `consume` steps, each consuming at most what is pending, the bytes consumed,
/// followed by those still pending, are the initially pending bytes followed by
/// every message taken in, in the order taken in.
pub proof fn lemma_buffered_stream_order(pending: Seq<u8>, steps: Seq<(Seq<u8>, nat)>)
    requires
        buffered_run_valid(pending, steps),
    ensures
        buffered_run_consumed(pending, steps) + buffered_run_rest(pending, steps) == pending
            + run_received(steps),
    decreases steps.len(),
{
    if steps.len() > 0 {
        let chunk = steps[0].0;
        let amt = steps[0].1 as int;
        let all = pending + chunk;
        let rest = all.subrange(amt, all.len() as int);
        let d = all.subrange(0, amt);
        lemma_buffered_stream_order(rest, steps.drop_first());
        let r = buffered_run_consumed(rest, steps.drop_first());
        let q = buffered_run_rest(rest, steps.drop_first());
        let later = run_received(steps.drop_first());
        assert(d + rest =~= all);
        assert((d + r) + q =~= d + (r + q));
        assert(d + (rest + later) =~= (d + rest) + later);
        assert((pending + chunk) + later =~= pending + (chunk + later));
    } else {
        assert(Seq::<u8>::empty() + pending =~= pending + Seq::<u8>::empty());
    }
}

/// Copies the first `n` bytes of `src` over the first `n` bytes of `buf`.
fn copy_prefix(src: &[u8], buf: &mut [u8], n: usize)
    requires
        n <= src@.len(),
        n <= old(buf)@.len(),
    ensures
        final(buf)@ == overwrite_prefix(old(buf)@, src@, n as int),
{
    let ghost buf_len = buf@.len();
    let mut i: usize = 0;
    while i < n
        invariant
            n <= src@.len(),
            n <= buf_len,
            buf_len == old(buf)@.len(),
            i <= n,
            buf@.len() == buf_len,
            forall|k: int| 0 <= k < i ==> buf@[k] == src@[k],
            forall|k: int| i <= k < buf_len ==> buf@[k] == old(buf)@[k],
        decreases n - i,
    {
        buf[i] = src[i];
        i = i + 1;
    }
    assert(buf@ =~= overwrite_prefix(old(buf)@, src@, n as int));
}

/// The reading half of a websocket connection: the bytes of received messages
/// that were not handed to the reader's user yet.
pub struct WebSocketReader {
    remaining: Vec<u8>,
}

impl View for WebSocketReader {
    type V = Seq<u8>;

    closed spec fn view(&self) -> Seq<u8> {
        self.remaining@
    }
}

impl WebSocketReader {
    /// A reader that holds no pending bytes.
    pub fn new() -> (r: Self)
        ensures
            r@ == Seq::<u8>::empty(),
    {
        WebSocketReader { remaining: Vec::new() }
    }

    /// Moves as many pending bytes as fit into the front of `buf`, and returns how many.
    pub fn write_remaining(&mut self, buf: &mut [u8]) -> (n: usize)
        ensures
            n == read_len(old(self)@, old(buf)@.len() as int),
            n <= old(buf)@.len() && n <= old(self)@.len(),
            n == old(buf)@.len() || n == old(self)@.len(),
            final(buf)@ == overwrite_prefix(old(buf)@, old(self)@, n as int),
            final(self)@ == old(self)@.subrange(n as int, old(self)@.len() as int),
    {
        let buf_len = buf.len();
        let rem_len = self.remaining.len();
        let amount: usize = if rem_len < buf_len { rem_len } else { buf_len };
        copy_prefix(self.remaining.as_slice(), buf, amount);
        if amount == rem_len {
            self.remaining.clear();
            assert(self.remaining@ =~= old(self)@.subrange(amount as int, rem_len as int));
        } else {
            let rest = self.remaining.split_off(amount);
            self.remaining = rest;
        }
        amount
    }

    /// The part of a read that needs no new message: `None` when nothing is pending,
    /// so that a message must be received first; otherwise the pending bytes are
    /// moved into `buf` as by `write_remaining`, and their count comes back.
    pub fn read_buffered(&mut self, buf: &mut [u8]) -> (r: Option<usize>)
        ensures
            r is None <==> old(self)@.len() == 0,
            r is None ==> final(self)@ == old(self)@ && final(buf)@ == old(buf)@,
            r matches Some(n) ==> {
                &&& n == read_len(old(self)@, old(buf)@.len() as int)
                &&& n <= old(buf)@.len() && n <= old(self)@.len()
                &&& (n == old(buf)@.len() || n == old(self)@.len())
                &&& final(buf)@ == overwrite_prefix(old(buf)@, old(self)@, n as int)
                &&& final(self)@ == old(self)@.subrange(n as int, old(self)@.len() as int)
                &&& final(buf)@.subrange(0, n as int) == step_delivered(
                    old(self)@,
                    Seq::empty(),
                    old(buf)@.len(),
                )
                &&& final(self)@ == step_rest(old(self)@, Seq::empty(), old(buf)@.len())
            },
    {
        assert(old(self)@ + Seq::<u8>::empty() =~= old(self)@);
        if self.remaining.len() != 0 {
            Some(self.write_remaining(buf))
        } else {
            None
        }
    }

    /// A read that goes on with a message `array` just received: the reader's bytes
    /// are its pending bytes followed by the message; as many of them as fit go into
    /// `buf`, the rest stay pending, and the count comes back.
    pub fn read_chunk(&mut self, array: &[u8], buf: &mut [u8]) -> (n: usize)
        ensures
            n == read_len(old(self)@ + array@, old(buf)@.len() as int),
            n <= old(buf)@.len() && n <= old(self)@.len() + array@.len(),
            n == old(buf)@.len() || n == old(self)@.len() + array@.len(),
            final(buf)@ == overwrite_prefix(old(buf)@, old(self)@ + array@, n as int),
            final(self)@ == (old(self)@ + array@).subrange(
                n as int,
                (old(self)@ + array@).len() as int,
            ),
            final(buf)@.subrange(0, n as int) == step_delivered(old(self)@, array@, old(buf)@.len()),
            final(self)@ == step_rest(old(self)@, array@, old(buf)@.len()),
    {
        let array_length = array.len();
        if self.remaining.len() == 0 && array_length <= buf.len() {
            assert(old(self)@ + array@ =~= array@);
            copy_prefix(array, buf, array_length);
            assert(self@ =~= (old(self)@ + array@).subrange(
                array_length as int,
                array_length as int,
            ));
            array_length
        } else {
            self.append(array);
            self.write_remaining(buf)
        }
    }

    /// Adds the bytes of a received message behind the pending ones.
    fn append(&mut self, array: &[u8])
        ensures
            final(self)@ == old(self)@ + array@,
    {
        let mut i: usize = 0;
        while i < array.len()
            invariant
                i <= array@.len(),
                self.remaining@ == old(self)@ + array@.subrange(0, i as int),
            decreases array@.len() - i,
        {
            self.remaining.push(array[i]);
            i = i + 1;
            assert(self.remaining@ =~= old(self)@ + array@.subrange(0, i as int));
        }
        assert(array@.subrange(0, i as int) =~= array@);
    }

    /// The pending bytes, when there are any; `None` when a message must be received first.
    pub fn fill_buf(&self) -> (r: Option<&[u8]>)
        ensures
            r is None <==> self@.len() == 0,
            r matches Some(s) ==> s@ == self@,
    {
        if self.remaining.len() != 0 {
            Some(self.remaining.as_slice())
        } else {
            None
        }
    }

    /// Takes in a received message while filling the buffer; returns whether
    /// bytes are now pending (an empty message leaves the reader waiting).
    pub fn fill_chunk(&mut self, array: &[u8]) -> (ready: bool)
        ensures
            final(self)@ == old(self)@ + array@,
            ready == (final(self)@.len() > 0),
    {
        self.append(array);
        self.remaining.len() != 0
    }

    /// Drops the first `amt` pending bytes, which the user has read from `fill_buf`.
    pub fn consume(&mut self, amt: usize)
        requires
            amt <= old(self)@.len(),
        ensures
            final(self)@ == old(self)@.subrange(amt as int, old(self)@.len() as int),
    {
        if self.remaining.len() == amt {
            self.remaining.clear();
            assert(self@ =~= old(self)@.subrange(amt as int, amt as int));
            return;
        }
        let rest = self.remaining.split_off(amt);
        self.remaining = rest;
    }
}

} // verus!

//! The relay between a client and a target.

use vstd::prelude::*;


verus! {

broadcast use {
    vstd::seq::group_seq_axioms,
    vstd::slice::group_slice_axioms,
    vstd::std_specs::vec::group_vec_axioms,
};

/// The most that is read at once.
pub const RELAY_BUF_SIZE: usize = 65536;

/// How many buffers are kept for reuse.
pub const MAX_FREE_BUFFERS: usize = 32;

/// Buffers for reuse; the one that came back last goes out first.
#[derive(Debug)]
pub struct BufferPool<B> {
    pub free: Vec<B>,
}

impl<B> BufferPool<B> {
    /// No more buffers are kept than the limit.
    pub open spec fn wf(self) -> bool {
        self.free@.len() <= MAX_FREE_BUFFERS
    }

    /// A pool without buffers.
    pub fn new() -> (r: Self)
        ensures
            r.wf(),
            r.free@ == Seq::<B>::empty(),
    {
        BufferPool { free: Vec::new() }
    }

    /// Takes a buffer, if there is one.
    pub fn take(&mut self) -> (r: Option<B>)
        requires
            old(self).wf(),
        ensures
            final(self).wf(),
            old(self).free@.len() > 0 ==> r == Some(old(self).free@.last()) && final(self).free@
                == old(self).free@.drop_last(),
            old(self).free@.len() == 0 ==> r is None && final(self).free@ == old(self).free@,
    {
        self.free.pop()
    }

    /// Keeps a buffer, unless there are enough.
    pub fn give(&mut self, buf: B)
        requires
            old(self).wf(),
        ensures
            final(self).wf(),
            old(self).free@.len() < MAX_FREE_BUFFERS ==> final(self).free@ == old(self).free@.push(
                buf,
            ),
            old(self).free@.len() >= MAX_FREE_BUFFERS ==> final(self).free@ == old(self).free@,
    {
        if self.free.len() < MAX_FREE_BUFFERS {
            self.free.push(buf);
        }
    }
}

/// What one direction of the relay needs next.
#[derive(Debug)]
pub enum FlowStep {
    /// Write the pending bytes.
    Write,
    /// Read at most this many bytes.
    Read(usize),
    /// Nothing: everything that was read is written, and no more will come.
    Finished,
}

/// One direction of the relay.
#[derive(Debug)]
pub struct Flow {
    pub buf: Vec<u8>,
    pub pos: usize,
    /// The reader is at its end.
    pub done: bool,
    /// Bytes that were written.
    pub total: u64,
}

/// One direction of the relay.
#[verifier::ext_equal]
pub struct FlowModel {
    pub pending: Seq<u8>,
    pub done: bool,
    pub total: u64,
}

impl View for Flow {
    type V = FlowModel;

    open spec fn view(&self) -> FlowModel {
        FlowModel {
            pending: self.buf@.skip(self.pos as int),
            done: self.done,
            total: self.total,
        }
    }
}

/// The writer took no bytes.
#[derive(Debug)]
pub struct WriteZero;

/// A direction once bytes were read.
pub open spec fn flow_read(m: FlowModel, data: Seq<u8>) -> FlowModel {
    FlowModel { pending: data, ..m }
}

/// A direction once bytes were written.
pub open spec fn flow_wrote(m: FlowModel, n: int) -> FlowModel {
    FlowModel { pending: m.pending.skip(n), total: (m.total + n) as u64, ..m }
}

impl Flow {
    /// The position lies in the buffer.
    pub open spec fn wf(self) -> bool {
        self.pos <= self.buf@.len()
    }

    /// A direction at its start.
    pub fn new() -> (r: Self)
        ensures
            r.wf(),
            r@ == (FlowModel { pending: seq![], done: false, total: 0 }),
    {
        let r = Flow { buf: Vec::new(), pos: 0, done: false, total: 0 };
        assert(r@.pending =~= seq![]);
        r
    }

    /// What is needed next. What was read is written before more is read.
    pub fn step(&self) -> (r: FlowStep)
        requires
            self.wf(),
        ensures
            is_due(self@, r),
    {
        if self.pos < self.buf.len() {
            FlowStep::Write
        } else if self.done {
            FlowStep::Finished
        } else {
            FlowStep::Read(RELAY_BUF_SIZE)
        }
    }

    /// The bytes that are to be written.
    pub fn pending(&self) -> (r: &[u8])
        requires
            self.wf(),
        ensures
            r@ == self@.pending,
    {
        let r = vstd::slice::slice_subrange(self.buf.as_slice(), self.pos, self.buf.len());
        assert(r@ =~= self@.pending);
        r
    }

    /// Bytes were read; none means that the reader is at its end, and the
    /// answer is then yes: the writer is to be shut down.
    pub fn on_read(&mut self, data: &[u8]) -> (r: bool)
        requires
            old(self).wf(),
            old(self)@.pending.len() == 0,
            !old(self)@.done,
        ensures
            final(self).wf(),
            took(old(self)@, data@, r, final(self)@),
    {
        if data.len() == 0 {
            self.done = true;
            return true;
        }
        self.buf = vstd::slice::slice_to_vec(data);
        self.pos = 0;
        assert(self@.pending =~= data@);
        false
    }

    /// The writer took so many of the pending bytes.
    pub fn on_wrote(&mut self, n: usize) -> (r: Result<(), WriteZero>)
        requires
            old(self).wf(),
            n <= old(self)@.pending.len(),
            old(self)@.total + n <= u64::MAX,
        ensures
            final(self).wf(),
            gave(old(self)@, n, r, final(self)@),
    {
        if n == 0 {
            return Err(WriteZero);
        }
        assert(self.buf.len() == self.buf@.len());
        self.pos = self.pos + n;
        self.total = self.total + n as u64;
        assert(self@.pending =~= old(self)@.pending.skip(n as int));
        Ok(())
    }
}

/// What is said of both directions once both are finished: how many bytes went
/// each way.
pub open spec fn totals(there: FlowModel, back: FlowModel) -> Option<(u64, u64)> {
    if there.done && there.pending.len() == 0 && back.done && back.pending.len() == 0 {
        Some((there.total, back.total))
    } else {
        None
    }
}

/// Both directions of the relay.
#[derive(Debug)]
pub struct Relay {
    pub a_to_b: Flow,
    pub b_to_a: Flow,
}

impl Relay {
    /// The positions lie in the buffers.
    pub open spec fn wf(self) -> bool {
        self.a_to_b.wf() && self.b_to_a.wf()
    }

    /// A relay at its start.
    pub fn new() -> (r: Self)
        ensures
            r.wf(),
            r.a_to_b@ == (FlowModel { pending: seq![], done: false, total: 0 }),
            r.b_to_a@ == (FlowModel { pending: seq![], done: false, total: 0 }),
    {
        Relay { a_to_b: Flow::new(), b_to_a: Flow::new() }
    }

    /// The bytes of both directions, once both are finished.
    pub fn poll(&self) -> (r: Option<(u64, u64)>)
        requires
            self.wf(),
        ensures
            r == totals(self.a_to_b@, self.b_to_a@),
    {
        let a = self.a_to_b.done && self.a_to_b.pos >= self.a_to_b.buf.len();
        let b = self.b_to_a.done && self.b_to_a.pos >= self.b_to_a.buf.len();
        if a && b {
            Some((self.a_to_b.total, self.b_to_a.total))
        } else {
            None
        }
    }
}

/// No byte is lost or counted twice: what was written and what is pending
/// grow by what is read, and stay the same when it is written.
pub proof fn law_bytes_are_conserved(m: FlowModel, data: Seq<u8>, n: int)
    requires
        m.pending.len() == 0,
        0 <= n <= data.len(),
        m.total + n <= u64::MAX,
    ensures
        ({
            let read = flow_read(m, data);
            let wrote = flow_wrote(read, n);
            &&& read.total + read.pending.len() == m.total + data.len()
            &&& wrote.total + wrote.pending.len() == read.total + read.pending.len()
            &&& data.take(n) + wrote.pending == data
        }),
{
    assert(data.take(n) + data.skip(n) =~= data);
}

// ---------------------------------------------------------------------------
// Laws of a whole run
// ---------------------------------------------------------------------------

/// What the reader and the writer bring to each step of a run: how many bytes
/// the one has at hand, and how many the other takes. It is always one at
/// least.
pub struct Script {
    pub at_hand: spec_fn(int) -> nat,
    pub takes: spec_fn(int) -> nat,
}

/// So many, but one at least and no more than there are.
pub open spec fn some_of(n: nat, most: nat) -> nat {
    if n == 0 && most > 0 {
        1
    } else if n < most {
        n
    } else {
        most
    }
}

/// One direction on its way: what the reader still has, and what the writer
/// got.
#[verifier::ext_equal]
pub struct Run {
    pub flow: FlowModel,
    pub unread: Seq<u8>,
    pub written: Seq<u8>,
}

/// A direction at its start, with all that the reader will have.
pub open spec fn started(input: Seq<u8>) -> Run {
    Run {
        flow: FlowModel { pending: seq![], done: false, total: 0 },
        unread: input,
        written: seq![],
    }
}

/// A direction after its next step: what is pending is written first, then
/// more is read, and a reader without more is at its end.
pub open spec fn stepped(run: Run, s: Script, t: int) -> Run {
    let m = run.flow;
    if m.pending.len() > 0 {
        let k = some_of((s.takes)(t), m.pending.len()) as int;
        Run { flow: flow_wrote(m, k), written: run.written + m.pending.take(k), ..run }
    } else if m.done {
        run
    } else if run.unread.len() > 0 {
        let most = if run.unread.len() < RELAY_BUF_SIZE {
            run.unread.len()
        } else {
            RELAY_BUF_SIZE as nat
        };
        let k = some_of((s.at_hand)(t), most) as int;
        Run { flow: flow_read(m, run.unread.take(k)), unread: run.unread.skip(k), ..run }
    } else {
        Run { flow: FlowModel { done: true, ..m }, ..run }
    }
}

/// A direction after so many steps.
pub open spec fn run(input: Seq<u8>, s: Script, steps: nat) -> Run
    decreases steps,
{
    if steps == 0 {
        started(input)
    } else {
        stepped(run(input, s, (steps - 1) as nat), s, steps - 1)
    }
}

/// At every point of a run, wherever it breaks off, what was written, what is
/// pending and what is unread are the reader's bytes, in order and each once;
/// the total is the number of those written. The end is seen only behind the
/// last byte, once that is written.
pub proof fn law_no_byte_is_lost(input: Seq<u8>, s: Script, steps: nat)
    requires
        input.len() <= u64::MAX,
    ensures
        ({
            let r = run(input, s, steps);
            &&& r.written + r.flow.pending + r.unread == input
            &&& r.flow.total == r.written.len()
            &&& r.flow.done ==> r.flow.pending.len() == 0 && r.written == input
        }),
    decreases steps,
{
    if steps == 0 {
        assert(Seq::<u8>::empty() + Seq::<u8>::empty() + input =~= input);
    } else {
        let t = steps - 1;
        law_no_byte_is_lost(input, s, t as nat);
        let before = run(input, s, t as nat);
        let after = run(input, s, steps);
        let pending = before.flow.pending;
        assert(input.len() == before.written.len() + pending.len() + before.unread.len());
        if pending.len() > 0 {
            let k = some_of((s.takes)(t), pending.len()) as int;
            assert(pending.take(k) + pending.skip(k) =~= pending);
            assert(after.written + after.flow.pending + after.unread =~= before.written + pending
                + before.unread);
        } else if before.flow.done {
        } else if before.unread.len() > 0 {
            assert(after.written + after.flow.pending + after.unread =~= before.written + pending
                + before.unread);
        } else {
            assert(after.written =~= before.written + pending + before.unread);
        }
    }
}

/// Steps that a direction needs at most.
spec fn steps_left(r: Run) -> int {
    2 * r.unread.len() + r.flow.pending.len() + (if r.flow.done {
        0int
    } else {
        1int
    })
}

proof fn lemma_steps_left(input: Seq<u8>, s: Script, steps: nat)
    requires
        input.len() <= u64::MAX,
    ensures
        steps_left(run(input, s, steps)) == 0 || steps_left(run(input, s, steps)) + steps <= 2
            * input.len() + 1,
    decreases steps,
{
    if steps > 0 {
        lemma_steps_left(input, s, (steps - 1) as nat);
        law_no_byte_is_lost(input, s, (steps - 1) as nat);
        let before = run(input, s, (steps - 1) as nat);
        assert(input.len() == before.written.len() + before.flow.pending.len()
            + before.unread.len());
    }
}

/// A run comes to its end however little is at hand or taken at a time: the
/// bytes that were written are then exactly those of the reader, and the total
/// is their number.
pub proof fn law_every_byte_is_carried(input: Seq<u8>, s: Script, steps: nat)
    requires
        input.len() <= u64::MAX,
        steps > 2 * input.len(),
    ensures
        ({
            let r = run(input, s, steps);
            &&& r.flow == (FlowModel { pending: seq![], done: true, total: input.len() as u64 })
            &&& r.written == input
            &&& r.unread.len() == 0
        }),
{
    lemma_steps_left(input, s, steps);
    law_no_byte_is_lost(input, s, steps);
    assert(run(input, s, steps).flow.pending =~= seq![]);
}

/// Whenever the relay says that it is over, each side got exactly what the
/// other one had, and the counts are the numbers of those bytes. It says so
/// once both runs had their steps, however they take turns.
pub proof fn law_relay_carries_both_ways(
    a: Seq<u8>,
    b: Seq<u8>,
    s: Script,
    back: Script,
    there_steps: nat,
    back_steps: nat,
)
    requires
        a.len() <= u64::MAX,
        b.len() <= u64::MAX,
    ensures
        ({
            let there = run(a, s, there_steps);
            let other = run(b, back, back_steps);
            let over = totals(there.flow, other.flow);
            &&& over matches Some(n) ==> {
                &&& n == (a.len() as u64, b.len() as u64)
                &&& there.written == a
                &&& other.written == b
            }
            &&& there_steps > 2 * a.len() && back_steps > 2 * b.len() ==> over is Some
        }),
{
    law_no_byte_is_lost(a, s, there_steps);
    law_no_byte_is_lost(b, back, back_steps);
    if there_steps > 2 * a.len() && back_steps > 2 * b.len() {
        law_every_byte_is_carried(a, s, there_steps);
        law_every_byte_is_carried(b, back, back_steps);
    }
}

/// What is to be done next for one direction.
pub open spec fn is_due(m: FlowModel, r: FlowStep) -> bool {
    &&& m.pending.len() > 0 ==> r is Write
    &&& m.pending.len() == 0 && m.done ==> r is Finished
    &&& m.pending.len() == 0 && !m.done ==> r == FlowStep::Read(RELAY_BUF_SIZE)
}

/// What it comes to that `data` was read.
pub open spec fn took(m: FlowModel, data: Seq<u8>, r: bool, after: FlowModel) -> bool {
    &&& r == (data.len() == 0)
    &&& data.len() > 0 ==> after == flow_read(m, data)
    &&& data.len() == 0 ==> after == (FlowModel { done: true, ..m })
}

/// What it comes to that `n` bytes were written.
pub open spec fn gave(m: FlowModel, n: usize, r: Result<(), WriteZero>, after: FlowModel) -> bool {
    &&& r is Ok == (n > 0)
    &&& n > 0 ==> after == flow_wrote(m, n as int)
    &&& n == 0 ==> after == m
}

/// What was read is written before more is read, and a direction is finished only when its
/// source has ended and all is written.
pub proof fn law_written_before_more_is_read(m: FlowModel, r: FlowStep)
    requires
        is_due(m, r),
    ensures
        r is Write <==> m.pending.len() > 0,
        r matches FlowStep::Read(n) ==> n == 65536 && m.pending.len() == 0 && !m.done,
        r is Finished <==> m.done && m.pending.len() == 0,
{
}

/// A read hands on the bytes as they are, and an empty one is the end of the source, after which
/// nothing else has changed.
pub proof fn law_read_bytes_are_handed_on(m: FlowModel, data: Seq<u8>, r: bool, after: FlowModel)
    requires
        m.pending.len() == 0,
        took(m, data, r, after),
    ensures
        r <==> data.len() == 0,
        after.pending == data,
        after.total == m.total,
        after.done == (m.done || data.len() == 0),
{
    assert(data.len() == 0 ==> m.pending =~= data);
}

/// The bytes that were written are counted and those that were not are kept, in order; a
/// transport that takes nothing is an error.
pub proof fn law_written_bytes_are_counted(
    m: FlowModel,
    n: usize,
    r: Result<(), WriteZero>,
    after: FlowModel,
)
    requires
        n <= m.pending.len(),
        m.total + n <= u64::MAX,
        gave(m, n, r, after),
    ensures
        r is Err <==> n == 0,
        after.total == m.total + n,
        m.pending.take(n as int) + after.pending == m.pending,
        after.done == m.done,
{
    assert(m.pending.take(n as int) + m.pending.skip(n as int) =~= m.pending);
    assert(m.pending.take(0) + m.pending =~= m.pending);
}

} // verus!

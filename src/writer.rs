//! The ordered writer: chunks arrive in any order and leave in the order of
//! the write plan, so that each file is appended to from its start.
use vstd::prelude::*;
use crate::error::InstallError;
use crate::plan::{step_views, StepView, WriteStep};

verus! {

/// A fetched chunk on its way to disk, with what it carries (its bytes,
/// and whatever must be released once they are written).
pub struct Arrival<T> {
    pub id: u16,
    pub sha: String,
    pub file_path: String,
    pub payload: T,
}

/// What an arrival holds.
pub struct ArrivalView<T> {
    pub id: u16,
    pub sha: Seq<char>,
    pub file_path: Seq<char>,
    pub payload: T,
}

impl<T> View for Arrival<T> {
    type V = ArrivalView<T>;

    open spec fn view(&self) -> ArrivalView<T> {
        ArrivalView { id: self.id, sha: self.sha@, file_path: self.file_path@, payload: self.payload }
    }
}

/// One append to make: the chunk's payload goes at the end of the file,
/// which is then closed if this was its last chunk.
pub struct WriteOp<T> {
    pub file_path: String,
    pub payload: T,
    pub close: bool,
}

/// What an append holds.
pub struct OpView<T> {
    pub file_path: Seq<char>,
    pub payload: T,
    pub close: bool,
}

impl<T> View for WriteOp<T> {
    type V = OpView<T>;

    open spec fn view(&self) -> OpView<T> {
        OpView { file_path: self.file_path@, payload: self.payload, close: self.close }
    }
}

/// Whether a buffered chunk is the one that a plan step asks for.
pub open spec fn answers<T>(a: ArrivalView<T>, s: StepView) -> bool {
    a.id == s.id && a.sha == s.sha
}

/// Whether `k` is the first buffered chunk that answers the step.
pub open spec fn first_answer<T>(buf: Seq<ArrivalView<T>>, s: StepView, k: int) -> bool {
    0 <= k < buf.len() && answers(buf[k], s) && forall|j: int| 0 <= j < k ==> !answers(#[trigger] buf[j], s)
}

/// Whether some buffered chunk answers the step.
pub open spec fn has_answer<T>(buf: Seq<ArrivalView<T>>, s: StepView) -> bool {
    exists|k: int| 0 <= k < buf.len() && answers(#[trigger] buf[k], s)
}

/// What draining the buffer against the plan gives: the appends, in order,
/// the number of plan steps they take, and what stays buffered.
pub struct Drained<T> {
    pub ops: Seq<OpView<T>>,
    pub consumed: nat,
    pub rest: Seq<ArrivalView<T>>,
}

/// Drains the buffer: while the plan's head step is answered by a buffered
/// chunk, the first such chunk leaves the buffer as the next append.
pub open spec fn drain<T>(plan: Seq<StepView>, buf: Seq<ArrivalView<T>>) -> Drained<T>
    decreases plan.len(),
{
    if plan.len() == 0 || !has_answer(buf, plan[0]) {
        Drained { ops: Seq::empty(), consumed: 0, rest: buf }
    } else {
        let k = choose|k: int| first_answer(buf, plan[0], k);
        let op = OpView { file_path: buf[k].file_path, payload: buf[k].payload, close: plan[0].is_last };
        let d = drain(plan.drop_first(), buf.remove(k));
        Drained { ops: seq![op] + d.ops, consumed: d.consumed + 1, rest: d.rest }
    }
}

/// Whether an append carries a buffered chunk that answers the step.
pub open spec fn carries_answer<T>(buf: Seq<ArrivalView<T>>, op: OpView<T>, s: StepView) -> bool {
    exists|j: int|
        0 <= j < buf.len() && answers(#[trigger] buf[j], s) && buf[j].payload == op.payload
            && buf[j].file_path == op.file_path
}

/// Appends follow the plan: the i-th append of a drain carries a buffered
/// chunk with the id and hash of the i-th step of the plan, to that chunk's
/// file, and closes the file exactly when the step is the file's last. So
/// each file is appended to in the order in which the plan lists its chunks.
pub proof fn lemma_drain_follows_plan<T>(plan: Seq<StepView>, buf: Seq<ArrivalView<T>>)
    ensures
        drain(plan, buf).consumed == drain(plan, buf).ops.len(),
        drain(plan, buf).consumed <= plan.len(),
        forall|i: int|
            0 <= i < drain(plan, buf).ops.len() ==> (#[trigger] drain(plan, buf).ops[i]).close
                == plan[i].is_last && carries_answer(buf, drain(plan, buf).ops[i], plan[i]),
    decreases plan.len(),
{
    if plan.len() > 0 && has_answer(buf, plan[0]) {
        let k = choose|k: int| first_answer(buf, plan[0], k);
        lemma_first_answer_exists(buf, plan[0]);
        let rest = buf.remove(k);
        lemma_drain_follows_plan(plan.drop_first(), rest);
        let d = drain(plan.drop_first(), rest);
        assert forall|i: int| 0 <= i < drain(plan, buf).ops.len() implies (#[trigger] drain(
            plan,
            buf,
        ).ops[i]).close == plan[i].is_last && carries_answer(buf, drain(plan, buf).ops[i], plan[i]) by {
            let op = drain(plan, buf).ops[i];
            if i > 0 {
                assert(op == d.ops[i - 1]);
                assert(plan.drop_first()[i - 1] == plan[i]);
                assert(carries_answer(rest, op, plan[i]));
                let j = choose|j: int|
                    0 <= j < rest.len() && answers(#[trigger] rest[j], plan[i]) && rest[j].payload
                        == op.payload && rest[j].file_path == op.file_path;
                if j < k {
                    assert(buf[j] == rest[j]);
                } else {
                    assert(buf[j + 1] == rest[j]);
                }
            } else {
                assert(answers(buf[k], plan[0]));
            }
        }
    }
}

/// Where some buffered chunk answers a step, a first one does.
proof fn lemma_first_answer_exists<T>(buf: Seq<ArrivalView<T>>, s: StepView)
    requires
        has_answer(buf, s),
    ensures
        exists|k: int| first_answer(buf, s, k),
{
    let k0 = choose|k: int| 0 <= k < buf.len() && answers(#[trigger] buf[k], s);
    lemma_first_answer_below(buf, s, k0);
}

/// Below any answer there is a first one.
proof fn lemma_first_answer_below<T>(buf: Seq<ArrivalView<T>>, s: StepView, k: int)
    requires
        0 <= k < buf.len(),
        answers(buf[k], s),
    ensures
        exists|m: int| first_answer(buf, s, m),
    decreases k,
{
    if exists|j: int| 0 <= j < k && answers(#[trigger] buf[j], s) {
        let j = choose|j: int| 0 <= j < k && answers(#[trigger] buf[j], s);
        lemma_first_answer_below(buf, s, j);
    } else {
        assert(first_answer(buf, s, k));
    }
}

/// Two first answers are the same.
proof fn lemma_first_answer_unique<T>(buf: Seq<ArrivalView<T>>, s: StepView, a: int, b: int)
    requires
        first_answer(buf, s, a),
        first_answer(buf, s, b),
    ensures
        a == b,
{
    if a < b {
        assert(!answers(buf[a], s));
    } else if b < a {
        assert(!answers(buf[b], s));
    }
}

/// What the chunks of an arrival sequence hold.
pub open spec fn arrival_views<T>(s: Seq<Arrival<T>>) -> Seq<ArrivalView<T>> {
    s.map_values(|a: Arrival<T>| a@)
}

/// What a sequence of appends holds.
pub open spec fn op_views<T>(s: Seq<WriteOp<T>>) -> Seq<OpView<T>> {
    s.map_values(|o: WriteOp<T>| o@)
}

/// Buffers arriving chunks and hands them out in the order of the write
/// plan.
pub struct OrderedWriter<T> {
    plan: Vec<WriteStep>,
    next: usize,
    buffer: Vec<Arrival<T>>,
}

impl<T> OrderedWriter<T> {
    /// The steps of the plan that are still to be written.
    pub closed spec fn remaining(&self) -> Seq<StepView> {
        step_views(self.plan@).subrange(self.next as int, self.plan@.len() as int)
    }

    /// The chunks that arrived and wait for their turn.
    pub closed spec fn buffered(&self) -> Seq<ArrivalView<T>> {
        arrival_views(self.buffer@)
    }

    pub closed spec fn wf(&self) -> bool {
        self.next <= self.plan@.len()
    }

    /// A writer for a plan, with nothing buffered.
    pub fn new(plan: Vec<WriteStep>) -> (r: OrderedWriter<T>)
        ensures
            r.wf(),
            r.remaining() == step_views(plan@),
            r.buffered() == Seq::<ArrivalView<T>>::empty(),
    {
        let r = OrderedWriter { plan, next: 0, buffer: Vec::new() };
        assert(r.remaining() =~= step_views(r.plan@));
        assert(r.buffered() =~= Seq::<ArrivalView<T>>::empty());
        r
    }

    /// Whether every step of the plan has been written.
    pub fn is_done(&self) -> (r: bool)
        requires
            self.wf(),
        ensures
            r == (self.remaining().len() == 0),
    {
        self.next >= self.plan.len()
    }

    /// How the writer ends once no more chunks can arrive: fine if the plan
    /// is written out, else `Truncated`.
    pub fn finish(&self) -> (r: Result<(), InstallError>)
        requires
            self.wf(),
        ensures
            r == (if self.remaining().len() == 0 {
                Ok(())
            } else {
                Err(InstallError::Truncated)
            }),
    {
        if self.is_done() {
            Ok(())
        } else {
            Err(InstallError::Truncated)
        }
    }

    /// The result of the whole operation once writing stops: `ChunkFetch`
    /// where a fetch failed (which aborts the operation), else
    /// `ChunkCorrupted` where a chunk failed its check, else `Truncated` where
    /// the plan is not written out, else success.
    pub fn outcome(&self, any_corrupted: bool, fetch_failed: bool) -> (r: Result<(), InstallError>)
        requires
            self.wf(),
        ensures
            r == (if fetch_failed {
                Err(InstallError::ChunkFetch)
            } else if any_corrupted {
                Err(InstallError::ChunkCorrupted)
            } else if self.remaining().len() == 0 {
                Ok(())
            } else {
                Err(InstallError::Truncated)
            }),
    {
        if fetch_failed {
            Err(InstallError::ChunkFetch)
        } else if any_corrupted {
            Err(InstallError::ChunkCorrupted)
        } else {
            self.finish()
        }
    }

    /// Position of the first buffered chunk that answers the plan's step
    /// `n`.
    fn find_buffered(&self, n: usize) -> (r: Option<usize>)
        requires
            self.wf(),
            n < self.plan@.len(),
        ensures
            r is None ==> !has_answer(self.buffered(), step_views(self.plan@)[n as int]),
            r matches Some(k) ==> first_answer(self.buffered(), step_views(self.plan@)[n as int], k as int),
    {
        let ghost s = step_views(self.plan@)[n as int];
        let ghost buf = self.buffered();
        let step = &self.plan[n];
        let mut k: usize = 0;
        while k < self.buffer.len()
            invariant
                buf == self.buffered(),
                buf.len() == self.buffer@.len(),
                n < self.plan@.len(),
                s == step_views(self.plan@)[n as int],
                s == step@,
                k <= buf.len(),
                forall|j: int| 0 <= j < k ==> !answers(#[trigger] buf[j], s),
            decreases buf.len() - k,
        {
            let a = &self.buffer[k];
            if a.id == step.id && a.sha == step.sha {
                assert(buf[k as int] == a@);
                return Some(k);
            }
            assert(buf[k as int] == a@);
            k = k + 1;
        }
        None
    }

    /// Takes in a chunk that arrived and returns the appends that are now
    /// due, in plan order: the buffer, with the chunk added, is drained
    /// against the remaining plan.
    pub fn receive(&mut self, arrival: Arrival<T>) -> (r: Vec<WriteOp<T>>)
        requires
            old(self).wf(),
        ensures
            final(self).wf(),
            op_views(r@) == drain(old(self).remaining(), old(self).buffered().push(arrival@)).ops,
            final(self).remaining() == old(self).remaining().subrange(
                drain(old(self).remaining(), old(self).buffered().push(arrival@)).consumed as int,
                old(self).remaining().len() as int,
            ),
            final(self).buffered() == drain(
                old(self).remaining(),
                old(self).buffered().push(arrival@),
            ).rest,
    {
        let ghost plan0 = self.remaining();
        let ghost next0 = self.next as int;
        self.buffer.push(arrival);
        let ghost buf0 = self.buffered();
        assert(buf0 =~= old(self).buffered().push(arrival@));
        let mut ops: Vec<WriteOp<T>> = Vec::new();
        loop
            invariant
                self.wf(),
                self.plan@ == old(self).plan@,
                next0 <= self.next,
                plan0 == step_views(self.plan@).subrange(next0, self.plan@.len() as int),
                drain(plan0, buf0).ops == op_views(ops@) + drain(self.remaining(), self.buffered()).ops,
                drain(plan0, buf0).consumed == (self.next - next0) + drain(
                    self.remaining(),
                    self.buffered(),
                ).consumed,
                drain(plan0, buf0).rest == drain(self.remaining(), self.buffered()).rest,
            ensures
                self.wf(),
                self.plan@ == old(self).plan@,
                next0 <= self.next,
                plan0 == step_views(self.plan@).subrange(next0, self.plan@.len() as int),
                drain(plan0, buf0).ops == op_views(ops@),
                drain(plan0, buf0).consumed == (self.next - next0),
                drain(plan0, buf0).rest == self.buffered(),
            decreases self.plan@.len() - self.next,
        {
            if self.next >= self.plan.len() {
                proof {
                    let d = drain(self.remaining(), self.buffered());
                    assert(self.remaining().len() == 0);
                    assert(op_views(ops@) =~= op_views(ops@) + d.ops);
                }
                break;
            }
            let n = self.next;
            let ghost rem = self.remaining();
            let ghost buf = self.buffered();
            assert(rem[0] == step_views(self.plan@)[n as int]);
            match self.find_buffered(n) {
                None => {
                    proof {
                        let d = drain(self.remaining(), self.buffered());
                        assert(!has_answer(buf, rem[0]));
                        assert(op_views(ops@) =~= op_views(ops@) + d.ops);
                    }
                    break;
                },
                Some(k) => {
                    proof {
                        let kk = choose|k: int| first_answer(buf, rem[0], k);
                        lemma_first_answer_exists(buf, rem[0]);
                        lemma_first_answer_unique(buf, rem[0], kk, k as int);
                        assert(rem.drop_first() =~= step_views(self.plan@).subrange(
                            n + 1,
                            self.plan@.len() as int,
                        ));
                    }
                    let a = self.buffer.remove(k);
                    let close = self.plan[n].is_last;
                    let ghost before = ops@;
                    ops.push(WriteOp { file_path: a.file_path, payload: a.payload, close });
                    self.next = n + 1;
                    proof {
                        assert(self.buffered() =~= buf.remove(k as int));
                        assert(op_views(ops@) =~= op_views(before).push(ops@.last()@));
                        assert(op_views(ops@) + drain(self.remaining(), self.buffered()).ops
                            =~= op_views(before) + drain(rem, buf).ops);
                    }
                },
            }
        }
        proof {
            assert(self.remaining() =~= plan0.subrange(self.next - next0, plan0.len() as int));
        }
        ops
    }
}

} // verus!

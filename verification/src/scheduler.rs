//! Dual-queue dispatcher.
//!
//! Output-phase requests have absolute priority: each iteration drains the
//! output queue first, up to its slot budget and the block budget, and the
//! think queue fills what is left of the block budget up to the think slot
//! budget. Phase events move requests between the queues for the next
//! iteration, and a forced budget queues a `</think>` injection for the
//! worker, in arrival order.

use vstd::prelude::*;
use std::collections::VecDeque;

use crate::types::{PhaseEvent, Priority, RequestSlot, ScheduledBatch};

verus! {

/// Pending `</think>` injection scheduled by the router.
#[derive(Debug, Clone, Copy, PartialEq, Eq, Structural)]
pub struct PendingInjection {
    /// Target request.
    pub req_id: u64,
    /// Token id to inject as the next sampled token.
    pub token_id: u32,
}

/// `true` if `s[i]` is the first slot of `s` that belongs to `req_id`.
pub open spec fn is_first_slot_of(s: Seq<RequestSlot>, req_id: u64, i: int) -> bool {
    &&& 0 <= i < s.len()
    &&& s[i].req_id == req_id
    &&& forall|j: int| 0 <= j < i ==> s[j].req_id != req_id
}

/// `s` without the first slot that belongs to `req_id` (unchanged if none does).
pub open spec fn without_first_slot(s: Seq<RequestSlot>, req_id: u64) -> Seq<RequestSlot> {
    if exists|i: int| is_first_slot_of(s, req_id, i) {
        s.remove(choose|i: int| is_first_slot_of(s, req_id, i))
    } else {
        s
    }
}

/// `s` without any slot that belongs to `req_id`, the others in order.
pub open spec fn without_slots_of(s: Seq<RequestSlot>, req_id: u64) -> Seq<RequestSlot> {
    s.filter(|x: RequestSlot| x.req_id != req_id)
}

/// The smaller of two integers.
pub open spec fn min_of(a: int, b: int) -> int {
    if a <= b {
        a
    } else {
        b
    }
}

/// How many output slots an iteration dispatches: the output budget capped
/// by the block budget, and by what the queue holds.
pub open spec fn output_take(output_budget: int, available_blocks: int, queued: int) -> int {
    min_of(min_of(output_budget, available_blocks), queued)
}

/// How many think slots an iteration dispatches after `dispatched_output`
/// output slots: the think budget capped by the blocks left, and by what the
/// queue holds.
pub open spec fn think_take(think_budget: int, available_blocks: int, dispatched_output: int, queued: int) -> int {
    min_of(min_of(think_budget, available_blocks - dispatched_output), queued)
}

/// The phase-aware dual-queue scheduler.
#[derive(Debug)]
pub struct MeridianScheduler {
    output_queue: VecDeque<RequestSlot>,
    think_queue: VecDeque<RequestSlot>,
    pending_injections: VecDeque<PendingInjection>,
    iteration: u64,
}

impl MeridianScheduler {
    /// Output-phase slots, front first.
    pub closed spec fn output_slots(&self) -> Seq<RequestSlot> {
        self.output_queue@
    }

    /// Think-phase slots, front first.
    pub closed spec fn think_slots(&self) -> Seq<RequestSlot> {
        self.think_queue@
    }

    /// Pending injections, oldest first.
    pub closed spec fn pending(&self) -> Seq<PendingInjection> {
        self.pending_injections@
    }

    /// Completed schedule iterations (wrapping).
    pub closed spec fn iterations(&self) -> u64 {
        self.iteration
    }

    /// An empty scheduler.
    pub fn new() -> (s: Self)
        ensures
            s.output_slots() == Seq::<RequestSlot>::empty(),
            s.think_slots() == Seq::<RequestSlot>::empty(),
            s.pending() == Seq::<PendingInjection>::empty(),
            s.iterations() == 0,
    {
        MeridianScheduler {
            output_queue: VecDeque::new(),
            think_queue: VecDeque::new(),
            pending_injections: VecDeque::new(),
            iteration: 0,
        }
    }

    /// Admit a fresh request as a think-phase slot at `Normal` priority.
    pub fn admit_request(&mut self, req_id: u64)
        ensures
            final(self).think_slots() == old(self).think_slots().push(
                RequestSlot { req_id, priority: Priority::Normal },
            ),
            final(self).output_slots() == old(self).output_slots(),
            final(self).pending() == old(self).pending(),
            final(self).iterations() == old(self).iterations(),
    {
        self.think_queue.push_back(RequestSlot { req_id, priority: Priority::Normal });
    }

    /// Take up to `n` slots from the front of `q`, in order.
    fn drain_front(q: &mut VecDeque<RequestSlot>, n: usize) -> (taken: Vec<RequestSlot>)
        ensures
            taken@.len() == min_of(n as int, old(q)@.len() as int),
            taken@ == old(q)@.take(taken@.len() as int),
            final(q)@ == old(q)@.skip(taken@.len() as int),
    {
        let mut taken: Vec<RequestSlot> = Vec::new();
        let mut k: usize = 0;
        while k < n && q.len() > 0
            invariant
                k <= n,
                taken@.len() == k,
                k <= old(q)@.len(),
                taken@ == old(q)@.take(k as int),
                q@ == old(q)@.skip(k as int),
            decreases n - k,
        {
            if let Some(slot) = q.pop_front() {
                taken.push(slot);
                proof {
                    assert(taken@ =~= old(q)@.take(k as int + 1));
                    assert(q@ =~= old(q)@.skip(k as int + 1));
                }
                k = k + 1;
            }
        }
        taken
    }

    /// One scheduling decision. The output queue is drained first, up to
    /// `output_budget_slots` and `available_blocks`; the think queue then
    /// fills the blocks left, up to `think_budget_slots`. Both budgets count
    /// requests dispatched this iteration.
    pub fn schedule_batch(
        &mut self,
        output_budget_slots: usize,
        think_budget_slots: usize,
        available_blocks: usize,
    ) -> (batch: ScheduledBatch)
        ensures
            batch.output_slots@.len() == output_take(
                output_budget_slots as int,
                available_blocks as int,
                old(self).output_slots().len() as int,
            ),
            batch.think_slots@.len() == think_take(
                think_budget_slots as int,
                available_blocks as int,
                batch.output_slots@.len() as int,
                old(self).think_slots().len() as int,
            ),
            batch.output_slots@ == old(self).output_slots().take(batch.output_slots@.len() as int),
            final(self).output_slots() == old(self).output_slots().skip(batch.output_slots@.len() as int),
            batch.think_slots@ == old(self).think_slots().take(batch.think_slots@.len() as int),
            final(self).think_slots() == old(self).think_slots().skip(batch.think_slots@.len() as int),
            final(self).pending() == old(self).pending(),
            final(self).iterations() == old(self).iterations().wrapping_add(1),
            ({
                let o = batch.output_slots@.len();
                let t = batch.think_slots@.len();
                &&& o <= output_budget_slots && o <= available_blocks && o <= old(self).output_slots().len()
                &&& (o == output_budget_slots || o == available_blocks || o == old(self).output_slots().len())
                &&& t <= think_budget_slots && o + t <= available_blocks && t <= old(self).think_slots().len()
                &&& (t == think_budget_slots || o + t == available_blocks || t == old(self).think_slots().len())
            }),
    {
        let output_take = if output_budget_slots <= available_blocks {
            output_budget_slots
        } else {
            available_blocks
        };
        let output_slots = Self::drain_front(&mut self.output_queue, output_take);
        let blocks_left = available_blocks.saturating_sub(output_slots.len());
        let think_take = if think_budget_slots <= blocks_left {
            think_budget_slots
        } else {
            blocks_left
        };
        let think_slots = Self::drain_front(&mut self.think_queue, think_take);
        self.iteration = self.iteration.wrapping_add(1);
        ScheduledBatch { output_slots, think_slots }
    }

    /// Remove the first slot of `req_id` from `q`, if there is one.
    fn remove_from_queue(q: &mut VecDeque<RequestSlot>, req_id: u64)
        ensures
            final(q)@ == without_first_slot(old(q)@, req_id),
    {
        let mut k: usize = 0;
        while k < q.len()
            invariant
                k <= q@.len(),
                q@ == old(q)@,
                forall|j: int| 0 <= j < k ==> q@[j].req_id != req_id,
            decreases q@.len() - k,
        {
            if q[k].req_id == req_id {
                proof {
                    assert(is_first_slot_of(old(q)@, req_id, k as int));
                    let c = choose|i: int| is_first_slot_of(old(q)@, req_id, i);
                    assert(c == k as int) by {
                        if c < k as int {
                            assert(old(q)@[c].req_id != req_id);
                        } else if c > k as int {
                            assert(old(q)@[k as int].req_id != req_id);
                        }
                    }
                }
                let _ = q.remove(k);
                return;
            }
            k = k + 1;
        }
        proof {
            assert(!exists|i: int| is_first_slot_of(old(q)@, req_id, i));
        }
    }

    /// Remove every slot of `req_id` from `q`, keeping the others in order.
    fn remove_all_from_queue(q: &mut VecDeque<RequestSlot>, req_id: u64)
        ensures
            final(q)@ == without_slots_of(old(q)@, req_id),
    {
        let ghost orig = q@;
        let ghost keep = |x: RequestSlot| x.req_id != req_id;
        let n = q.len();
        let mut kept: VecDeque<RequestSlot> = VecDeque::new();
        let mut k: usize = 0;
        proof {
            reveal(Seq::filter);
            assert(orig.take(0) =~= Seq::<RequestSlot>::empty());
        }
        while k < n
            invariant
                n == orig.len(),
                k <= n,
                q@ == orig.skip(k as int),
                kept@ == orig.take(k as int).filter(keep),
                keep == (|x: RequestSlot| x.req_id != req_id),
            decreases n - k,
        {
            if let Some(slot) = q.pop_front() {
                proof {
                    assert(slot == orig[k as int]);
                    assert(orig.take(k as int + 1) =~= orig.take(k as int).push(slot));
                    orig.take(k as int).lemma_filter_push(slot, keep);
                    assert(q@ =~= orig.skip(k as int + 1));
                }
                if slot.req_id != req_id {
                    kept.push_back(slot);
                }
                k = k + 1;
            }
        }
        proof {
            assert(orig.take(n as int) =~= orig);
        }
        *q = kept;
    }

    /// React to a phase event of `req_id`. `EnterThink` queues a think slot;
    /// `ExitThink` takes the request's first think slot out and queues it
    /// as an output slot at `High` priority; `ForceBudget` queues the
    /// injection; `Complete` takes every slot of the request out of both
    /// queues. The caller demotes the request's KV blocks.
    pub fn on_phase_event(&mut self, req_id: u64, event: PhaseEvent)
        ensures
            final(self).iterations() == old(self).iterations(),
            event is EnterThink ==> {
                &&& final(self).think_slots() == old(self).think_slots().push(
                    RequestSlot { req_id, priority: Priority::Normal },
                )
                &&& final(self).output_slots() == old(self).output_slots()
                &&& final(self).pending() == old(self).pending()
            },
            event is ExitThink ==> {
                &&& final(self).think_slots() == without_first_slot(old(self).think_slots(), req_id)
                &&& final(self).output_slots() == old(self).output_slots().push(
                    RequestSlot { req_id, priority: Priority::High },
                )
                &&& final(self).pending() == old(self).pending()
            },
            event matches PhaseEvent::ForceBudget { inject_token, .. } ==> {
                &&& final(self).pending() == old(self).pending().push(
                    PendingInjection { req_id, token_id: inject_token },
                )
                &&& final(self).think_slots() == old(self).think_slots()
                &&& final(self).output_slots() == old(self).output_slots()
            },
            event is Complete ==> {
                &&& final(self).think_slots() == without_slots_of(old(self).think_slots(), req_id)
                &&& final(self).output_slots() == without_slots_of(old(self).output_slots(), req_id)
                &&& final(self).pending() == old(self).pending()
            },
            event is NoEvent ==> {
                &&& final(self).think_slots() == old(self).think_slots()
                &&& final(self).output_slots() == old(self).output_slots()
                &&& final(self).pending() == old(self).pending()
            },
    {
        match event {
            PhaseEvent::EnterThink => {
                self.think_queue.push_back(RequestSlot { req_id, priority: Priority::Normal });
            },
            PhaseEvent::ExitThink { tokens_used: _ } => {
                Self::remove_from_queue(&mut self.think_queue, req_id);
                self.output_queue.push_back(RequestSlot { req_id, priority: Priority::High });
            },
            PhaseEvent::ForceBudget { inject_token, reason: _ } => {
                self.pending_injections.push_back(PendingInjection { req_id, token_id: inject_token });
            },
            PhaseEvent::Complete => {
                Self::remove_all_from_queue(&mut self.think_queue, req_id);
                Self::remove_all_from_queue(&mut self.output_queue, req_id);
            },
            PhaseEvent::NoEvent => {},
        }
    }

    /// Pop the oldest pending injection, if any.
    pub fn pop_pending_injection(&mut self) -> (p: Option<PendingInjection>)
        ensures
            old(self).pending().len() == 0 ==> p is None && final(self).pending() == old(self).pending(),
            old(self).pending().len() > 0 ==> {
                &&& p == Some(old(self).pending()[0])
                &&& final(self).pending() == old(self).pending().drop_first()
            },
            final(self).think_slots() == old(self).think_slots(),
            final(self).output_slots() == old(self).output_slots(),
            final(self).iterations() == old(self).iterations(),
    {
        let p = self.pending_injections.pop_front();
        proof {
            if old(self).pending().len() > 0 {
                assert(self.pending() =~= old(self).pending().drop_first());
            }
        }
        p
    }

    /// Current output-queue depth.
    pub fn output_queue_depth(&self) -> (n: usize)
        ensures
            n == self.output_slots().len(),
    {
        self.output_queue.len()
    }

    /// Current think-queue depth.
    pub fn think_queue_depth(&self) -> (n: usize)
        ensures
            n == self.think_slots().len(),
    {
        self.think_queue.len()
    }
}


/// Budgets of one iteration: no more slots than blocks, no more output
/// slots than the output budget, no more think slots than the think
/// budget; an output slot that is queued and fits is always dispatched,
/// and think slots go out only once the output queue has been drained as
/// far as its budgets allow.
pub proof fn lemma_output_priority(
    output_budget: int,
    think_budget: int,
    available_blocks: int,
    queued_output: int,
    queued_think: int,
)
    requires
        output_budget >= 0,
        think_budget >= 0,
        available_blocks >= 0,
        queued_output >= 0,
        queued_think >= 0,
    ensures
        ({
            let o = output_take(output_budget, available_blocks, queued_output);
            let t = think_take(think_budget, available_blocks, o, queued_think);
            &&& 0 <= o <= output_budget
            &&& 0 <= t <= think_budget
            &&& o + t <= available_blocks
            &&& (output_budget > 0 && available_blocks > 0 && queued_output > 0) ==> o > 0
            &&& t > 0 ==> (o == min_of(output_budget, available_blocks) || o == queued_output)
        }),
{
}

/// The slots an iteration dispatches are the most each budget allows: the
/// output count is the largest within the output budget, the blocks and the
/// output queue; the think count is the largest within the whole think
/// budget (the output slots do not reduce it), the blocks left after the
/// output slots, and the think queue. Each count reaches one of its bounds.
pub proof fn lemma_dispatch_fills_every_budget(
    output_budget: int,
    think_budget: int,
    available_blocks: int,
    queued_output: int,
    queued_think: int,
)
    requires
        output_budget >= 0,
        think_budget >= 0,
        available_blocks >= 0,
        queued_output >= 0,
        queued_think >= 0,
    ensures
        ({
            let o = output_take(output_budget, available_blocks, queued_output);
            let t = think_take(think_budget, available_blocks, o, queued_think);
            &&& o <= output_budget && o <= available_blocks && o <= queued_output
            &&& (o == output_budget || o == available_blocks || o == queued_output)
            &&& t <= think_budget && o + t <= available_blocks && t <= queued_think
            &&& (t == think_budget || o + t == available_blocks || t == queued_think)
            &&& (o + think_budget <= available_blocks && think_budget <= queued_think) ==> t == think_budget
        }),
{
}

} // verus!

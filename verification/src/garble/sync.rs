//! Sync blocks: stretches of the computation in which several indices run in
//! parallel, each with its own stream of messages and its own gate numbers.
use std::collections::VecDeque;
use vstd::prelude::*;

use super::Message;

verus! {

/// The abstract state of the postman: the messages waiting for each index, oldest
/// first, and whether the block's last message has come.
pub struct PostmanModel {
    pub awaiting: Seq<Seq<Message>>,
    pub done_receiving: bool,
}

impl PostmanModel {
    /// The postman after taking in message `m`, sent under index `ix`: the end of
    /// the block marks it done; any other message with an index in range joins the
    /// back of that index's queue; anything else changes nothing.
    pub open spec fn receive_step(self, ix: Option<u8>, m: Message) -> PostmanModel {
        if m is EndSync {
            PostmanModel { awaiting: self.awaiting, done_receiving: true }
        } else {
            match ix {
                Some(i) if (i as int) < self.awaiting.len() => PostmanModel {
                    awaiting: self.awaiting.update(i as int, self.awaiting[i as int].push(m)),
                    done_receiving: self.done_receiving,
                },
                _ => self,
            }
        }
    }

    /// Whether `receive_step(ix, m)` accepts the message.
    pub open spec fn accepts(self, ix: Option<u8>, m: Message) -> bool {
        m is EndSync || (ix matches Some(i) && (i as int) < self.awaiting.len())
    }

    /// The message handed out to index `ix`, if one waits: the oldest.
    pub open spec fn delivered_msg(self, ix: int) -> Option<Message> {
        if 0 <= ix < self.awaiting.len() && self.awaiting[ix].len() > 0 {
            Some(self.awaiting[ix][0])
        } else {
            None
        }
    }

    /// The postman after handing out a message to index `ix`, if one waits.
    pub open spec fn deliver_step(self, ix: int) -> PostmanModel {
        if 0 <= ix < self.awaiting.len() && self.awaiting[ix].len() > 0 {
            PostmanModel {
                awaiting: self.awaiting.update(ix, self.awaiting[ix].drop_first()),
                done_receiving: self.done_receiving,
            }
        } else {
            self
        }
    }
}

/// One call on a postman: taking in a message under an index, or handing out the
/// next message of an index.
pub enum PostmanEvent {
    Receive(Option<u8>, Message),
    Deliver(usize),
}

/// The postman after the calls `evs`, in order, starting from `p`.
pub open spec fn postman_run(p: PostmanModel, evs: Seq<PostmanEvent>) -> PostmanModel
    decreases evs.len(),
{
    if evs.len() == 0 {
        p
    } else {
        let before = postman_run(p, evs.drop_last());
        match evs.last() {
            PostmanEvent::Receive(ix, m) => before.receive_step(ix, m),
            PostmanEvent::Deliver(i) => before.deliver_step(i as int),
        }
    }
}

/// The messages accepted for index `j` during the calls `evs`, in order, on a
/// postman of `n` indices.
pub open spec fn received_for(evs: Seq<PostmanEvent>, n: nat, j: int) -> Seq<Message>
    decreases evs.len(),
{
    if evs.len() == 0 {
        Seq::empty()
    } else {
        let prev = received_for(evs.drop_last(), n, j);
        match evs.last() {
            PostmanEvent::Receive(ix, m) => if !(m is EndSync) && ix == Some(j as u8) && j < n {
                prev.push(m)
            } else {
                prev
            },
            PostmanEvent::Deliver(_) => prev,
        }
    }
}

/// The messages handed out to index `j` during the calls `evs` from `p`, in order.
pub open spec fn delivered_to(p: PostmanModel, evs: Seq<PostmanEvent>, j: int) -> Seq<Message>
    decreases evs.len(),
{
    if evs.len() == 0 {
        Seq::empty()
    } else {
        let prev = delivered_to(p, evs.drop_last(), j);
        let before = postman_run(p, evs.drop_last());
        match evs.last() {
            PostmanEvent::Receive(_, _) => prev,
            PostmanEvent::Deliver(i) => if i as int == j {
                match before.delivered_msg(j) {
                    Some(m) => prev.push(m),
                    None => prev,
                }
            } else {
                prev
            },
        }
    }
}

/// Law (first in, first out, over a whole run): starting from a postman with
/// nothing waiting, after any sequence of calls, each index has been handed out
/// exactly the messages received for it, in the order received, each once, and
/// the rest of them, in order, still wait for it. So the messages an index gets
/// are always a prefix of those sent to it, and no message reaches another index.
pub proof fn lemma_postman_run_fifo(p: PostmanModel, evs: Seq<PostmanEvent>, j: int)
    requires
        0 <= j < p.awaiting.len(),
        p.awaiting.len() <= 256,
        forall|i: int| 0 <= i < p.awaiting.len() ==> #[trigger] p.awaiting[i].len() == 0,
    ensures
        postman_run(p, evs).awaiting.len() == p.awaiting.len(),
        received_for(evs, p.awaiting.len(), j) == delivered_to(p, evs, j) + postman_run(
            p,
            evs,
        ).awaiting[j],
    decreases evs.len(),
{
    let n = p.awaiting.len();
    if evs.len() == 0 {
        assert(p.awaiting[j] =~= Seq::<Message>::empty());
        assert(Seq::<Message>::empty() + p.awaiting[j] =~= Seq::<Message>::empty());
    } else {
        let pre = evs.drop_last();
        lemma_postman_run_fifo(p, pre, j);
        let before = postman_run(p, pre);
        let r = received_for(pre, n, j);
        let d = delivered_to(p, pre, j);
        let a = before.awaiting[j];
        assert(r == d + a);
        match evs.last() {
            PostmanEvent::Receive(ix, m) => {
                if !(m is EndSync) && ix == Some(j as u8) {
                    assert((d + a).push(m) =~= d + a.push(m));
                } else if !(m is EndSync) && ix is Some {
                    let i = ix->0 as int;
                    if i < n {
                        assert(i != j);
                    }
                }
            },
            PostmanEvent::Deliver(i) => {
                if i as int == j && a.len() > 0 {
                    assert(d.push(a[0]) + a.drop_first() =~= d + a);
                }
            },
        }
    }
}

/// Sorts the messages of a sync block by index and hands each index its messages
/// in the order in which they came.
pub struct Postman {
    awaiting: Vec<VecDeque<Message>>,
    done_receiving: bool,
}

impl View for Postman {
    type V = PostmanModel;

    closed spec fn view(&self) -> PostmanModel {
        PostmanModel {
            awaiting: self.awaiting@.map_values(|q: VecDeque<Message>| q@),
            done_receiving: self.done_receiving,
        }
    }
}

impl Postman {
    /// A postman for `num_indices` indices, with nothing waiting.
    pub fn new(num_indices: u8) -> (p: Postman)
        ensures
            p@.awaiting.len() == num_indices,
            forall|i: int| 0 <= i < num_indices ==> #[trigger] p@.awaiting[i].len() == 0,
            !p@.done_receiving,
    {
        let mut awaiting: Vec<VecDeque<Message>> = Vec::new();
        for i in 0..num_indices
            invariant
                awaiting@.len() == i,
                forall|j: int| 0 <= j < i ==> #[trigger] awaiting@[j]@.len() == 0,
        {
            awaiting.push(VecDeque::new());
        }
        Postman { awaiting, done_receiving: false }
    }

    /// The number of indices.
    pub fn num_indices(&self) -> (n: usize)
        ensures
            n == self@.awaiting.len(),
    {
        self.awaiting.len()
    }

    /// Whether the block's last message has come.
    pub fn done_receiving(&self) -> (b: bool)
        ensures
            b == self@.done_receiving,
    {
        self.done_receiving
    }

    /// Takes in message `m`, sent under index `ix`. The end of the block marks the
    /// postman done; any other message joins the back of its index's queue. A
    /// message without an index, or with an index out of range, is refused
    /// (`false`) and changes nothing.
    pub fn receive(&mut self, ix: Option<u8>, m: Message) -> (ok: bool)
        ensures
            ok == old(self)@.accepts(ix, m),
            final(self)@ == old(self)@.receive_step(ix, m),
    {
        if m.is_end_sync() {
            self.done_receiving = true;
            assert(self@.awaiting =~= old(self)@.awaiting);
            return true;
        }
        match ix {
            Some(i) => {
                if (i as usize) < self.awaiting.len() {
                    let ghost before = self@.awaiting;
                    self.awaiting[i as usize].push_back(m);
                    assert(self@.awaiting =~= before.update(i as int, before[i as int].push(m)));
                    true
                } else {
                    false
                }
            },
            None => false,
        }
    }

    /// Whether a message waits for index `ix`.
    pub fn has_waiting(&self, ix: usize) -> (b: bool)
        requires
            ix < self@.awaiting.len(),
        ensures
            b == (self@.awaiting[ix as int].len() > 0),
    {
        self.awaiting[ix].len() > 0
    }

    /// Hands out the oldest message waiting for index `ix`, if any.
    pub fn deliver(&mut self, ix: usize) -> (m: Option<Message>)
        requires
            ix < old(self)@.awaiting.len(),
        ensures
            m == old(self)@.delivered_msg(ix as int),
            final(self)@ == old(self)@.deliver_step(ix as int),
    {
        let ghost before = self@.awaiting;
        let m = self.awaiting[ix].pop_front();
        proof {
            if m is Some {
                assert(self@.awaiting =~= before.update(ix as int, before[ix as int].drop_first()));
            } else {
                assert(self@.awaiting =~= before);
            }
        }
        m
    }
}

/// The number given to a non-free gate inside a sync block that began at gate
/// `start` with `num_indices` indices: the `count`-th gate of index `index` gets
/// `start + (count * num_indices + index + 1) * 2^32`.
pub open spec fn sync_gate_id_spec(start: nat, num_indices: nat, index: nat, count: nat) -> nat {
    start + (count * num_indices + index + 1) * 0x1_0000_0000
}

/// The number that follows gate number `g`, wrapping around at `usize::MAX`.
pub open spec fn following_gate(g: nat) -> nat {
    if g >= usize::MAX {
        0
    } else {
        g + 1
    }
}

/// The numbering state after `k` numbers were given outside a sync block,
/// starting from `m`: each one moves the current gate number on by one (wrapping).
pub open spec fn plain_after(m: SyncModel, k: nat) -> SyncModel
    decreases k,
{
    if k == 0 {
        m
    } else {
        let p = plain_after(m, (k - 1) as nat);
        SyncModel { current_gate: following_gate(p.current_gate), ..p }
    }
}

/// Law: outside sync blocks, the `k`-th number given (counting from 0) is the
/// starting number plus `k`, as long as that does not pass `usize::MAX`.
pub proof fn lemma_plain_numbering(m: SyncModel, k: nat)
    requires
        m.current_gate + k <= usize::MAX,
    ensures
        plain_after(m, k).current_gate == m.current_gate + k,
        plain_after(m, k).in_sync == m.in_sync,
    decreases k,
{
    if k > 0 {
        lemma_plain_numbering(m, (k - 1) as nat);
    }
}

/// The evaluator's gate numbering: the next gate number outside sync blocks, and,
/// inside one, where the block began, which indices are done and how many
/// non-free gates each index has met.
pub struct SyncModel {
    pub current_gate: nat,
    pub in_sync: bool,
    pub starting_gate: nat,
    pub index_done: Seq<bool>,
    pub gate_counts: Seq<nat>,
}

/// The state behind the evaluator's gate numbering and its sync blocks.
pub struct SyncState {
    current_gate: usize,
    in_sync: bool,
    starting_gate: usize,
    index_done: Vec<bool>,
    gate_counts: Vec<usize>,
}

impl View for SyncState {
    type V = SyncModel;

    closed spec fn view(&self) -> SyncModel {
        SyncModel {
            current_gate: self.current_gate as nat,
            in_sync: self.in_sync,
            starting_gate: self.starting_gate as nat,
            index_done: self.index_done@,
            gate_counts: self.gate_counts@.map_values(|c: usize| c as nat),
        }
    }
}

impl SyncState {
    /// The numbering at the start of a computation: gate 0 next, no sync block.
    pub fn new() -> (s: SyncState)
        ensures
            s@.current_gate == 0,
            !s@.in_sync,
    {
        SyncState {
            current_gate: 0,
            in_sync: false,
            starting_gate: 0,
            index_done: Vec::new(),
            gate_counts: Vec::new(),
        }
    }

    /// Whether a sync block is open.
    pub fn in_sync(&self) -> (b: bool)
        ensures
            b == self@.in_sync,
    {
        self.in_sync
    }

    /// The number of indices of the open sync block.
    pub fn num_indices(&self) -> (n: usize)
        ensures
            n == self@.index_done.len(),
    {
        self.index_done.len()
    }

    /// Opens a sync block with `num_indices` indices, starting at the current gate.
    pub fn begin_sync(&mut self, num_indices: u8)
        requires
            !old(self)@.in_sync,
        ensures
            final(self)@.in_sync,
            final(self)@.current_gate == old(self)@.current_gate,
            final(self)@.starting_gate == old(self)@.current_gate,
            final(self)@.index_done.len() == num_indices,
            final(self)@.gate_counts.len() == num_indices,
            forall|i: int| 0 <= i < num_indices ==> !#[trigger] final(self)@.index_done[i],
            forall|i: int| 0 <= i < num_indices ==> #[trigger] final(self)@.gate_counts[i] == 0,
    {
        let mut done: Vec<bool> = Vec::new();
        let mut counts: Vec<usize> = Vec::new();
        for i in 0..num_indices
            invariant
                done@.len() == i,
                counts@.len() == i,
                forall|j: int| 0 <= j < i ==> !#[trigger] done@[j],
                forall|j: int| 0 <= j < i ==> #[trigger] counts@[j] == 0,
        {
            done.push(false);
            counts.push(0);
        }
        self.in_sync = true;
        self.starting_gate = self.current_gate;
        self.index_done = done;
        self.gate_counts = counts;
    }

    /// Marks index `index` of the open sync block done. When every index is done
    /// the block closes and the current gate number moves on by one (wrapping). Outside a
    /// sync block nothing changes.
    pub fn finish_index(&mut self, index: u8)
        requires
            old(self)@.in_sync ==> (index as int) < old(self)@.index_done.len(),
        ensures
            !old(self)@.in_sync ==> final(self)@ == old(self)@,
            old(self)@.in_sync ==> {
                let done = old(self)@.index_done.update(index as int, true);
                if forall|i: int| 0 <= i < done.len() ==> #[trigger] done[i] {
                    &&& !final(self)@.in_sync
                    &&& final(self)@.current_gate == following_gate(old(self)@.current_gate)
                } else {
                    &&& final(self)@.in_sync
                    &&& final(self)@.index_done == done
                    &&& final(self)@.current_gate == old(self)@.current_gate
                    &&& final(self)@.starting_gate == old(self)@.starting_gate
                    &&& final(self)@.gate_counts == old(self)@.gate_counts
                }
            },
    {
        if !self.in_sync {
            return;
        }
        self.index_done.set(index as usize, true);
        let n = self.index_done.len();
        let mut all = true;
        for i in 0..n
            invariant
                n == self.index_done@.len(),
                all == forall|j: int| 0 <= j < i ==> #[trigger] self.index_done@[j],
        {
            if !self.index_done[i] {
                all = false;
            }
        }
        if all {
            self.in_sync = false;
            self.index_done = Vec::new();
            self.gate_counts = Vec::new();
            self.current_gate = self.current_gate.wrapping_add(1);
        }
    }

    /// Gives the number of the next non-free gate. Outside a sync block, and for
    /// no index, it is the current gate, which then moves on by one (wrapping).
    /// Inside a block, index `ix` gets `sync_gate_id_spec` of its count, which then
    /// grows by one. `None`, with nothing changed, when the index does not fit the
    /// block (an index outside a block, none inside one, or one out of range) or
    /// the number does not fit a `usize`.
    pub fn next_gate(&mut self, ix: Option<u8>) -> (id: Option<usize>)
        ensures
            match ix {
                None => if !old(self)@.in_sync {
                    &&& id == Some(old(self)@.current_gate as usize)
                    &&& final(self)@ == plain_after(old(self)@, 1)
                } else {
                    id is None && final(self)@ == old(self)@
                },
                Some(i) => if old(self)@.in_sync && (i as int) < old(self)@.gate_counts.len() {
                    let g = sync_gate_id_spec(
                        old(self)@.starting_gate,
                        old(self)@.gate_counts.len(),
                        i as nat,
                        old(self)@.gate_counts[i as int],
                    );
                    if g <= usize::MAX && old(self)@.gate_counts[i as int] < usize::MAX {
                        &&& id == Some(g as usize)
                        &&& final(self)@ == (SyncModel {
                            gate_counts: old(self)@.gate_counts.update(
                                i as int,
                                old(self)@.gate_counts[i as int] + 1,
                            ),
                            ..old(self)@
                        })
                    } else {
                        id is None && final(self)@ == old(self)@
                    }
                } else {
                    id is None && final(self)@ == old(self)@
                },
            },
    {
        match ix {
            None => {
                if self.in_sync {
                    return None;
                }
                let id = self.current_gate;
                self.current_gate = self.current_gate.wrapping_add(1);
                proof {
                    reveal_with_fuel(plain_after, 2);
                }
                Some(id)
            },
            Some(i) => {
                let i = i as usize;
                if !self.in_sync || i >= self.gate_counts.len() {
                    return None;
                }
                let count = self.gate_counts[i];
                let n = self.gate_counts.len();
                let slot = match count.checked_mul(n) {
                    Some(a) => match a.checked_add(i + 1) {
                        Some(b) => b,
                        None => return None,
                    },
                    None => return None,
                };
                let half = match slot.checked_mul(0x1_0000) {
                    Some(h) => h,
                    None => return None,
                };
                let high = match half.checked_mul(0x1_0000) {
                    Some(h) => h,
                    None => return None,
                };
                let id = match high.checked_add(self.starting_gate) {
                    Some(id) => id,
                    None => return None,
                };
                if count == usize::MAX {
                    return None;
                }
                let ghost before = self@.gate_counts;
                self.gate_counts.set(i, count + 1);
                assert(self@.gate_counts =~= before.update(i as int, before[i as int] + 1));
                Some(id)
            },
        }
    }
}

/// Law: inside a sync block that began below gate `2^32`, different non-free gates
/// (a different index or a different count) get different numbers, and none of
/// them equals a number below `2^32`, such as those given outside the block.
pub proof fn lemma_sync_gate_ids_distinct(
    start: nat,
    n: nat,
    i1: nat,
    k1: nat,
    i2: nat,
    k2: nat,
)
    requires
        start < 0x1_0000_0000,
        i1 < n,
        i2 < n,
        i1 != i2 || k1 != k2,
    ensures
        sync_gate_id_spec(start, n, i1, k1) != sync_gate_id_spec(start, n, i2, k2),
        sync_gate_id_spec(start, n, i1, k1) >= 0x1_0000_0000,
{
    let s1 = k1 * n + i1;
    let s2 = k2 * n + i2;
    if s1 == s2 {
        vstd::arithmetic::div_mod::lemma_fundamental_div_mod_converse_div(s1 as int, n as int, k1 as int, i1 as int);
        vstd::arithmetic::div_mod::lemma_fundamental_div_mod_converse_div(s2 as int, n as int, k2 as int, i2 as int);
        vstd::arithmetic::div_mod::lemma_fundamental_div_mod_converse_mod(s1 as int, n as int, k1 as int, i1 as int);
        vstd::arithmetic::div_mod::lemma_fundamental_div_mod_converse_mod(s2 as int, n as int, k2 as int, i2 as int);
    }
    assert(s1 != s2);
    assert((s1 + 1) * 0x1_0000_0000 != (s2 + 1) * 0x1_0000_0000) by (nonlinear_arith)
        requires
            s1 != s2,
    ;
    assert((s1 + 1) * 0x1_0000_0000 >= 0x1_0000_0000) by (nonlinear_arith)
        requires
            s1 >= 0,
    ;
}

} // verus!

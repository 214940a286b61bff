//! A cooperative scheduler for deferred lifecycle work.
//!
//! Pending actions live in four component queues (`destroy`, `create`,
//! `update` — first-in first-out — and `render` — last-in first-out) plus one
//! general `main` queue. The drain order is strict: destroy before create,
//! create before update, update before render, render before main.

use std::collections::VecDeque;
use vstd::prelude::*;

verus! {

/// The lifecycle slot a component action is queued into.
#[derive(Clone, Copy, PartialEq, Eq, Structural, Debug)]
pub enum ComponentRunnableType {
    Destroy,
    Create,
    Update,
    Render,
}

/// The component-action queues: three FIFO queues and the render stack.
struct ComponentScheduler<T> {
    destroy: VecDeque<T>,
    create: VecDeque<T>,
    update: VecDeque<T>,
    render: Vec<T>,
}

/// A scheduler instance: the component queues, the general queue, and the
/// re-entrancy lock that keeps at most one run loop active at a time.
pub struct Scheduler<T> {
    lock: bool,
    main: VecDeque<T>,
    component: ComponentScheduler<T>,
}

impl<T> ComponentScheduler<T> {
    /// The component actions still queued, in the order they will be popped.
    spec fn pending(&self) -> Seq<T> {
        self.destroy@ + self.create@ + self.update@ + self.render@.reverse()
    }

    fn new() -> (s: Self)
        ensures
            s.destroy@ == Seq::<T>::empty(),
            s.create@ == Seq::<T>::empty(),
            s.update@ == Seq::<T>::empty(),
            s.render@ == Seq::<T>::empty(),
    {
        ComponentScheduler {
            destroy: VecDeque::new(),
            create: VecDeque::new(),
            update: VecDeque::new(),
            render: Vec::new(),
        }
    }

    /// Pop the next component action: first non-empty queue wins, in the
    /// order destroy, create, update, render; render pops newest-first.
    fn next_runnable(&mut self) -> (r: Option<T>)
        ensures
            match r {
                Some(t) => old(self).pending() == seq![t] + final(self).pending(),
                None => {
                    &&& final(self).pending() == old(self).pending()
                    &&& old(self).pending().len() == 0
                },
            },
            match r {
                Some(t) => {
                    ||| {
                        &&& old(self).destroy@ == seq![t] + final(self).destroy@
                        &&& final(self).create@ == old(self).create@
                        &&& final(self).update@ == old(self).update@
                        &&& final(self).render@ == old(self).render@
                    }
                    ||| {
                        &&& old(self).destroy@.len() == 0
                        &&& final(self).destroy@ == old(self).destroy@
                        &&& old(self).create@ == seq![t] + final(self).create@
                        &&& final(self).update@ == old(self).update@
                        &&& final(self).render@ == old(self).render@
                    }
                    ||| {
                        &&& old(self).destroy@.len() == 0 && old(self).create@.len() == 0
                        &&& final(self).destroy@ == old(self).destroy@
                        &&& final(self).create@ == old(self).create@
                        &&& old(self).update@ == seq![t] + final(self).update@
                        &&& final(self).render@ == old(self).render@
                    }
                    ||| {
                        &&& old(self).destroy@.len() == 0 && old(self).create@.len() == 0
                            && old(self).update@.len() == 0
                        &&& final(self).destroy@ == old(self).destroy@
                        &&& final(self).create@ == old(self).create@
                        &&& final(self).update@ == old(self).update@
                        &&& old(self).render@ == final(self).render@.push(t)
                    }
                },
                None => {
                    &&& final(self).destroy@ == old(self).destroy@
                    &&& final(self).create@ == old(self).create@
                    &&& final(self).update@ == old(self).update@
                    &&& final(self).render@ == old(self).render@
                },
            },
    {
        let r = match self.destroy.pop_front() {
            Some(t) => Some(t),
            None => match self.create.pop_front() {
                Some(t) => Some(t),
                None => match self.update.pop_front() {
                    Some(t) => Some(t),
                    None => self.render.pop(),
                },
            },
        };
        proof {
            if r is Some {
                assert(old(self).pending() =~= seq![r->0] + self.pending());
            } else {
                assert(self.pending() =~= old(self).pending());
                assert(old(self).pending().len() == 0);
            }
        }
        r
    }
}

/// Every component queue except `taken` is the same in both schedulers.
pub open spec fn queues_framed_but<T>(
    post: &Scheduler<T>,
    pre: &Scheduler<T>,
    taken: ComponentRunnableType,
) -> bool {
    forall|k: ComponentRunnableType|
        k != taken ==> #[trigger] post.comp_queue(k) == pre.comp_queue(k)
}

impl<T> Scheduler<T> {
    /// Whether a run loop currently holds the re-entrancy lock.
    pub closed spec fn locked(&self) -> bool {
        self.lock
    }

    /// The actions queued in one component slot, oldest first.
    pub closed spec fn comp_queue(&self, run_type: ComponentRunnableType) -> Seq<T> {
        match run_type {
            ComponentRunnableType::Destroy => self.component.destroy@,
            ComponentRunnableType::Create => self.component.create@,
            ComponentRunnableType::Update => self.component.update@,
            ComponentRunnableType::Render => self.component.render@,
        }
    }

    /// The actions queued in the general queue, oldest first.
    pub closed spec fn main_queue(&self) -> Seq<T> {
        self.main@
    }

    /// Every action still queued, in the order the run loop will pop it:
    /// destroy, then create, then update, then render newest-first, then main.
    pub closed spec fn pending(&self) -> Seq<T> {
        self.component.pending() + self.main@
    }

    /// The drain-order view decomposed into the five queues: destroy, then
    /// create, then update, then the render stack newest-first, then the
    /// general queue. This lets a caller who knows the queues derive the
    /// order `start` will execute.
    pub proof fn lemma_pending_decomposition(&self)
        ensures
            self.pending() == self.comp_queue(ComponentRunnableType::Destroy) + self.comp_queue(
                ComponentRunnableType::Create,
            ) + self.comp_queue(ComponentRunnableType::Update) + self.comp_queue(
                ComponentRunnableType::Render,
            ).reverse() + self.main_queue(),
    {
        assert(self.pending() =~= self.comp_queue(ComponentRunnableType::Destroy)
            + self.comp_queue(ComponentRunnableType::Create) + self.comp_queue(
            ComponentRunnableType::Update,
        ) + self.comp_queue(ComponentRunnableType::Render).reverse() + self.main_queue());
    }

    /// All queues at once, for stating that a call leaves them unchanged.
    pub open spec fn queues_unchanged(&self, other: &Self) -> bool {
        &&& self.comp_queue(ComponentRunnableType::Destroy) == other.comp_queue(
            ComponentRunnableType::Destroy,
        )
        &&& self.comp_queue(ComponentRunnableType::Create) == other.comp_queue(
            ComponentRunnableType::Create,
        )
        &&& self.comp_queue(ComponentRunnableType::Update) == other.comp_queue(
            ComponentRunnableType::Update,
        )
        &&& self.comp_queue(ComponentRunnableType::Render) == other.comp_queue(
            ComponentRunnableType::Render,
        )
        &&& self.main_queue() == other.main_queue()
    }

    /// A scheduler with empty queues and the lock released.
    pub fn new() -> (s: Self)
        ensures
            !s.locked(),
            s.comp_queue(ComponentRunnableType::Destroy) == Seq::<T>::empty(),
            s.comp_queue(ComponentRunnableType::Create) == Seq::<T>::empty(),
            s.comp_queue(ComponentRunnableType::Update) == Seq::<T>::empty(),
            s.comp_queue(ComponentRunnableType::Render) == Seq::<T>::empty(),
            s.main_queue() == Seq::<T>::empty(),
            s.pending() == Seq::<T>::empty(),
    {
        let s = Scheduler { lock: false, main: VecDeque::new(), component: ComponentScheduler::new() };
        proof {
            assert(s.pending() =~= Seq::<T>::empty());
        }
        s
    }

    /// Enqueue a component action into the slot named by `run_type`. For a
    /// payload the scheduler itself can execute, [`Scheduler::push_comp_start`]
    /// is the composite operation that also starts the drain; for opaque
    /// payloads — the lifecycle actions the diff engine queues — executing an
    /// action is the embedding's work, so the drain is the caller's loop over
    /// [`Scheduler::next_runnable`].
    pub fn push_comp(&mut self, run_type: ComponentRunnableType, runnable: T)
        ensures
            final(self).locked() == old(self).locked(),
            final(self).comp_queue(run_type) == old(self).comp_queue(run_type).push(runnable),
            forall|other: ComponentRunnableType|
                other != run_type ==> final(self).comp_queue(other) == old(self).comp_queue(other),
            final(self).main_queue() == old(self).main_queue(),
    {
        match run_type {
            ComponentRunnableType::Destroy => self.component.destroy.push_back(runnable),
            ComponentRunnableType::Create => self.component.create.push_back(runnable),
            ComponentRunnableType::Update => self.component.update.push_back(runnable),
            ComponentRunnableType::Render => self.component.render.push(runnable),
        }
    }

    /// Enqueue a general action into the `main` queue. See
    /// [`Scheduler::push_start`] for the composite push-then-drain operation
    /// on executable payloads.
    pub fn push(&mut self, runnable: T)
        ensures
            final(self).locked() == old(self).locked(),
            final(self).main_queue() == old(self).main_queue().push(runnable),
            forall|other: ComponentRunnableType|
                final(self).comp_queue(other) == old(self).comp_queue(other),
            final(self).pending() == old(self).pending().push(runnable),
    {
        self.main.push_back(runnable);
        proof {
            assert(self.pending() =~= old(self).pending().push(runnable));
        }
    }

    /// Pop the next action by priority: the component queues first, then the
    /// general queue. Exactly the first non-empty queue, in the order
    /// destroy, create, update, render, main, loses its next action — from
    /// the front of a FIFO queue, from the top of the render stack — and
    /// every other queue is untouched.
    pub fn next_runnable(&mut self) -> (r: Option<T>)
        ensures
            final(self).locked() == old(self).locked(),
            match r {
                Some(t) => old(self).pending() == seq![t] + final(self).pending(),
                None => {
                    &&& final(self).pending() == old(self).pending()
                    &&& old(self).pending().len() == 0
                },
            },
            match r {
                Some(t) => {
                    ||| {
                        &&& old(self).comp_queue(ComponentRunnableType::Destroy) == seq![t]
                            + final(self).comp_queue(ComponentRunnableType::Destroy)
                        &&& queues_framed_but(final(self), old(self), ComponentRunnableType::Destroy)
                        &&& final(self).main_queue() == old(self).main_queue()
                    }
                    ||| {
                        &&& old(self).comp_queue(ComponentRunnableType::Destroy).len() == 0
                        &&& old(self).comp_queue(ComponentRunnableType::Create) == seq![t]
                            + final(self).comp_queue(ComponentRunnableType::Create)
                        &&& queues_framed_but(final(self), old(self), ComponentRunnableType::Create)
                        &&& final(self).main_queue() == old(self).main_queue()
                    }
                    ||| {
                        &&& old(self).comp_queue(ComponentRunnableType::Destroy).len() == 0
                            && old(self).comp_queue(ComponentRunnableType::Create).len() == 0
                        &&& old(self).comp_queue(ComponentRunnableType::Update) == seq![t]
                            + final(self).comp_queue(ComponentRunnableType::Update)
                        &&& queues_framed_but(final(self), old(self), ComponentRunnableType::Update)
                        &&& final(self).main_queue() == old(self).main_queue()
                    }
                    ||| {
                        &&& old(self).comp_queue(ComponentRunnableType::Destroy).len() == 0
                            && old(self).comp_queue(ComponentRunnableType::Create).len() == 0
                            && old(self).comp_queue(ComponentRunnableType::Update).len() == 0
                        &&& old(self).comp_queue(ComponentRunnableType::Render) == final(self).comp_queue(ComponentRunnableType::Render).push(t)
                        &&& queues_framed_but(final(self), old(self), ComponentRunnableType::Render)
                        &&& final(self).main_queue() == old(self).main_queue()
                    }
                    ||| {
                        &&& old(self).comp_queue(ComponentRunnableType::Destroy).len() == 0
                            && old(self).comp_queue(ComponentRunnableType::Create).len() == 0
                            && old(self).comp_queue(ComponentRunnableType::Update).len() == 0
                            && old(self).comp_queue(ComponentRunnableType::Render).len() == 0
                        &&& forall|k: ComponentRunnableType|
                            final(self).comp_queue(k) == old(self).comp_queue(k)
                        &&& old(self).main_queue() == seq![t] + final(self).main_queue()
                    }
                },
                None => final(self).queues_unchanged(old(self)),
            },
    {
        let r = match self.component.next_runnable() {
            Some(t) => Some(t),
            None => self.main.pop_front(),
        };
        proof {
            if r is Some {
                assert(old(self).pending() =~= seq![r->0] + self.pending());
            } else {
                assert(self.pending() =~= old(self).pending());
            }
        }
        r
    }
}

/// One concrete deferred action, the closed-variant runnable interface: when
/// executed it records its label in the run log and may push further actions
/// (leaf actions, by label) into the queues of the scheduler that is running
/// it.
pub struct Runnable {
    /// Recorded in the run log when the step executes.
    pub label: u64,
    /// Component actions this step pushes while it runs.
    pub comp_pushes: Vec<(ComponentRunnableType, u64)>,
    /// General actions this step pushes while it runs.
    pub main_pushes: Vec<u64>,
}

impl Runnable {
    /// How much run-loop work this step stands for: itself plus every action
    /// it pushes.
    pub open spec fn weight(self) -> nat {
        1 + self.comp_pushes@.len() + self.main_pushes@.len()
    }

    /// A step that pushes nothing.
    pub open spec fn is_leaf(self) -> bool {
        self.comp_pushes@.len() == 0 && self.main_pushes@.len() == 0
    }

    pub fn leaf(label: u64) -> (s: Runnable)
        ensures
            s.label == label,
            s.is_leaf(),
    {
        Runnable { label, comp_pushes: Vec::new(), main_pushes: Vec::new() }
    }
}

/// The total work a queue of steps stands for.
pub open spec fn seq_weight(s: Seq<Runnable>) -> nat
    decreases s.len(),
{
    if s.len() == 0 {
        0
    } else {
        s[0].weight() + seq_weight(s.drop_first())
    }
}

/// The labels of a queue of steps, in queue order.
pub open spec fn labels_of(s: Seq<Runnable>) -> Seq<u64> {
    s.map_values(|st: Runnable| st.label)
}

/// Every step in the queue is a leaf: running it pushes nothing further.
pub open spec fn spawn_free(s: Seq<Runnable>) -> bool {
    forall|i: int| 0 <= i < s.len() ==> (#[trigger] s[i]).is_leaf()
}

/// The drain-order view after one action is enqueued into a component slot.
pub open spec fn pending_after_push_comp(
    s: &Scheduler<Runnable>,
    run_type: ComponentRunnableType,
    t: Runnable,
) -> Seq<Runnable> {
    (if run_type == ComponentRunnableType::Destroy {
        s.comp_queue(ComponentRunnableType::Destroy).push(t)
    } else {
        s.comp_queue(ComponentRunnableType::Destroy)
    }) + (if run_type == ComponentRunnableType::Create {
        s.comp_queue(ComponentRunnableType::Create).push(t)
    } else {
        s.comp_queue(ComponentRunnableType::Create)
    }) + (if run_type == ComponentRunnableType::Update {
        s.comp_queue(ComponentRunnableType::Update).push(t)
    } else {
        s.comp_queue(ComponentRunnableType::Update)
    }) + (if run_type == ComponentRunnableType::Render {
        s.comp_queue(ComponentRunnableType::Render).push(t)
    } else {
        s.comp_queue(ComponentRunnableType::Render)
    }).reverse() + s.main_queue()
}

/// Leaf queues stay leaf queues under concatenation and a leaf push.
proof fn lemma_spawn_free_concat(a: Seq<Runnable>, b: Seq<Runnable>)
    requires
        spawn_free(a),
        spawn_free(b),
    ensures
        spawn_free(a + b),
{
    assert forall|i: int| 0 <= i < (a + b).len() implies ((a + b)[i]).is_leaf() by {
        if i < a.len() {
            assert((a + b)[i] == a[i]);
        } else {
            assert((a + b)[i] == b[i - a.len()]);
        }
    }
}

/// A part of a leaf queue is a leaf queue.
proof fn lemma_spawn_free_split(a: Seq<Runnable>, b: Seq<Runnable>)
    requires
        spawn_free(a + b),
    ensures
        spawn_free(a),
        spawn_free(b),
{
    assert forall|i: int| 0 <= i < a.len() implies (a[i]).is_leaf() by {
        assert(a[i] == (a + b)[i]);
    }
    assert forall|i: int| 0 <= i < b.len() implies (b[i]).is_leaf() by {
        assert(b[i] == (a + b)[i + a.len()]);
    }
}

proof fn lemma_seq_weight_concat(a: Seq<Runnable>, b: Seq<Runnable>)
    ensures
        seq_weight(a + b) == seq_weight(a) + seq_weight(b),
    decreases a.len(),
{
    if a.len() == 0 {
        assert(a + b =~= b);
    } else {
        assert((a + b).drop_first() =~= a.drop_first() + b);
        lemma_seq_weight_concat(a.drop_first(), b);
    }
}

proof fn lemma_seq_weight_push(s: Seq<Runnable>, t: Runnable)
    ensures
        seq_weight(s.push(t)) == seq_weight(s) + t.weight(),
{
    assert(s.push(t) =~= s + seq![t]);
    assert(seq_weight(seq![t]) == t.weight()) by {
        reveal_with_fuel(seq_weight, 2);
        assert(seq![t].drop_first() =~= Seq::<Runnable>::empty());
    }
    lemma_seq_weight_concat(s, seq![t]);
}

impl Scheduler<Runnable> {
    /// The total work still queued: each pending step plus everything it will
    /// push. The run loop strictly reduces this measure.
    pub closed spec fn pending_weight(&self) -> nat {
        seq_weight(self.pending())
    }

    proof fn lemma_weight_after_comp_push(pre: Self, post: Self, k: ComponentRunnableType, t: Runnable)
        requires
            post.comp_queue(k) == pre.comp_queue(k).push(t),
            forall|o: ComponentRunnableType| o != k ==> post.comp_queue(o) == pre.comp_queue(o),
            post.main_queue() == pre.main_queue(),
        ensures
            post.pending_weight() == pre.pending_weight() + t.weight(),
    {
        let d = pre.comp_queue(ComponentRunnableType::Destroy);
        let c = pre.comp_queue(ComponentRunnableType::Create);
        let u = pre.comp_queue(ComponentRunnableType::Update);
        let r = pre.comp_queue(ComponentRunnableType::Render);
        let m = pre.main_queue();
        let dp = post.comp_queue(ComponentRunnableType::Destroy);
        let cp = post.comp_queue(ComponentRunnableType::Create);
        let up = post.comp_queue(ComponentRunnableType::Update);
        let rp = post.comp_queue(ComponentRunnableType::Render);
        let mp = post.main_queue();
        assert(pre.pending() =~= d + c + u + r.reverse() + m);
        assert(post.pending() =~= dp + cp + up + rp.reverse() + m);
        lemma_seq_weight_concat(d, c);
        lemma_seq_weight_concat(d + c, u);
        lemma_seq_weight_concat(d + c + u, r.reverse());
        lemma_seq_weight_concat(d + c + u + r.reverse(), m);
        lemma_seq_weight_concat(dp, cp);
        lemma_seq_weight_concat(dp + cp, up);
        lemma_seq_weight_concat(dp + cp + up, rp.reverse());
        lemma_seq_weight_concat(dp + cp + up + rp.reverse(), m);
        if k is Render {
            assert(rp.reverse() =~= seq![t] + r.reverse());
            assert((seq![t] + r.reverse()).drop_first() =~= r.reverse());
            lemma_seq_weight_concat(seq![t], r.reverse());
            assert(seq![t].drop_first() =~= Seq::<Runnable>::empty());
        } else {
            lemma_seq_weight_push(pre.comp_queue(k), t);
        }
    }

    /// Acquire the re-entrancy lock and drain every queue, executing each
    /// popped step until nothing is pending; pushes made by an executing step
    /// are picked up by this same loop. If the lock is already held — the
    /// call happens from inside a running step — do nothing: the active loop
    /// will drain whatever has been pushed.
    pub fn start(&mut self, log: &mut Vec<u64>)
        ensures
            // A re-entrant call is a silent no-op: no nested drain loop runs.
            old(self).locked() ==> {
                &&& final(self).queues_unchanged(old(self))
                &&& final(self).locked()
                &&& final(log)@ == old(log)@
            },
            // Otherwise the loop drains everything, including steps pushed by
            // steps it executed, and releases the lock.
            !old(self).locked() ==> {
                &&& !final(self).locked()
                &&& final(self).pending().len() == 0
            },
            old(log)@.is_prefix_of(final(log)@),
            // When no pending step pushes further work, the executed order is
            // exactly the queue priority order: destroy, create, update,
            // render newest-first, then main.
            !old(self).locked() && spawn_free(old(self).pending()) ==> final(log)@ == old(log)@
                + labels_of(old(self).pending()),
    {
        if self.lock {
            return ;
        }
        self.lock = true;
        let ghost log0 = log@;
        let ghost pend0 = self.pending();
        let ghost sf0 = spawn_free(pend0);
        loop
            invariant
                self.locked(),
                log0.is_prefix_of(log@),
                sf0 ==> spawn_free(self.pending()),
                sf0 ==> log@ + labels_of(self.pending()) == log0 + labels_of(pend0),
            ensures
                self.pending().len() == 0,
            decreases self.pending_weight(),
        {
            let ghost w_entry = self.pending_weight();
            let ghost log_pre = log@;
            let ghost pend_pre = self.pending();
            let next = self.next_runnable();
            match next {
                None => { break ; },
                Some(step) => {
                    proof {
                        assert(pend_pre == seq![step] + self.pending());
                        assert(labels_of(pend_pre) =~= seq![step.label] + labels_of(
                            self.pending(),
                        ));
                        if sf0 {
                            assert forall|i: int| 0 <= i < self.pending().len() implies (
                            #[trigger] self.pending()[i]).is_leaf() by {
                                assert(self.pending()[i] == pend_pre[i + 1]);
                            }
                            assert(step == pend_pre[0]);
                        }
                        assert(seq_weight(pend_pre) == step.weight() + self.pending_weight()) by {
                            assert(pend_pre.drop_first() =~= self.pending());
                        }
                    }
                    log.push(step.label);
                    proof {
                        assert(log@ + labels_of(self.pending()) =~= log_pre + labels_of(pend_pre));
                        assert(log0.is_prefix_of(log@)) by {
                            assert(log@.subrange(0, log0.len() as int) =~= log_pre.subrange(
                                0,
                                log0.len() as int,
                            ));
                        }
                    }
                    let ghost w_popped = self.pending_weight();
                    let n_comp = step.comp_pushes.len();
                    let mut i: usize = 0;
                    while i < n_comp
                        invariant
                            i <= n_comp,
                            n_comp == step.comp_pushes@.len(),
                            self.locked(),
                            self.pending_weight() == w_popped + i,
                            sf0 ==> step.is_leaf(),
                            sf0 ==> spawn_free(self.pending()),
                            sf0 ==> log@ + labels_of(self.pending()) == log0 + labels_of(pend0),
                        decreases n_comp - i,
                    {
                        let ghost pre = *self;
                        let kind = step.comp_pushes[i].0;
                        let lab = step.comp_pushes[i].1;
                        let pushed = Runnable::leaf(lab);
                        let ghost pushed_g = pushed;
                        self.push_comp(kind, pushed);
                        proof {
                            Self::lemma_weight_after_comp_push(pre, *self, kind, pushed_g);
                        }
                        i = i + 1;
                    }
                    let n_main = step.main_pushes.len();
                    let mut j: usize = 0;
                    while j < n_main
                        invariant
                            j <= n_main,
                            n_main == step.main_pushes@.len(),
                            self.locked(),
                            self.pending_weight() == w_popped + n_comp + j,
                            sf0 ==> step.is_leaf(),
                            sf0 ==> spawn_free(self.pending()),
                            sf0 ==> log@ + labels_of(self.pending()) == log0 + labels_of(pend0),
                        decreases n_main - j,
                    {
                        let ghost pre_p = self.pending();
                        let lab = step.main_pushes[j];
                        let pushed = Runnable::leaf(lab);
                        let ghost pushed_g = pushed;
                        self.push(pushed);
                        proof {
                            lemma_seq_weight_push(pre_p, pushed_g);
                        }
                        j = j + 1;
                    }
                    proof {
                        assert(self.pending_weight() < w_entry);
                    }
                },
            }
        }
        self.lock = false;
        proof {
            if sf0 {
                assert(labels_of(self.pending()) =~= Seq::<u64>::empty());
                assert(log@ =~= log0 + labels_of(pend0));
            }
        }
    }
}

impl Scheduler<Runnable> {
    /// The composite operation of the component-action entry point: enqueue
    /// the action into its slot, then invoke `start`. With the lock free,
    /// everything queued — this action included — executes before the call
    /// returns; while a loop is already draining, the action only joins its
    /// queue and the active loop picks it up.
    pub fn push_comp_start(
        &mut self,
        run_type: ComponentRunnableType,
        runnable: Runnable,
        log: &mut Vec<u64>,
    )
        ensures
            old(self).locked() ==> {
                &&& final(self).locked()
                &&& final(self).comp_queue(run_type) == old(self).comp_queue(run_type).push(
                    runnable,
                )
                &&& forall|other: ComponentRunnableType|
                    other != run_type ==> final(self).comp_queue(other) == old(self).comp_queue(
                        other,
                    )
                &&& final(self).main_queue() == old(self).main_queue()
                &&& final(log)@ == old(log)@
            },
            !old(self).locked() ==> {
                &&& !final(self).locked()
                &&& final(self).pending().len() == 0
            },
            old(log)@.is_prefix_of(final(log)@),
            !old(self).locked() && spawn_free(old(self).pending()) && runnable.is_leaf() ==> final(log)@ == old(log)@ + labels_of(
                pending_after_push_comp(old(self), run_type, runnable),
            ),
    {
        let ghost pre = *self;
        self.push_comp(run_type, runnable);
        proof {
            pre.lemma_pending_decomposition();
            self.lemma_pending_decomposition();
            assert(self.pending() =~= pending_after_push_comp(&pre, run_type, runnable));
            if !pre.locked() && spawn_free(pre.pending()) && runnable.is_leaf() {
                let d = pre.comp_queue(ComponentRunnableType::Destroy);
                let c = pre.comp_queue(ComponentRunnableType::Create);
                let u = pre.comp_queue(ComponentRunnableType::Update);
                let r = pre.comp_queue(ComponentRunnableType::Render);
                let m = pre.main_queue();
                assert(spawn_free(d + c + u + r.reverse() + m));
                lemma_spawn_free_split(d + c + u + r.reverse(), m);
                lemma_spawn_free_split(d + c + u, r.reverse());
                lemma_spawn_free_split(d + c, u);
                lemma_spawn_free_split(d, c);
                assert(spawn_free(seq![runnable])) by {
                    assert(seq![runnable][0] == runnable);
                }
                if run_type == ComponentRunnableType::Render {
                    assert(r.push(runnable).reverse() =~= seq![runnable] + r.reverse());
                    lemma_spawn_free_concat(seq![runnable], r.reverse());
                } else {
                    assert(spawn_free(d.push(runnable))
                        || !(run_type == ComponentRunnableType::Destroy)) by {
                        if run_type == ComponentRunnableType::Destroy {
                            assert(d.push(runnable) =~= d + seq![runnable]);
                            lemma_spawn_free_concat(d, seq![runnable]);
                        }
                    }
                    assert(spawn_free(c.push(runnable))
                        || !(run_type == ComponentRunnableType::Create)) by {
                        if run_type == ComponentRunnableType::Create {
                            assert(c.push(runnable) =~= c + seq![runnable]);
                            lemma_spawn_free_concat(c, seq![runnable]);
                        }
                    }
                    assert(spawn_free(u.push(runnable))
                        || !(run_type == ComponentRunnableType::Update)) by {
                        if run_type == ComponentRunnableType::Update {
                            assert(u.push(runnable) =~= u + seq![runnable]);
                            lemma_spawn_free_concat(u, seq![runnable]);
                        }
                    }
                }
                let s0 = if run_type == ComponentRunnableType::Destroy {
                    d.push(runnable)
                } else {
                    d
                };
                let s1 = if run_type == ComponentRunnableType::Create {
                    c.push(runnable)
                } else {
                    c
                };
                let s2 = if run_type == ComponentRunnableType::Update {
                    u.push(runnable)
                } else {
                    u
                };
                let s3 = if run_type == ComponentRunnableType::Render {
                    r.push(runnable).reverse()
                } else {
                    r.reverse()
                };
                lemma_spawn_free_concat(s0, s1);
                lemma_spawn_free_concat(s0 + s1, s2);
                lemma_spawn_free_concat(s0 + s1 + s2, s3);
                lemma_spawn_free_concat(s0 + s1 + s2 + s3, m);
                assert(spawn_free(self.pending()));
            }
        }
        self.start(log);
    }

    /// The composite operation of the general entry point: enqueue into
    /// `main`, then invoke `start`. With the lock free, everything queued —
    /// this action included — executes before the call returns.
    pub fn push_start(&mut self, runnable: Runnable, log: &mut Vec<u64>)
        ensures
            old(self).locked() ==> {
                &&& final(self).locked()
                &&& final(self).main_queue() == old(self).main_queue().push(runnable)
                &&& forall|other: ComponentRunnableType|
                    final(self).comp_queue(other) == old(self).comp_queue(other)
                &&& final(log)@ == old(log)@
            },
            !old(self).locked() ==> {
                &&& !final(self).locked()
                &&& final(self).pending().len() == 0
            },
            old(log)@.is_prefix_of(final(log)@),
            !old(self).locked() && spawn_free(old(self).pending()) && runnable.is_leaf() ==> final(log)@ == old(log)@ + labels_of(
                old(self).pending().push(runnable),
            ),
    {
        let ghost pre = *self;
        self.push(runnable);
        proof {
            if !pre.locked() && spawn_free(pre.pending()) && runnable.is_leaf() {
                assert(pre.pending().push(runnable) =~= pre.pending() + seq![runnable]);
                assert(spawn_free(seq![runnable])) by {
                    assert(seq![runnable][0] == runnable);
                }
                lemma_spawn_free_concat(pre.pending(), seq![runnable]);
                assert(spawn_free(self.pending()));
            }
        }
        self.start(log);
    }
}

/// A fresh scheduler for one execution context. Each context constructs its
/// own instance and threads it through explicitly; a single instance per
/// context is the intended discipline.
pub fn scheduler<T>() -> (s: Scheduler<T>)
    ensures
        !s.locked(),
        s.comp_queue(ComponentRunnableType::Destroy) == Seq::<T>::empty(),
        s.comp_queue(ComponentRunnableType::Create) == Seq::<T>::empty(),
        s.comp_queue(ComponentRunnableType::Update) == Seq::<T>::empty(),
        s.comp_queue(ComponentRunnableType::Render) == Seq::<T>::empty(),
        s.main_queue() == Seq::<T>::empty(),
        s.pending() == Seq::<T>::empty(),
{
    Scheduler::new()
}

} // verus!

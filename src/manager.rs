//! The runtime manager's bookkeeping: executors and round-robin placement, the
//! registry of live actors, and the staging of actors whose subtree is still
//! stopping. Each handler takes one command and says what must be sent next;
//! the thread that owns the manager performs those sends.
use vstd::prelude::*;
use vstd::string::*;
use crate::address::ActorAddress;
use crate::error::BusanError;
use crate::table::{keys_unique, lookup, lemma_lookup_absent, lemma_lookup_found, lemma_lookup_push, lemma_lookup_remove, lemma_unique_push};
use crate::uri::{Uri, UriView};

verus! {

/// A live actor: where its mailbox is and which executor runs it.
pub struct RegistryEntry<M> {
    pub uri: Uri,
    pub mailbox: M,
    pub executor: String,
}

/// An actor that has begun to stop and waits for `wait_count` children.
pub struct StagingEntry<M> {
    pub uri: Uri,
    pub parent: Option<ActorAddress<M>>,
    pub wait_count: usize,
    pub executor: String,
}

/// The end of an actor's shutdown: tell `executor` that `address` is complete,
/// tell the manager itself that a child of `notify_parent` finished, and, when
/// `system_idle`, that the whole system may shut down.
pub struct Completion<M> {
    pub executor: String,
    pub address: ActorAddress<M>,
    pub notify_parent: Option<ActorAddress<M>>,
    pub system_idle: bool,
}

/// What a shutdown notice leads to: children to stop, each with its executor,
/// and possibly the completion of the actor itself.
pub struct ShutdownStep<M> {
    pub forward: Vec<(Uri, String)>,
    pub completion: Option<Completion<M>>,
}

/// The children to stop: those still registered, in order, with their executor.
pub open spec fn forwarded<M>(
    reg: Seq<(UriView, (M, Seq<char>))>,
    children: Seq<UriView>,
) -> Seq<(UriView, Seq<char>)>
    decreases children.len(),
{
    if children.len() == 0 {
        Seq::empty()
    } else {
        let rest = forwarded(reg, children.drop_last());
        match lookup(reg, children.last()) {
            Some(v) => rest.push((children.last(), v.1)),
            None => rest,
        }
    }
}

/// Which executor index the round-robin cursor `rr` designates among `n`.
pub open spec fn cursor(rr: nat, n: nat) -> nat {
    if rr >= n {
        0
    } else {
        rr
    }
}

/// The staging table's view: URI, then parent, children still awaited, executor.
pub type StagingView<M> = Seq<(UriView, (Option<ActorAddress<M>>, nat, Seq<char>))>;

/// What one child-completion notice for `u` does to the staging table, and
/// whether the staged actor `u` completes with it.
pub open spec fn child_notice_step<M>(
    before: StagingView<M>,
    after: StagingView<M>,
    u: UriView,
    completes: bool,
) -> bool {
    match lookup(before, u) {
        None => !completes && after == before,
        Some((p, w, ex)) => if w == 1 {
            &&& completes
            &&& forall|k: UriView|
                lookup(after, k) == if k == u {
                    None
                } else {
                    lookup(before, k)
                }
        } else {
            &&& !completes
            &&& forall|k: UriView|
                lookup(after, k) == if k == u {
                    Some((p, (w - 1) as nat, ex))
                } else {
                    lookup(before, k)
                }
        },
    }
}

/// What an executor's report that it stopped does to the executor names, and
/// whether the manager's loop ends with it.
pub open spec fn executor_exit_step(
    before: Seq<Seq<char>>,
    after: Seq<Seq<char>>,
    name: Seq<char>,
    exit: bool,
) -> bool {
    if before.contains(name) {
        &&& !after.contains(name)
        &&& after.len() + 1 == before.len()
        &&& forall|x: Seq<char>| x != name ==> (after.contains(x) <==> before.contains(x))
        &&& exit == (after.len() == 0)
    } else {
        after == before && !exit
    }
}

proof fn lemma_staged_countdown<M>(
    trace: Seq<StagingView<M>>,
    done: Seq<bool>,
    u: UriView,
    p: Option<ActorAddress<M>>,
    w: nat,
    ex: Seq<char>,
    i: nat,
)
    requires
        trace.len() == done.len() + 1,
        w >= 1,
        lookup(trace[0], u) == Some((p, w, ex)),
        forall|j: int| 0 <= j < done.len() ==> child_notice_step(trace[j], trace[j + 1], u, #[trigger] done[j]),
        i < trace.len(),
    ensures
        lookup(trace[i as int], u) == if i < w {
            Some((p, (w - i) as nat, ex))
        } else {
            None::<(Option<ActorAddress<M>>, nat, Seq<char>)>
        },
    decreases i,
{
    if i > 0 {
        lemma_staged_countdown(trace, done, u, p, w, ex, (i - 1) as nat);
        assert(child_notice_step(trace[i - 1], trace[i as int], u, done[i - 1]));
    }
}

/// Cascading shutdown at the manager: an actor staged while it waits for `w`
/// children completes at the `w`-th child-completion notice for it, and at no
/// other notice, however many more arrive.
pub proof fn lemma_completes_at_last_child<M>(
    trace: Seq<StagingView<M>>,
    done: Seq<bool>,
    u: UriView,
    w: nat,
)
    requires
        trace.len() == done.len() + 1,
        lookup(trace[0], u) is Some,
        lookup(trace[0], u)->Some_0.1 == w,
        w >= 1,
        forall|j: int| 0 <= j < done.len() ==> child_notice_step(trace[j], trace[j + 1], u, #[trigger] done[j]),
    ensures
        forall|j: int| 0 <= j < done.len() ==> (#[trigger] done[j] <==> j == w - 1),
{
    let (p, _, ex) = lookup(trace[0], u)->Some_0;
    assert forall|j: int| 0 <= j < done.len() implies (#[trigger] done[j] <==> j == w - 1) by {
        lemma_staged_countdown(trace, done, u, p, w, ex, j as nat);
        assert(child_notice_step(trace[j], trace[j + 1], u, done[j]));
    }
}

proof fn lemma_executors_countdown(
    trace: Seq<Seq<Seq<char>>>,
    exits: Seq<bool>,
    order: Seq<Seq<char>>,
    i: nat,
)
    requires
        trace.len() == order.len() + 1,
        exits.len() == order.len(),
        order.len() == trace[0].len(),
        forall|a: int, b: int| 0 <= a < b < order.len() ==> order[a] != order[b],
        forall|j: int| 0 <= j < order.len() ==> trace[0].contains(#[trigger] order[j]),
        forall|j: int|
            0 <= j < order.len() ==> executor_exit_step(trace[j], trace[j + 1], #[trigger] order[j], exits[j]),
        i < trace.len(),
    ensures
        trace[i as int].len() + i == trace[0].len(),
        forall|x: Seq<char>|
            trace[i as int].contains(x) <==> (trace[0].contains(x) && !order.take(i as int).contains(x)),
    decreases i,
{
    if i > 0 {
        let k = (i - 1) as int;
        lemma_executors_countdown(trace, exits, order, k as nat);
        assert(executor_exit_step(trace[k], trace[k + 1], order[k], exits[k]));
        assert(order.take(i as int) =~= order.take(k).push(order[k]));
        assert(!order.take(k).contains(order[k])) by {
            if order.take(k).contains(order[k]) {
                let a = choose|a: int| 0 <= a < order.take(k).len() && order.take(k)[a] == order[k];
                assert(order[a] == order[k]);
            }
        }
        assert(trace[k].contains(order[k]));
        let o = order[k];
        assert forall|x: Seq<char>|
            trace[i as int].contains(x) <==> (trace[0].contains(x) && !order.take(
                i as int,
            ).contains(x)) by {
            if order.take(k).push(o).contains(x) && x != o {
                let a = choose|a: int|
                    0 <= a < order.take(k).push(o).len() && order.take(k).push(o)[a] == x;
                assert(order.take(k)[a] == x);
            }
            if order.take(k).contains(x) {
                let a = choose|a: int| 0 <= a < order.take(k).len() && order.take(k)[a] == x;
                assert(order.take(k).push(o)[a] == x);
            }
            if x == o {
                assert(order.take(k).push(o)[k] == o);
            }
        }
    } else {
        assert(order.take(0) =~= Seq::<Seq<char>>::empty());
        assert(trace[0] =~= trace[i as int]);
    }
}

/// Orderly end of the system: once every executor has reported that it
/// stopped, each once and in any order, the manager's loop ends, and it ends
/// at that last report and at no earlier one.
pub proof fn lemma_manager_exits_after_last_executor(
    trace: Seq<Seq<Seq<char>>>,
    exits: Seq<bool>,
    order: Seq<Seq<char>>,
)
    requires
        trace.len() == order.len() + 1,
        exits.len() == order.len(),
        order.len() == trace[0].len(),
        forall|a: int, b: int| 0 <= a < b < order.len() ==> order[a] != order[b],
        forall|j: int| 0 <= j < order.len() ==> trace[0].contains(#[trigger] order[j]),
        forall|j: int|
            0 <= j < order.len() ==> executor_exit_step(trace[j], trace[j + 1], #[trigger] order[j], exits[j]),
    ensures
        forall|j: int| 0 <= j < exits.len() ==> (#[trigger] exits[j] <==> j == exits.len() - 1),
{
    assert forall|j: int| 0 <= j < exits.len() implies (#[trigger] exits[j] <==> j == exits.len() - 1) by {
        lemma_executors_countdown(trace, exits, order, j as nat);
        assert(executor_exit_step(trace[j], trace[j + 1], order[j], exits[j]));
        assert(trace[j].contains(order[j])) by {
            assert(!order.take(j).contains(order[j])) by {
                if order.take(j).contains(order[j]) {
                    let a = choose|a: int| 0 <= a < order.take(j).len() && order.take(j)[a] == order[j];
                    assert(order[a] == order[j]);
                }
            }
        }
    }
}

pub struct RuntimeManager<M> {
    pub executors: Vec<String>,
    pub registry: Vec<RegistryEntry<M>>,
    pub staging: Vec<StagingEntry<M>>,
    pub round_robin_state: usize,
    pub shutdown_initiated: bool,
}

impl<M> RuntimeManager<M> {
    pub open spec fn executor_names(&self) -> Seq<Seq<char>> {
        self.executors@.map_values(|s: String| s@)
    }

    pub open spec fn registry_view(&self) -> Seq<(UriView, (M, Seq<char>))> {
        self.registry@.map_values(|e: RegistryEntry<M>| (e.uri@, (e.mailbox, e.executor@)))
    }

    pub open spec fn staging_view(&self) -> StagingView<M> {
        self.staging@.map_values(
            |e: StagingEntry<M>| (e.uri@, (e.parent, e.wait_count as nat, e.executor@)),
        )
    }

    /// Executor names and URIs are unique, and every staged actor waits for
    /// at least one child.
    pub open spec fn wf(&self) -> bool {
        &&& forall|i: int, j: int|
            0 <= i < j < self.executors@.len() ==> self.executor_names()[i]
                != self.executor_names()[j]
        &&& keys_unique(self.registry_view())
        &&& keys_unique(self.staging_view())
        &&& forall|i: int| 0 <= i < self.staging@.len() ==> self.staging@[i].wait_count >= 1
    }

    /// Well-formedness survives a change of the registry that keeps its keys unique.
    pub proof fn lemma_wf_frame(a: &Self, b: &Self)
        requires
            a.wf(),
            a.executors@ == b.executors@,
            a.staging@ == b.staging@,
            keys_unique(b.registry_view()),
        ensures
            b.wf(),
    {
        assert(a.executor_names() == b.executor_names());
        assert(a.staging_view() == b.staging_view());
    }

    /// Well-formedness of a manager with the same executors and well-formed tables.
    pub proof fn lemma_wf_tables(a: &Self, b: &Self)
        requires
            a.wf(),
            a.executors@ == b.executors@,
            keys_unique(b.registry_view()),
            keys_unique(b.staging_view()),
            forall|i: int| 0 <= i < b.staging@.len() ==> b.staging@[i].wait_count >= 1,
        ensures
            b.wf(),
    {
        assert(a.executor_names() == b.executor_names());
    }

    /// A manager with no executors and no actors.
    pub fn new() -> (r: RuntimeManager<M>)
        ensures
            r.wf(),
            r.executors@.len() == 0,
            r.registry@.len() == 0,
            r.staging@.len() == 0,
            r.round_robin_state == 0,
            !r.shutdown_initiated,
    {
        RuntimeManager {
            executors: Vec::new(),
            registry: Vec::new(),
            staging: Vec::new(),
            round_robin_state: 0,
            shutdown_initiated: false,
        }
    }

    fn executor_index(&self, name: &String) -> (r: Option<usize>)
        ensures
            match r {
                Some(i) => i < self.executors@.len() && self.executor_names()[i as int] == name@,
                None => forall|i: int|
                    0 <= i < self.executors@.len() ==> self.executor_names()[i] != name@,
            },
    {
        let mut i: usize = 0;
        while i < self.executors.len()
            invariant
                i <= self.executors@.len(),
                forall|j: int| 0 <= j < i ==> self.executor_names()[j] != name@,
            decreases self.executors@.len() - i,
        {
            if self.executors[i].eq(name) {
                return Some(i);
            }
            i = i + 1;
        }
        None
    }

    fn registry_index(&self, uri: &Uri) -> (r: Option<usize>)
        ensures
            match r {
                Some(i) => i < self.registry@.len() && self.registry_view()[i as int].0 == uri@,
                None => forall|i: int|
                    0 <= i < self.registry@.len() ==> self.registry_view()[i].0 != uri@,
            },
    {
        let mut i: usize = 0;
        while i < self.registry.len()
            invariant
                i <= self.registry@.len(),
                forall|j: int| 0 <= j < i ==> self.registry_view()[j].0 != uri@,
            decreases self.registry@.len() - i,
        {
            if self.registry[i].uri.eq(uri) {
                return Some(i);
            }
            i = i + 1;
        }
        None
    }

    fn staging_index(&self, uri: &Uri) -> (r: Option<usize>)
        ensures
            match r {
                Some(i) => i < self.staging@.len() && self.staging_view()[i as int].0 == uri@,
                None => forall|i: int|
                    0 <= i < self.staging@.len() ==> self.staging_view()[i].0 != uri@,
            },
    {
        let mut i: usize = 0;
        while i < self.staging.len()
            invariant
                i <= self.staging@.len(),
                forall|j: int| 0 <= j < i ==> self.staging_view()[j].0 != uri@,
            decreases self.staging@.len() - i,
        {
            if self.staging[i].uri.eq(uri) {
                return Some(i);
            }
            i = i + 1;
        }
        None
    }
}

impl<M> RuntimeManager<M> {
    /// Adds an executor to the placement rotation; a name already present is
    /// left as it is.
    pub fn add_executor(&mut self, name: String)
        requires
            old(self).wf(),
        ensures
            final(self).wf(),
            final(self).executor_names() == if old(self).executor_names().contains(name@) {
                old(self).executor_names()
            } else {
                old(self).executor_names().push(name@)
            },
            final(self).registry == old(self).registry,
            final(self).staging == old(self).staging,
            final(self).round_robin_state == old(self).round_robin_state,
            final(self).shutdown_initiated == old(self).shutdown_initiated,
    {
        match self.executor_index(&name) {
            Some(i) => {
                assert(self.executor_names().contains(name@)) by {
                    assert(self.executor_names()[i as int] == name@);
                }
            },
            None => {
                let ghost old_names = self.executor_names();
                let ghost n = name@;
                self.executors.push(name);
                assert(self.executor_names() =~= old_names.push(n));
                assert(!old_names.contains(n));
            },
        }
    }

    /// The next executor in round-robin order; the cursor wraps at the end.
    /// `None` when there are no executors.
    pub fn next_executor(&mut self) -> (r: Option<String>)
        requires
            old(self).wf(),
        ensures
            final(self).wf(),
            final(self).executors == old(self).executors,
            final(self).registry == old(self).registry,
            final(self).staging == old(self).staging,
            final(self).shutdown_initiated == old(self).shutdown_initiated,
            old(self).executors@.len() == 0 ==> r is None && final(self).round_robin_state
                == old(self).round_robin_state,
            old(self).executors@.len() > 0 ==> {
                let c = cursor(
                    old(self).round_robin_state as nat,
                    old(self).executors@.len() as nat,
                );
                &&& r is Some
                &&& r->Some_0@ == old(self).executor_names()[c as int]
                &&& final(self).round_robin_state == c + 1
            },
    {
        let n = self.executors.len();
        if n == 0 {
            return None;
        }
        if self.round_robin_state >= n {
            self.round_robin_state = 0;
        }
        let name = self.executors[self.round_robin_state].clone();
        self.round_robin_state = self.round_robin_state + 1;
        proof {
            Self::lemma_wf_frame(old(self), self);
        }
        Some(name)
    }

    /// Records `uri` as live with `mailbox`, replacing an earlier entry for it.
    fn registry_insert(&mut self, uri: Uri, mailbox: M, executor: String)
        requires
            old(self).wf(),
        ensures
            final(self).wf(),
            forall|k: UriView|
                lookup(final(self).registry_view(), k) == if k == uri@ {
                    Some((mailbox, executor@))
                } else {
                    lookup(old(self).registry_view(), k)
                },
            final(self).executors == old(self).executors,
            final(self).staging == old(self).staging,
            final(self).round_robin_state == old(self).round_robin_state,
            final(self).shutdown_initiated == old(self).shutdown_initiated,
    {
        let ghost u = uri@;
        let ghost v = (mailbox, executor@);
        match self.registry_index(&uri) {
            Some(i) => {
                let ghost before = self.registry_view();
                self.registry.remove(i);
                assert(self.registry_view() =~= before.remove(i as int));
                proof {
                    assert forall|k: UriView|
                        lookup(self.registry_view(), k) == if k == u {
                            None
                        } else {
                            lookup(before, k)
                        } by {
                        lemma_lookup_remove(before, i as int, k);
                    }
                }
            },
            None => {
                proof {
                    lemma_lookup_absent(self.registry_view(), u);
                }
            },
        }
        let ghost mid = self.registry_view();
        proof {
            lemma_lookup_absent(mid, u);
        }
        self.registry.push(RegistryEntry { uri, mailbox, executor });
        assert(self.registry_view() =~= mid.push((u, v)));
        proof {
            lemma_unique_push(mid, (u, v));
            Self::lemma_wf_frame(old(self), self);
            assert forall|k: UriView|
                lookup(self.registry_view(), k) == if k == u {
                    Some(v)
                } else {
                    lookup(mid, k)
                } by {
                lemma_lookup_push(mid, (u, v), k);
            }
        }
    }
}

/// The message of an actor that cannot be placed.
pub open spec fn no_executor_message() -> Seq<char> {
    "no executors available"@
}

impl<M> RuntimeManager<M> {
    /// Places a new actor: picks the next executor round-robin and registers
    /// `uri` with its mailbox there. Fails when there is no executor.
    pub fn assign_actor(&mut self, uri: Uri, mailbox: M) -> (r: Result<String, BusanError>)
        requires
            old(self).wf(),
        ensures
            final(self).wf(),
            final(self).executors == old(self).executors,
            final(self).staging == old(self).staging,
            final(self).shutdown_initiated == old(self).shutdown_initiated,
            match r {
                Ok(name) => {
                    let c = cursor(
                        old(self).round_robin_state as nat,
                        old(self).executors@.len() as nat,
                    );
                    &&& old(self).executors@.len() > 0
                    &&& name@ == old(self).executor_names()[c as int]
                    &&& final(self).round_robin_state == c + 1
                    &&& forall|k: UriView|
                        lookup(final(self).registry_view(), k) == if k == uri@ {
                            Some((mailbox, name@))
                        } else {
                            lookup(old(self).registry_view(), k)
                        }
                },
                Err(BusanError::UnassignableActor(msg)) => {
                    &&& old(self).executors@.len() == 0
                    &&& msg@ == no_executor_message()
                    &&& final(self).registry == old(self).registry
                    &&& final(self).round_robin_state == old(self).round_robin_state
                },
            },
    {
        match self.next_executor() {
            None => Err(BusanError::UnassignableActor(String::from_str("no executors available"))),
            Some(name) => {
                let executor = name.clone();
                self.registry_insert(uri, mailbox, executor);
                Ok(name)
            },
        }
    }

    /// The mailbox registered for `uri`, if the actor is live.
    pub fn resolve(&self, uri: &Uri) -> (r: Option<&M>)
        requires
            self.wf(),
        ensures
            match r {
                Some(m) => lookup(self.registry_view(), uri@) is Some && lookup(
                    self.registry_view(),
                    uri@,
                )->Some_0.0 == *m,
                None => lookup(self.registry_view(), uri@) is None,
            },
    {
        match self.registry_index(uri) {
            Some(i) => {
                proof {
                    lemma_lookup_found(self.registry_view(), i as int);
                }
                Some(&self.registry[i].mailbox)
            },
            None => {
                proof {
                    lemma_lookup_absent(self.registry_view(), uri@);
                }
                None
            },
        }
    }

    /// Starts system shutdown: the first call returns every executor, each to be
    /// told to stop; later calls return nothing.
    pub fn shutdown_system(&mut self) -> (r: Vec<String>)
        ensures
            final(self).shutdown_initiated,
            final(self).executors == old(self).executors,
            final(self).registry == old(self).registry,
            final(self).staging == old(self).staging,
            final(self).round_robin_state == old(self).round_robin_state,
            r@.map_values(|s: String| s@) == if old(self).shutdown_initiated {
                Seq::<Seq<char>>::empty()
            } else {
                old(self).executor_names()
            },
    {
        let mut out: Vec<String> = Vec::new();
        if self.shutdown_initiated {
            assert(out@.map_values(|s: String| s@) =~= Seq::<Seq<char>>::empty());
            return out;
        }
        self.shutdown_initiated = true;
        let mut i: usize = 0;
        while i < self.executors.len()
            invariant
                i <= self.executors@.len(),
                out@.len() == i,
                forall|j: int| 0 <= j < i ==> #[trigger] out@[j]@ == self.executors@[j]@,
            decreases self.executors@.len() - i,
        {
            out.push(self.executors[i].clone());
            i = i + 1;
        }
        assert(out@.map_values(|s: String| s@) =~= self.executor_names());
        out
    }

    /// An executor has stopped: it leaves the rotation. True when it was the
    /// last one, and the manager's loop ends.
    pub fn executor_shutdown(&mut self, name: &String) -> (r: bool)
        requires
            old(self).wf(),
        ensures
            final(self).wf(),
            final(self).registry == old(self).registry,
            final(self).staging == old(self).staging,
            final(self).round_robin_state == old(self).round_robin_state,
            final(self).shutdown_initiated == old(self).shutdown_initiated,
            old(self).executor_names().contains(name@) ==> {
                &&& !final(self).executor_names().contains(name@)
                &&& final(self).executor_names().len() + 1 == old(self).executor_names().len()
                &&& forall|x: Seq<char>|
                    x != name@ ==> (final(self).executor_names().contains(x)
                        <==> old(self).executor_names().contains(x))
                &&& r == (final(self).executors@.len() == 0)
            },
            !old(self).executor_names().contains(name@) ==> final(self).executors
                == old(self).executors && !r,
            executor_exit_step(old(self).executor_names(), final(self).executor_names(), name@, r),
    {
        match self.executor_index(name) {
            None => false,
            Some(i) => {
                let ghost before = self.executor_names();
                self.executors.remove(i);
                assert(self.executor_names() =~= before.remove(i as int));
                proof {
                    assert forall|a: int, b: int|
                        0 <= a < b < self.executors@.len() implies self.executor_names()[a]
                        != self.executor_names()[b] by {
                        let a2 = if a < i { a } else { a + 1 };
                        let b2 = if b < i { b } else { b + 1 };
                        assert(self.executor_names()[a] == before[a2]);
                        assert(self.executor_names()[b] == before[b2]);
                    }
                    assert(!self.executor_names().contains(name@)) by {
                        if self.executor_names().contains(name@) {
                            let k = choose|k: int|
                                0 <= k < self.executor_names().len() && self.executor_names()[k]
                                    == name@;
                            let k2 = if k < i { k } else { k + 1 };
                            assert(before[k2] == name@);
                        }
                    }
                    assert forall|x: Seq<char>| x != name@ implies (
                    self.executor_names().contains(x) <==> before.contains(x)) by {
                        if before.contains(x) {
                            let k = choose|k: int| 0 <= k < before.len() && before[k] == x;
                            let k2 = if k < i { k } else { k - 1 };
                            assert(self.executor_names()[k2] == x);
                        }
                        if self.executor_names().contains(x) {
                            let k = choose|k: int|
                                0 <= k < self.executor_names().len() && self.executor_names()[k]
                                    == x;
                            let k2 = if k < i { k } else { k + 1 };
                            assert(before[k2] == x);
                        }
                    }
                }
                self.executors.len() == 0
            },
        }
    }
}

impl<M> RuntimeManager<M> {
    fn complete(&self, executor: String, address: ActorAddress<M>, parent: Option<ActorAddress<M>>) -> (r: Completion<M>)
        ensures
            r.executor == executor,
            r.address == address,
            r.notify_parent == parent,
            r.system_idle == (self.registry@.len() == 0 && self.staging@.len() == 0),
    {
        let system_idle = self.registry.len() == 0 && self.staging.len() == 0;
        Completion { executor, address, notify_parent: parent, system_idle }
    }

    /// Stages `entry`, whose URI has no staging entry.
    fn staging_push(&mut self, entry: StagingEntry<M>)
        requires
            old(self).wf(),
            entry.wait_count >= 1,
            lookup(old(self).staging_view(), entry.uri@) is None,
        ensures
            final(self).wf(),
            forall|k: UriView|
                lookup(final(self).staging_view(), k) == if k == entry.uri@ {
                    Some((entry.parent, entry.wait_count as nat, entry.executor@))
                } else {
                    lookup(old(self).staging_view(), k)
                },
            final(self).executors == old(self).executors,
            final(self).registry == old(self).registry,
            final(self).round_robin_state == old(self).round_robin_state,
            final(self).shutdown_initiated == old(self).shutdown_initiated,
    {
        let ghost before = self.staging_view();
        let ghost e = (entry.uri@, (entry.parent, entry.wait_count as nat, entry.executor@));
        self.staging.push(entry);
        assert(self.staging_view() =~= before.push(e));
        proof {
            lemma_unique_push(before, e);
            assert forall|k: UriView|
                lookup(self.staging_view(), k) == if k == e.0 {
                    Some(e.1)
                } else {
                    lookup(before, k)
                } by {
                lemma_lookup_push(before, e, k);
            }
            assert(forall|i: int| 0 <= i < self.staging@.len() ==> self.staging@[i].wait_count >= 1);
            assert(self.registry_view() == old(self).registry_view());
            Self::lemma_wf_tables(old(self), self);
        }
    }

    /// Takes the staging entry at index `i` out.
    fn staging_take(&mut self, i: usize) -> (r: StagingEntry<M>)
        requires
            old(self).wf(),
            i < old(self).staging@.len(),
        ensures
            final(self).wf(),
            r == old(self).staging@[i as int],
            lookup(old(self).staging_view(), r.uri@) == Some(
                (r.parent, r.wait_count as nat, r.executor@),
            ),
            forall|k: UriView|
                lookup(final(self).staging_view(), k) == if k == r.uri@ {
                    None
                } else {
                    lookup(old(self).staging_view(), k)
                },
            final(self).executors == old(self).executors,
            final(self).registry == old(self).registry,
            final(self).round_robin_state == old(self).round_robin_state,
            final(self).shutdown_initiated == old(self).shutdown_initiated,
    {
        let ghost before = self.staging_view();
        proof {
            lemma_lookup_found(before, i as int);
        }
        let r = self.staging.remove(i);
        assert(self.staging_view() =~= before.remove(i as int));
        proof {
            assert forall|k: UriView|
                lookup(self.staging_view(), k) == if k == r.uri@ {
                    None
                } else {
                    lookup(before, k)
                } by {
                lemma_lookup_remove(before, i as int, k);
            }
            assert forall|j: int| 0 <= j < self.staging@.len() implies self.staging@[j].wait_count
                >= 1 by {
                let j2 = if j < i { j } else { j + 1 };
                assert(self.staging@[j] == old(self).staging@[j2]);
            }
            assert(self.registry_view() == old(self).registry_view());
            Self::lemma_wf_tables(old(self), self);
        }
        r
    }

    /// An actor has begun to stop (its `before_stop` ran). It leaves the
    /// registry; its still-registered children are to be stopped; with no
    /// children it completes at once, otherwise it is staged until as many
    /// child completions as it had children have come in. A notice for an
    /// actor that is not registered changes nothing.
    pub fn actor_shutdown_notice(
        &mut self,
        address: ActorAddress<M>,
        parent: Option<ActorAddress<M>>,
        children: Vec<ActorAddress<M>>,
    ) -> (r: ShutdownStep<M>)
        requires
            old(self).wf(),
        ensures
            final(self).wf(),
            final(self).executors == old(self).executors,
            final(self).round_robin_state == old(self).round_robin_state,
            final(self).shutdown_initiated == old(self).shutdown_initiated,
            lookup(old(self).registry_view(), address.uri@) is None ==> {
                &&& final(self).registry == old(self).registry
                &&& final(self).staging == old(self).staging
                &&& r.forward@.len() == 0
                &&& r.completion is None
            },
            lookup(old(self).registry_view(), address.uri@) is Some ==> {
                let executor = lookup(old(self).registry_view(), address.uri@)->Some_0.1;
                &&& forall|k: UriView|
                    lookup(final(self).registry_view(), k) == if k == address.uri@ {
                        None
                    } else {
                        lookup(old(self).registry_view(), k)
                    }
                &&& r.forward@.map_values(|p: (Uri, String)| (p.0@, p.1@)) == forwarded(
                    final(self).registry_view(),
                    children@.map_values(|a: ActorAddress<M>| a.uri@),
                )
                &&& children@.len() == 0 ==> {
                    &&& final(self).staging == old(self).staging
                    &&& r.completion is Some
                    &&& r.completion->Some_0.executor@ == executor
                    &&& r.completion->Some_0.address == address
                    &&& r.completion->Some_0.notify_parent == parent
                    &&& r.completion->Some_0.system_idle == (final(self).registry@.len() == 0
                        && final(self).staging@.len() == 0)
                }
                &&& children@.len() > 0 ==> {
                    &&& r.completion is None
                    &&& forall|k: UriView|
                        lookup(final(self).staging_view(), k) == if k == address.uri@ {
                            Some((parent, children@.len(), executor))
                        } else {
                            lookup(old(self).staging_view(), k)
                        }
                }
            },
    {
        let idx = match self.registry_index(&address.uri) {
            None => {
                proof {
                    lemma_lookup_absent(self.registry_view(), address.uri@);
                }
                let forward: Vec<(Uri, String)> = Vec::new();
                return ShutdownStep { forward, completion: None };
            },
            Some(i) => i,
        };
        let ghost before = self.registry_view();
        proof {
            lemma_lookup_found(before, idx as int);
        }
        let entry = self.registry.remove(idx);
        assert(self.registry_view() =~= before.remove(idx as int));
        proof {
            assert forall|k: UriView|
                lookup(self.registry_view(), k) == if k == address.uri@ {
                    None
                } else {
                    lookup(before, k)
                } by {
                lemma_lookup_remove(before, idx as int, k);
            }
            assert(self.staging_view() == old(self).staging_view());
            Self::lemma_wf_tables(old(self), self);
        }
        let ghost regv = self.registry_view();
        let ghost kids = children@.map_values(|a: ActorAddress<M>| a.uri@);
        let mut forward: Vec<(Uri, String)> = Vec::new();
        let mut i: usize = 0;
        assert(kids.take(0) =~= Seq::<UriView>::empty());
        assert(forward@.map_values(|p: (Uri, String)| (p.0@, p.1@)) =~= Seq::<(UriView, Seq<char>)>::empty());
        while i < children.len()
            invariant
                self.wf(),
                self.registry_view() == regv,
                kids == children@.map_values(|a: ActorAddress<M>| a.uri@),
                i <= children@.len(),
                forward@.map_values(|p: (Uri, String)| (p.0@, p.1@)) == forwarded(
                    regv,
                    kids.take(i as int),
                ),
            decreases children@.len() - i,
        {
            let child = &children[i];
            assert(kids.take(i + 1).drop_last() =~= kids.take(i as int));
            assert(kids.take(i + 1).last() == child.uri@);
            let ghost fv = forward@;
            match self.registry_index(&child.uri) {
                Some(j) => {
                    proof {
                        lemma_lookup_found(regv, j as int);
                    }
                    let u = child.uri.duplicate();
                    let ex = self.registry[j].executor.clone();
                    forward.push((u, ex));
                    assert(forward@.map_values(|p: (Uri, String)| (p.0@, p.1@)) =~= fv.map_values(
                        |p: (Uri, String)| (p.0@, p.1@),
                    ).push((child.uri@, regv[j as int].1.1)));
                },
                None => {
                    proof {
                        lemma_lookup_absent(regv, child.uri@);
                    }
                },
            }
            i = i + 1;
        }
        assert(kids.take(i as int) =~= kids);
        let n = children.len();
        if n == 0 {
            let c = self.complete(entry.executor, address, parent);
            ShutdownStep { forward, completion: Some(c) }
        } else {
            if let Some(k) = self.staging_index(&address.uri) {
                self.staging_take(k);
            } else {
                proof {
                    lemma_lookup_absent(self.staging_view(), address.uri@);
                }
            }
            self.staging_push(
                StagingEntry { uri: address.uri, parent, wait_count: n, executor: entry.executor },
            );
            ShutdownStep { forward, completion: None }
        }
    }
}

impl<M> RuntimeManager<M> {
    /// A child of `parent_address` has completed its shutdown. If the parent is
    /// staged, one fewer child is awaited; at the last one the parent leaves
    /// staging and completes. Otherwise nothing changes.
    pub fn child_shutdown_notice(&mut self, parent_address: ActorAddress<M>) -> (r: Option<
        Completion<M>,
    >)
        requires
            old(self).wf(),
        ensures
            final(self).wf(),
            final(self).executors == old(self).executors,
            final(self).registry == old(self).registry,
            final(self).round_robin_state == old(self).round_robin_state,
            final(self).shutdown_initiated == old(self).shutdown_initiated,
            ({
                let u = parent_address.uri@;
                match lookup(old(self).staging_view(), u) {
                    None => r is None && final(self).staging == old(self).staging,
                    Some((p, w, ex)) => if w == 1 {
                        &&& r is Some
                        &&& r->Some_0.executor@ == ex
                        &&& r->Some_0.address == parent_address
                        &&& r->Some_0.notify_parent == p
                        &&& r->Some_0.system_idle == (final(self).registry@.len() == 0
                            && final(self).staging@.len() == 0)
                        &&& forall|k: UriView|
                            lookup(final(self).staging_view(), k) == if k == u {
                                None
                            } else {
                                lookup(old(self).staging_view(), k)
                            }
                    } else {
                        &&& r is None
                        &&& forall|k: UriView|
                            lookup(final(self).staging_view(), k) == if k == u {
                                Some((p, (w - 1) as nat, ex))
                            } else {
                                lookup(old(self).staging_view(), k)
                            }
                    },
                }
            }),
            child_notice_step(
                old(self).staging_view(),
                final(self).staging_view(),
                parent_address.uri@,
                r is Some,
            ),
    {
        match self.staging_index(&parent_address.uri) {
            None => {
                proof {
                    lemma_lookup_absent(self.staging_view(), parent_address.uri@);
                }
                None
            },
            Some(i) => {
                let mut entry = self.staging_take(i);
                if entry.wait_count > 1 {
                    entry.wait_count = entry.wait_count - 1;
                    self.staging_push(entry);
                    None
                } else {
                    Some(self.complete(entry.executor, parent_address, entry.parent))
                }
            },
        }
    }
}

} // verus!

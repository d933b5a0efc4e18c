use vstd::prelude::*;
use vstd::pervasive::VecAdditionalExecFns;
use vstd::string::StringExecFns;
use crate::media::DownloadProgress;
use crate::media::DownloadRequest;
use crate::naming::name_views;
use crate::naming::spec_filename;
use crate::naming::generate_filename;
use crate::naming::ensure_unique_filename;
use crate::naming::dup_candidate;

verus! {

// ---------------------------------------------------------------------------
// The admission gate and the per-item lifecycle
// ---------------------------------------------------------------------------
//
// The download engine runs one task per item under a counting admission
// gate. The scheduling decisions live here as a verified state machine:
// the caller asks whether a slot is free, marks an item in flight, and
// records its terminal state. The bound on concurrent fetches and the
// isolation of one item's outcome from every other's are contracts of
// these operations.

/// How far one item of a batch has come.
#[derive(Debug, Clone, Copy, PartialEq, Eq, Structural)]
pub enum ItemStatus {
    Queued,
    InProgress,
    Completed,
    Failed,
}

/// A status from which an item never moves again.
pub open spec fn is_terminal(s: ItemStatus) -> bool {
    s is Completed || s is Failed
}

/// How many statuses are in flight.
pub open spec fn num_in_progress(s: Seq<ItemStatus>) -> int
    decreases s.len(),
{
    if s.len() == 0 {
        0
    } else {
        num_in_progress(s.drop_last()) + if s.last() is InProgress {
            1int
        } else {
            0int
        }
    }
}

proof fn lemma_num_nonneg(s: Seq<ItemStatus>)
    ensures
        num_in_progress(s) >= 0,
    decreases s.len(),
{
    if s.len() > 0 {
        lemma_num_nonneg(s.drop_last());
    }
}

proof fn lemma_num_update(s: Seq<ItemStatus>, i: int, x: ItemStatus)
    requires
        0 <= i < s.len(),
    ensures
        num_in_progress(s.update(i, x)) == num_in_progress(s) - (if s[i] is InProgress {
            1int
        } else {
            0int
        }) + (if x is InProgress {
            1int
        } else {
            0int
        }),
        s[i] is InProgress ==> num_in_progress(s) >= 1,
    decreases s.len(),
{
    lemma_num_nonneg(s.drop_last());
    if i == s.len() - 1 {
        assert(s.update(i, x).drop_last() =~= s.drop_last());
        assert(s.update(i, x).last() == x);
    } else {
        lemma_num_update(s.drop_last(), i, x);
        assert(s.update(i, x).drop_last() =~= s.drop_last().update(i, x));
        assert(s.update(i, x).last() == s.last());
    }
}

/// The download engine's scheduling state: one status per item, the
/// admission bound, and the count of fetches in flight.
pub struct EngineState {
    pub statuses: Vec<ItemStatus>,
    pub limit: usize,
    pub in_flight: usize,
}

impl EngineState {
    /// The engine invariant: a positive bound, an exact in-flight count,
    /// and never more fetches in flight than the bound allows.
    pub open spec fn wf(&self) -> bool {
        &&& self.limit >= 1
        &&& self.in_flight == num_in_progress(self.statuses@)
        &&& self.in_flight <= self.limit
    }

    /// A fresh engine: every item queued, nothing in flight.
    pub fn new(n_items: usize, limit: usize) -> (r: EngineState)
        requires
            limit >= 1,
        ensures
            r.wf(),
            r.statuses@.len() == n_items,
            forall|q: int| 0 <= q < n_items ==> r.statuses@[q] is Queued,
            r.limit == limit,
            r.in_flight == 0,
    {
        let mut v: Vec<ItemStatus> = Vec::new();
        let mut t: usize = 0;
        while t < n_items
            invariant
                t <= n_items,
                v@.len() == t,
                forall|q: int| 0 <= q < t ==> v@[q] is Queued,
                num_in_progress(v@) == 0,
            decreases n_items - t,
        {
            let ghost pre = v@;
            v.push(ItemStatus::Queued);
            proof {
                assert(v@.drop_last() =~= pre);
            }
            t = t + 1;
        }
        EngineState { statuses: v, limit, in_flight: 0 }
    }

    /// Whether another fetch may begin now.
    pub fn can_start(&self) -> (r: bool)
        ensures
            r == (self.in_flight < self.limit),
    {
        self.in_flight < self.limit
    }

    /// Moves a queued item in flight, taking one admission slot. The
    /// admission bound holds again afterwards, and no other item's
    /// status changes.
    pub fn start_item(&mut self, i: usize)
        requires
            old(self).wf(),
            i < old(self).statuses@.len(),
            old(self).statuses@[i as int] is Queued,
            old(self).in_flight < old(self).limit,
        ensures
            final(self).wf(),
            final(self).statuses@ == old(self).statuses@.update(i as int, ItemStatus::InProgress),
            final(self).in_flight == old(self).in_flight + 1,
            final(self).limit == old(self).limit,
    {
        proof {
            lemma_num_update(self.statuses@, i as int, ItemStatus::InProgress);
        }
        self.statuses.set(i, ItemStatus::InProgress);
        self.in_flight = self.in_flight + 1;
    }

    /// Records an in-flight item's terminal state and frees its slot.
    /// One item's failure changes no other item's status: every sibling
    /// runs to its own terminal state.
    pub fn finish_item(&mut self, i: usize, ok: bool)
        requires
            old(self).wf(),
            i < old(self).statuses@.len(),
            old(self).statuses@[i as int] is InProgress,
        ensures
            final(self).wf(),
            final(self).statuses@ == old(self).statuses@.update(
                i as int,
                if ok {
                    ItemStatus::Completed
                } else {
                    ItemStatus::Failed
                },
            ),
            is_terminal(final(self).statuses@[i as int]),
            final(self).in_flight == old(self).in_flight - 1,
            final(self).limit == old(self).limit,
    {
        proof {
            lemma_num_update(
                self.statuses@,
                i as int,
                if ok {
                    ItemStatus::Completed
                } else {
                    ItemStatus::Failed
                },
            );
        }
        if ok {
            self.statuses.set(i, ItemStatus::Completed);
        } else {
            self.statuses.set(i, ItemStatus::Failed);
        }
        self.in_flight = self.in_flight - 1;
    }

    /// Whether every item has reached a terminal state.
    pub fn all_terminal(&self) -> (r: bool)
        ensures
            r == (forall|q: int|
                0 <= q < self.statuses@.len() ==> is_terminal(#[trigger] self.statuses@[q])),
    {
        let mut t: usize = 0;
        while t < self.statuses.len()
            invariant
                t <= self.statuses@.len(),
                forall|q: int| 0 <= q < t ==> is_terminal(#[trigger] self.statuses@[q]),
            decreases self.statuses@.len() - t,
        {
            let s = self.statuses[t];
            match s {
                ItemStatus::Completed => {},
                ItemStatus::Failed => {},
                _ => {
                    return false;
                },
            }
            t = t + 1;
        }
        true
    }
}

/// The admission bound, as a law of the model: a well-formed engine
/// never has more fetches in flight than its limit.
pub proof fn lemma_admission_bound(e: EngineState)
    requires
        e.wf(),
    ensures
        num_in_progress(e.statuses@) <= e.limit,
{
}

// ---------------------------------------------------------------------------
// Laws of whole schedules
// ---------------------------------------------------------------------------

/// One scheduling step of the engine's driver: admit an item, or record
/// an in-flight item's terminal outcome.
pub enum EngineOp {
    Start(int),
    Finish(int, bool),
}

/// The item a step is about.
pub open spec fn op_index(op: EngineOp) -> int {
    match op {
        EngineOp::Start(i) => i,
        EngineOp::Finish(i, _) => i,
    }
}

/// One gated step: starting needs a queued item and a free slot,
/// finishing needs an in-flight item; a step whose guard fails changes
/// nothing.
pub open spec fn apply_gated(st: Seq<ItemStatus>, limit: int, op: EngineOp) -> Seq<ItemStatus> {
    match op {
        EngineOp::Start(i) => if 0 <= i < st.len() && st[i] is Queued && num_in_progress(st)
            < limit {
            st.update(i, ItemStatus::InProgress)
        } else {
            st
        },
        EngineOp::Finish(i, ok) => if 0 <= i < st.len() && st[i] is InProgress {
            st.update(
                i,
                if ok {
                    ItemStatus::Completed
                } else {
                    ItemStatus::Failed
                },
            )
        } else {
            st
        },
    }
}

/// A fresh batch: every item queued.
pub open spec fn all_queued(n: nat) -> Seq<ItemStatus> {
    Seq::new(n, |i: int| ItemStatus::Queued)
}

/// The statuses a run of gated steps reaches from a fresh batch.
pub open spec fn run_schedule(n: nat, limit: int, ops: Seq<EngineOp>) -> Seq<ItemStatus>
    decreases ops.len(),
{
    if ops.len() == 0 {
        all_queued(n)
    } else {
        apply_gated(run_schedule(n, limit, ops.drop_last()), limit, ops.last())
    }
}

proof fn lemma_all_queued_none_in_progress(n: nat)
    ensures
        num_in_progress(all_queued(n)) == 0,
    decreases n,
{
    if n > 0 {
        lemma_all_queued_none_in_progress((n - 1) as nat);
        assert(all_queued(n).drop_last() =~= all_queued((n - 1) as nat));
    }
}

/// The concurrency bound over whole schedules: starting from a fresh
/// batch, after any sequence of gated steps, at no point are more than
/// `limit` items in flight.
pub proof fn lemma_schedule_admission_bound(n: nat, limit: int, ops: Seq<EngineOp>)
    requires
        limit >= 0,
    ensures
        num_in_progress(run_schedule(n, limit, ops)) <= limit,
    decreases ops.len(),
{
    if ops.len() == 0 {
        lemma_all_queued_none_in_progress(n);
    } else {
        lemma_schedule_admission_bound(n, limit, ops.drop_last());
        let st = run_schedule(n, limit, ops.drop_last());
        match ops.last() {
            EngineOp::Start(i) => {
                if 0 <= i < st.len() && st[i] is Queued && num_in_progress(st) < limit {
                    lemma_num_update(st, i, ItemStatus::InProgress);
                }
            },
            EngineOp::Finish(i, ok) => {
                if 0 <= i < st.len() && st[i] is InProgress {
                    lemma_num_update(
                        st,
                        i,
                        if ok {
                            ItemStatus::Completed
                        } else {
                            ItemStatus::Failed
                        },
                    );
                }
            },
        }
    }
}

/// Isolation: a scheduling step about one item never changes any other
/// item's status — in particular, one item's failure leaves every
/// sibling exactly where it was.
pub proof fn lemma_step_isolation(st: Seq<ItemStatus>, limit: int, op: EngineOp, j: int)
    requires
        0 <= j < st.len(),
        op_index(op) != j,
    ensures
        apply_gated(st, limit, op)[j] == st[j],
{
}

/// A terminal status is permanent: no later step moves the item again.
pub proof fn lemma_terminal_permanent(st: Seq<ItemStatus>, limit: int, op: EngineOp, j: int)
    requires
        0 <= j < st.len(),
        is_terminal(st[j]),
    ensures
        is_terminal(apply_gated(st, limit, op)[j]),
{
}

proof fn lemma_run_schedule_len(n: nat, limit: int, ops: Seq<EngineOp>)
    ensures
        run_schedule(n, limit, ops).len() == n,
    decreases ops.len(),
{
    if ops.len() > 0 {
        lemma_run_schedule_len(n, limit, ops.drop_last());
    }
}

/// A step ends item `j`: an effective finish, moving it from in flight
/// to a terminal status.
pub open spec fn step_finishes(st: Seq<ItemStatus>, op: EngineOp, j: int) -> bool {
    match op {
        EngineOp::Finish(i, _) => i == j && 0 <= i < st.len() && st[i] is InProgress,
        EngineOp::Start(_) => false,
    }
}

/// How many steps of a schedule end item `j`: the number of terminal
/// events its driver would emit for it.
pub open spec fn terminal_transitions(n: nat, limit: int, ops: Seq<EngineOp>, j: int) -> int
    decreases ops.len(),
{
    if ops.len() == 0 {
        0
    } else {
        terminal_transitions(n, limit, ops.drop_last(), j) + if step_finishes(
            run_schedule(n, limit, ops.drop_last()),
            ops.last(),
            j,
        ) {
            1int
        } else {
            0int
        }
    }
}

/// One terminal event per item, exactly: over any schedule, an item is
/// ended at most once, and it stands terminal at the end exactly when it
/// was ended once — never twice, and never terminal without its event.
pub proof fn lemma_one_terminal_transition(n: nat, limit: int, ops: Seq<EngineOp>, j: int)
    requires
        0 <= j < n,
    ensures
        terminal_transitions(n, limit, ops, j) == (if is_terminal(
            run_schedule(n, limit, ops)[j],
        ) {
            1int
        } else {
            0int
        }),
    decreases ops.len(),
{
    lemma_run_schedule_len(n, limit, ops);
    if ops.len() > 0 {
        lemma_one_terminal_transition(n, limit, ops.drop_last(), j);
        lemma_run_schedule_len(n, limit, ops.drop_last());
    }
}

// ---------------------------------------------------------------------------
// Progress events
// ---------------------------------------------------------------------------

/// The event announcing that an item's fetch began: in progress, no
/// progress yet, the resolved filename attached.
pub fn start_event(item_id: &String, filename: &String) -> (e: DownloadProgress)
    ensures
        e.item_id@ == item_id@,
        e.status@ == "downloading"@,
        e.progress == 0,
        match e.filename {
            Some(f) => f@ == filename@,
            None => false,
        },
        e.error is None,
{
    DownloadProgress {
        item_id: item_id.clone(),
        status: String::from_str("downloading"),
        progress: 0,
        filename: Some(filename.clone()),
        error: None,
    }
}

/// The terminal event for an item: completed with the full progress
/// fraction and its filename, or failed with none and the error text.
pub fn terminal_event(item_id: &String, filename: &String, error: Option<String>) -> (e:
    DownloadProgress)
    ensures
        e.item_id@ == item_id@,
        match error {
            None => e.status@ == "completed"@ && e.progress == 1 && (match e.filename {
                Some(f) => f@ == filename@,
                None => false,
            }) && e.error is None,
            Some(msg) => e.status@ == "failed"@ && e.progress == 0 && e.filename is None && (
            match e.error {
                Some(m) => m@ == msg@,
                None => false,
            }),
        },
{
    match error {
        None => DownloadProgress {
            item_id: item_id.clone(),
            status: String::from_str("completed"),
            progress: 1,
            filename: Some(filename.clone()),
            error: None,
        },
        Some(msg) => DownloadProgress {
            item_id: item_id.clone(),
            status: String::from_str("failed"),
            progress: 0,
            filename: None,
            error: Some(msg),
        },
    }
}

// ---------------------------------------------------------------------------
// Planning filenames for a batch
// ---------------------------------------------------------------------------

/// The provider-namespaced directory below the caller's base directory
/// where files land.
pub fn provider_subdir(provider_id: &str) -> (r: String)
    ensures
        r@ == "social-media-downloader/"@ + provider_id@,
{
    let mut s = String::from_str("social-media-downloader/");
    s.append(provider_id);
    s
}

/// The chosen name for item `x` of a request resolves its generated base
/// filename against the names present just before it was chosen: the base
/// itself when free, else one of its collision probes.
pub open spec fn resolved_name_for(
    request: DownloadRequest,
    prior: Seq<Seq<char>>,
    x: int,
    chosen: Seq<char>,
) -> bool {
    let base = spec_filename(
        request.username@,
        request.shortcode@,
        request.media_items@[x].extension@,
        request.media_items@[x].index,
    );
    &&& (!prior.contains(base) ==> chosen == base)
    &&& (prior.contains(base) ==> (exists|n: int|
        2 <= n && chosen == dup_candidate(base, n) && (forall|m: int|
            2 <= m < n ==> prior.contains(#[trigger] dup_candidate(base, m)))))
}

/// Plans the filename of every item of a request against one directory
/// listing, reserving each chosen name before the next one is resolved.
/// This serializes collision resolution per directory: all planned names
/// are pairwise distinct and distinct from everything already present,
/// so two items with the same base name get different files.
pub fn reserve_filenames(request: &DownloadRequest, existing: &mut Vec<String>) -> (r: Vec<
    String,
>)
    requires
        old(existing)@.len() + request.media_items@.len() + 2 <= u64::MAX,
    ensures
        r@.len() == request.media_items@.len(),
        final(existing)@ == old(existing)@ + r@,
        forall|x: int, y: int| 0 <= x < y < r@.len() ==> r@[x]@ != r@[y]@,
        forall|x: int| 0 <= x < r@.len() ==> !name_views(old(existing)@).contains(r@[x]@),
        forall|x: int|
            0 <= x < r@.len() ==> !name_views(old(existing)@ + r@.take(x)).contains(r@[x]@),
        forall|x: int|
            0 <= x < r@.len() ==> resolved_name_for(
                *request,
                name_views(old(existing)@ + r@.take(x)),
                x,
                (#[trigger] r@[x])@,
            ),
{
    let ghost ex0 = old(existing)@;
    let mut r: Vec<String> = Vec::new();
    proof {
        assert(existing@ =~= ex0 + r@);
    }
    let mut t: usize = 0;
    while t < request.media_items.len()
        invariant
            t <= request.media_items@.len(),
            r@.len() == t,
            ex0.len() + request.media_items@.len() + 2 <= u64::MAX,
            existing@ == ex0 + r@,
            forall|x: int, y: int| 0 <= x < y < t ==> r@[x]@ != r@[y]@,
            forall|x: int| 0 <= x < t ==> !name_views(ex0).contains(r@[x]@),
            forall|x: int| 0 <= x < t ==> !name_views(ex0 + r@.take(x)).contains(r@[x]@),
            forall|x: int|
                0 <= x < t ==> resolved_name_for(
                    *request,
                    name_views(ex0 + r@.take(x)),
                    x,
                    (#[trigger] r@[x])@,
                ),
        decreases request.media_items@.len() - t,
    {
        let item = &request.media_items[t];
        let base = generate_filename(
            request.username.as_str(),
            request.shortcode.as_str(),
            item.extension.as_str(),
            item.index,
        );
        let chosen = ensure_unique_filename(existing, base.as_str());
        let ghost pre_r = r@;
        let ghost pre_ex = existing@;
        let c2 = chosen.clone();
        existing.push(c2);
        r.push(chosen);
        proof {
            assert(r@.drop_last() =~= pre_r);
            assert(r@.take(t as int) =~= pre_r);
            assert(existing@ =~= ex0 + r@);
            assert(name_views(pre_ex) == name_views(ex0 + r@.take(t as int)));
            assert forall|x: int| 0 <= x < t + 1 implies !name_views(ex0).contains(
                #[trigger] r@[x]@,
            ) by {
                if x < t {
                    assert(r@[x] == pre_r[x]);
                } else {
                    assert(!name_views(pre_ex).contains(r@[x]@));
                    assert forall|q: int|
                        0 <= q < name_views(ex0).len() implies name_views(ex0)[q] != r@[x]@ by {
                        assert(name_views(pre_ex)[q] == name_views(ex0)[q]);
                    }
                }
            }
            assert forall|x: int, y: int| 0 <= x < y < t + 1 implies r@[x]@ != r@[y]@ by {
                if y == t {
                    assert(name_views(pre_ex)[ex0.len() + x] == r@[x]@);
                    assert(!name_views(pre_ex).contains(r@[y]@));
                }
            }
            assert forall|x: int| 0 <= x < t + 1 implies !name_views(ex0 + r@.take(x)).contains(
                (#[trigger] r@[x])@,
            ) && resolved_name_for(*request, name_views(ex0 + r@.take(x)), x, r@[x]@) by {
                assert(r@.take(x) =~= pre_r.take(x));
                if x < t {
                    assert(r@[x] == pre_r[x]);
                    assert(!name_views(ex0 + pre_r.take(x)).contains(pre_r[x]@));
                    assert(resolved_name_for(
                        *request,
                        name_views(ex0 + pre_r.take(x)),
                        x,
                        pre_r[x]@,
                    ));
                } else {
                    assert(pre_r.take(x) =~= pre_r);
                    assert(name_views(ex0 + r@.take(x)) == name_views(pre_ex));
                    assert(r@[x] == chosen);
                    assert(!name_views(pre_ex).contains(chosen@));
                }
            }
        }
        t = t + 1;
    }
    proof {
        assert(r@.take(r@.len() as int) =~= r@);
    }
    r
}

} // verus!

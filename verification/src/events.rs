//! File-system events, and the debouncer that holds back rapid successive
//! changes to one path until they have settled.
use vstd::prelude::*;
use crate::paths::PathKey;
use crate::paths::path_key;
use crate::paths::same_path;

verus! {

/// `std::time::Instant`, a reading of the monotonic clock.
#[verifier::external_type_specification]
#[verifier::external_body]
pub struct ExInstant(std::time::Instant);

/// `Instant::now()`: the current reading of the monotonic clock.
#[verifier::external_body]
pub(crate) fn instant_now() -> std::time::Instant {
    std::time::Instant::now()
}

/// `Instant::elapsed()`: the span since `origin`. It depends on the clock;
/// nothing is stated of it.
#[verifier::external_body]
fn instant_elapsed(origin: &std::time::Instant) -> std::time::Duration {
    origin.elapsed()
}

/// The nanoseconds since `origin` by the monotonic clock.
pub(crate) fn nanos_since(origin: &std::time::Instant) -> u128 {
    duration_nanos(&instant_elapsed(origin))
}

/// What `Duration::as_nanos()` gives for a span: its length in whole
/// nanoseconds.
pub uninterp spec fn nanos_of(d: std::time::Duration) -> u128;

/// `Duration::as_nanos()`: the span in nanoseconds. The type is opaque
/// here, so the value is given by name only: the same span gives the same
/// number.
#[verifier::external_body]
pub(crate) fn duration_nanos(d: &std::time::Duration) -> (r: u128)
    ensures
        r == nanos_of(*d),
{
    d.as_nanos()
}

/// A change to the file system.
#[derive(Debug, Clone)]
pub enum FsEvent {
    Created(String),
    Modified(String),
    Deleted(String),
    Renamed { from: String, to: String },
}

/// A file-system event with its paths taken by value.
pub enum FsEventView {
    Created(Seq<char>),
    Modified(Seq<char>),
    Deleted(Seq<char>),
    Renamed { from: Seq<char>, to: Seq<char> },
}

impl View for FsEvent {
    type V = FsEventView;

    open spec fn view(&self) -> FsEventView {
        match self {
            FsEvent::Created(p) => FsEventView::Created(p@),
            FsEvent::Modified(p) => FsEventView::Modified(p@),
            FsEvent::Deleted(p) => FsEventView::Deleted(p@),
            FsEvent::Renamed { from, to } => FsEventView::Renamed { from: from@, to: to@ },
        }
    }
}

/// The path an event concerns: the new path of a rename.
pub open spec fn event_path(e: FsEventView) -> Seq<char> {
    match e {
        FsEventView::Created(p) => p,
        FsEventView::Modified(p) => p,
        FsEventView::Deleted(p) => p,
        FsEventView::Renamed { from, to } => to,
    }
}

/// What the path an event concerns is compared by: its components, as
/// `std::path::Path` compares paths.
pub open spec fn event_key(e: FsEventView) -> PathKey {
    path_key(event_path(e))
}

/// Whether an event creates or modifies a file.
pub open spec fn is_modification_event(e: FsEventView) -> bool {
    e is Created || e is Modified
}

impl FsEvent {
    /// The path this event concerns: the new path of a rename.
    pub fn path(&self) -> (r: &String)
        ensures
            r@ == event_path(self@),
    {
        match self {
            FsEvent::Created(p) => p,
            FsEvent::Modified(p) => p,
            FsEvent::Deleted(p) => p,
            FsEvent::Renamed { to, .. } => to,
        }
    }

    /// Whether this event creates or modifies a file.
    pub fn is_modification(&self) -> (r: bool)
        ensures
            r == is_modification_event(self@),
    {
        match self {
            FsEvent::Created(_) | FsEvent::Modified(_) => true,
            _ => false,
        }
    }
}

/// The views of a sequence of events.
pub open spec fn event_views(v: Seq<FsEvent>) -> Seq<FsEventView> {
    v.map_values(|e: FsEvent| e@)
}

/// Events released together, and when.
#[derive(Debug)]
pub struct EventBatch {
    pub events: Vec<FsEvent>,
    pub timestamp: std::time::Instant,
}

impl EventBatch {
    /// A batch of `events`, stamped with the current time.
    pub fn new(events: Vec<FsEvent>) -> (r: EventBatch)
        ensures
            r.events@ == events@,
    {
        EventBatch { events, timestamp: instant_now() }
    }

    /// Whether the batch holds no event.
    pub fn is_empty(&self) -> (r: bool)
        ensures
            r == (self.events@.len() == 0),
    {
        self.events.len() == 0
    }

    /// The number of events in the batch.
    pub fn len(&self) -> (r: usize)
        ensures
            r == self.events@.len(),
    {
        self.events.len()
    }
}

impl Clone for EventBatch {
    fn clone(&self) -> (r: EventBatch)
        ensures
            event_views(r.events@) == event_views(self.events@),
    {
        let mut events: Vec<FsEvent> = Vec::new();
        let mut i: usize = 0;
        while i < self.events.len()
            invariant
                i <= self.events@.len(),
                event_views(events@) == event_views(self.events@).take(i as int),
            decreases self.events@.len() - i,
        {
            let ghost before = event_views(events@);
            events.push(self.events[i].clone_event());
            assert(event_views(events@) =~= before.push(self.events@[i as int]@));
            assert(event_views(self.events@).take(i + 1) =~= event_views(self.events@).take(
                i as int,
            ).push(self.events@[i as int]@));
            i += 1;
        }
        assert(event_views(self.events@).take(self.events@.len() as int) =~= event_views(
            self.events@,
        ));
        EventBatch { events, timestamp: self.timestamp }
    }
}

/// An event waiting to be released, with the time it arrived, in
/// nanoseconds since the debouncer was made.
#[derive(Debug, Clone)]
pub struct PendingEvent {
    pub event: FsEvent,
    pub at: u128,
}

/// A pending event taken by value.
pub struct PendingView {
    pub event: FsEventView,
    pub at: u128,
}

/// The views of a sequence of pending events.
pub open spec fn pending_views(v: Seq<PendingEvent>) -> Seq<PendingView> {
    v.map_values(|p: PendingEvent| PendingView { event: p.event@, at: p.at })
}

/// No two pending events concern the same path (compared by components).
pub open spec fn paths_distinct(p: Seq<PendingView>) -> bool {
    forall|i: int, j: int|
        0 <= i < p.len() && 0 <= j < p.len() && i != j ==> event_key(#[trigger] p[i].event)
            != event_key(#[trigger] p[j].event)
}

/// The position of the pending event for the path with components `path`,
/// if any.
pub open spec fn position_of(p: Seq<PendingView>, path: PathKey) -> Option<int> {
    if exists|i: int| 0 <= i < p.len() && event_key(p[i].event) == path {
        Some(choose|i: int| 0 <= i < p.len() && event_key(p[i].event) == path)
    } else {
        None
    }
}

/// The pending events after `e` arrives at time `now`: it replaces the
/// pending event for its path, if there is one, else it joins the end.
pub open spec fn with_event(p: Seq<PendingView>, e: FsEventView, now: u128) -> Seq<PendingView> {
    match position_of(p, event_key(e)) {
        Some(i) => p.update(i, PendingView { event: e, at: now }),
        None => p.push(PendingView { event: e, at: now }),
    }
}

/// Whether an event that arrived at `at` has waited `wait` by time `now`.
pub open spec fn has_settled(at: u128, now: u128, wait: u128) -> bool {
    (if now >= at {
        now - at
    } else {
        0
    }) >= wait
}

/// The events of `p` that have (`ready`) or have not (`!ready`) settled by
/// `now`, in their order.
pub open spec fn select(p: Seq<PendingView>, now: u128, wait: u128, ready: bool) -> Seq<
    PendingView,
>
    decreases p.len(),
{
    if p.len() == 0 {
        seq![]
    } else {
        let rest = select(p.drop_last(), now, wait, ready);
        if has_settled(p.last().at, now, wait) == ready {
            rest.push(p.last())
        } else {
            rest
        }
    }
}

/// The events of `p` that have settled by `now`, in their order.
pub open spec fn settled(p: Seq<PendingView>, now: u128, wait: u128) -> Seq<PendingView> {
    select(p, now, wait, true)
}

/// The events of `p` that have not settled by `now`, in their order.
pub open spec fn unsettled(p: Seq<PendingView>, now: u128, wait: u128) -> Seq<PendingView> {
    select(p, now, wait, false)
}

/// The events of pending entries.
pub open spec fn events_of(p: Seq<PendingView>) -> Seq<FsEventView> {
    p.map_values(|x: PendingView| x.event)
}

/// Holds back file-system events until no newer event for the same path
/// has arrived for the debounce duration.
pub struct EventDebouncer {
    pending: Vec<PendingEvent>,
    origin: std::time::Instant,
    debounce_nanos: u128,
    clock: u128,
}

impl EventDebouncer {
    /// The pending events, oldest first.
    pub closed spec fn pending(&self) -> Seq<PendingView> {
        pending_views(self.pending@)
    }

    /// How long an event waits, in nanoseconds.
    pub closed spec fn wait(&self) -> u128 {
        self.debounce_nanos
    }

    /// The latest time the debouncer read from the clock, in nanoseconds
    /// since it was made.
    pub closed spec fn time(&self) -> u128 {
        self.clock
    }

    #[verifier::type_invariant]
    closed spec fn inv(&self) -> bool {
        paths_distinct(pending_views(self.pending@))
    }

    /// A debouncer with nothing pending that holds events back for
    /// `debounce_duration`.
    pub fn new(debounce_duration: std::time::Duration) -> (r: EventDebouncer)
        ensures
            r.pending().len() == 0,
            r.wait() == nanos_of(debounce_duration),
            r.time() == 0,
    {
        EventDebouncer::with_nanos(duration_nanos(&debounce_duration))
    }

    /// A debouncer with nothing pending that holds events back for
    /// `debounce_nanos` nanoseconds.
    pub fn with_nanos(debounce_nanos: u128) -> (r: EventDebouncer)
        ensures
            r.pending().len() == 0,
            r.wait() == debounce_nanos,
            r.time() == 0,
    {
        let r = EventDebouncer { pending: Vec::new(), origin: instant_now(), debounce_nanos, clock: 0 };
        assert(r.pending() =~= Seq::<PendingView>::empty());
        r
    }

    /// The number of pending events.
    pub fn pending_count(&self) -> (r: usize)
        ensures
            r == self.pending().len(),
    {
        self.pending.len()
    }

    /// Records `event` as arriving at time `now`, replacing any pending
    /// event for the same path.
    pub fn record_at(&mut self, event: FsEvent, now: u128)
        ensures
            final(self).pending() == with_event(old(self).pending(), event@, now),
            final(self).wait() == old(self).wait(),
            final(self).time() == old(self).time(),
    {
        proof {
            use_type_invariant(&*self);
        }
        let ghost p = self.pending();
        let ghost key = event_key(event@);
        let mut i: usize = 0;
        while i < self.pending.len()
            invariant
                i <= self.pending@.len(),
                p == pending_views(self.pending@),
                p == pending_views(old(self).pending@),
                paths_distinct(p),
                self.debounce_nanos == old(self).debounce_nanos,
                self.clock == old(self).clock,
                key == event_key(event@),
                forall|j: int| 0 <= j < i ==> event_key(#[trigger] p[j].event) != key,
            decreases self.pending@.len() - i,
        {
            let same = same_path(self.pending[i].event.path().as_str(), event.path().as_str());
            if same {
                assert(event_key(p[i as int].event) == key);
                assert(position_of(p, key) == Some(i as int)) by {
                    let k = choose|k: int| 0 <= k < p.len() && event_key(p[k].event) == key;
                    if k != i as int {
                        assert(event_key(p[k].event) != event_key(p[i as int].event));
                    }
                }
                let mut pending: Vec<PendingEvent> = Vec::new();
                std::mem::swap(&mut pending, &mut self.pending);
                pending.set(i, PendingEvent { event, at: now });
                let ghost q = pending_views(pending@);
                assert(q =~= with_event(p, event@, now));
                assert(paths_distinct(q)) by {
                    assert forall|a: int, b: int|
                        0 <= a < q.len() && 0 <= b < q.len() && a != b implies event_key(
                        #[trigger] q[a].event,
                    ) != event_key(#[trigger] q[b].event) by {
                        assert(event_key(q[a].event) == event_key(p[a].event));
                        assert(event_key(q[b].event) == event_key(p[b].event));
                    }
                }
                self.pending = pending;
                return;
            }
            i += 1;
        }
        assert(position_of(p, key) is None);
        let mut pending: Vec<PendingEvent> = Vec::new();
        std::mem::swap(&mut pending, &mut self.pending);
        pending.push(PendingEvent { event, at: now });
        let ghost q = pending_views(pending@);
        assert(q =~= with_event(p, event@, now));
        assert(paths_distinct(q)) by {
            assert forall|a: int, b: int|
                0 <= a < q.len() && 0 <= b < q.len() && a != b implies event_key(
                #[trigger] q[a].event,
            ) != event_key(#[trigger] q[b].event) by {
                if a < p.len() && b < p.len() {
                    assert(q[a] == p[a] && q[b] == p[b]);
                } else if a < p.len() {
                    assert(q[a] == p[a]);
                } else {
                    assert(q[b] == p[b]);
                }
            }
        }
        self.pending = pending;
    }

    /// Takes out the events that have settled by time `now`, oldest first,
    /// keeping the rest pending; `None` when none has settled.
    pub fn flush_ready_at(&mut self, now: u128) -> (r: Option<EventBatch>)
        ensures
            final(self).pending() == unsettled(old(self).pending(), now, old(self).wait()),
            final(self).wait() == old(self).wait(),
            final(self).time() == old(self).time(),
            match r {
                Some(b) => event_views(b.events@) == events_of(
                    settled(old(self).pending(), now, old(self).wait()),
                ) && b.events@.len() > 0,
                None => settled(old(self).pending(), now, old(self).wait()).len() == 0,
            },
    {
        proof {
            use_type_invariant(&*self);
        }
        let ghost p = self.pending();
        let wait = self.debounce_nanos;
        let mut old_pending: Vec<PendingEvent> = Vec::new();
        std::mem::swap(&mut old_pending, &mut self.pending);
        let mut ready: Vec<FsEvent> = Vec::new();
        let mut kept: Vec<PendingEvent> = Vec::new();
        let mut i: usize = 0;
        assert(p.take(0) =~= Seq::<PendingView>::empty());
        while i < old_pending.len()
            invariant
                i <= old_pending@.len(),
                p == pending_views(old_pending@),
                paths_distinct(p),
                wait == self.debounce_nanos,
                pending_views(kept@) == select(p.take(i as int), now, wait, false),
                event_views(ready@) == events_of(select(p.take(i as int), now, wait, true)),
            decreases old_pending@.len() - i,
        {
            let item = old_pending[i].clone_pending();
            let elapsed = if now >= item.at {
                now - item.at
            } else {
                0
            };
            let ghost t = p.take(i + 1);
            assert(t.drop_last() =~= p.take(i as int));
            assert(t.last() == p[i as int]);
            let ghost before_kept = pending_views(kept@);
            let ghost before_ready = event_views(ready@);
            if elapsed >= wait {
                ready.push(item.event);
                assert(event_views(ready@) =~= before_ready.push(p[i as int].event));
                assert(events_of(select(t, now, wait, true)) =~= events_of(
                    select(p.take(i as int), now, wait, true),
                ).push(p[i as int].event));
            } else {
                kept.push(item);
                assert(pending_views(kept@) =~= before_kept.push(p[i as int]));
            }
            i += 1;
        }
        assert(p.take(old_pending@.len() as int) =~= p);
        proof {
            lemma_select_keeps_distinct(p, now, wait, false);
        }
        self.pending = kept;
        if ready.len() == 0 {
            None
        } else {
            Some(EventBatch::new(ready))
        }
    }

    /// Takes out every pending event, oldest first; `None` when nothing is
    /// pending.
    pub fn flush_all(&mut self) -> (r: Option<EventBatch>)
        ensures
            final(self).pending().len() == 0,
            final(self).wait() == old(self).wait(),
            final(self).time() == old(self).time(),
            match r {
                Some(b) => event_views(b.events@) == events_of(old(self).pending()) && b.events@.len()
                    > 0,
                None => old(self).pending().len() == 0,
            },
    {
        if self.pending.len() == 0 {
            return None;
        }
        let ghost p = self.pending();
        let mut old_pending: Vec<PendingEvent> = Vec::new();
        std::mem::swap(&mut old_pending, &mut self.pending);
        let mut events: Vec<FsEvent> = Vec::new();
        let mut i: usize = 0;
        while i < old_pending.len()
            invariant
                i <= old_pending@.len(),
                p == pending_views(old_pending@),
                event_views(events@) == events_of(p.take(i as int)),
            decreases old_pending@.len() - i,
        {
            let item = old_pending[i].clone_pending();
            let ghost before = event_views(events@);
            events.push(item.event);
            assert(event_views(events@) =~= before.push(p[i as int].event));
            assert(events_of(p.take(i + 1)) =~= events_of(p.take(i as int)).push(
                p[i as int].event,
            ));
            i += 1;
        }
        assert(p.take(old_pending@.len() as int) =~= p);
        assert(self.pending() =~= Seq::<PendingView>::empty());
        Some(EventBatch::new(events))
    }

    /// The time now, by the monotonic clock: never before the latest time
    /// read.
    fn tick(&mut self) -> (now: u128)
        ensures
            now >= old(self).time(),
            final(self).time() == now,
            final(self).pending() == old(self).pending(),
            final(self).wait() == old(self).wait(),
    {
        proof {
            use_type_invariant(&*self);
        }
        let t = nanos_since(&self.origin);
        let now = if t > self.clock {
            t
        } else {
            self.clock
        };
        self.clock = now;
        now
    }

    /// Records `event` as arriving now, then releases what has settled by
    /// a time no earlier; the time moves on (never back).
    pub fn add_event(&mut self, event: FsEvent) -> (r: Option<EventBatch>)
        ensures
            exists|t1: u128|
                #![trigger with_event(old(self).pending(), event@, t1)]
                {
                    let p1 = with_event(old(self).pending(), event@, t1);
                    let t2 = final(self).time();
                    &&& old(self).time() <= t1 <= t2
                    &&& final(self).pending() == unsettled(p1, t2, old(self).wait())
                    &&& match r {
                        Some(b) => event_views(b.events@) == events_of(
                            settled(p1, t2, old(self).wait()),
                        ),
                        None => settled(p1, t2, old(self).wait()).len() == 0,
                    }
                },
            final(self).wait() == old(self).wait(),
    {
        let t1 = self.tick();
        self.record_at(event, t1);
        let t2 = self.tick();
        self.flush_ready_at(t2)
    }

    /// Releases the events that have settled by now; the time moves on
    /// (never back).
    pub fn flush_ready(&mut self) -> (r: Option<EventBatch>)
        ensures
            final(self).time() >= old(self).time(),
            final(self).pending() == unsettled(old(self).pending(), final(self).time(), old(self).wait()),
            match r {
                Some(b) => event_views(b.events@) == events_of(
                    settled(old(self).pending(), final(self).time(), old(self).wait()),
                ),
                None => settled(old(self).pending(), final(self).time(), old(self).wait()).len() == 0,
            },
            final(self).wait() == old(self).wait(),
    {
        let now = self.tick();
        self.flush_ready_at(now)
    }
}

impl PendingEvent {
    fn clone_pending(&self) -> (r: PendingEvent)
        ensures
            r.event@ == self.event@,
            r.at == self.at,
    {
        PendingEvent { event: self.event.clone_event(), at: self.at }
    }
}

impl FsEvent {
    /// A copy of this event.
    pub fn clone_event(&self) -> (r: FsEvent)
        ensures
            r@ == self@,
    {
        match self {
            FsEvent::Created(p) => FsEvent::Created(p.clone()),
            FsEvent::Modified(p) => FsEvent::Modified(p.clone()),
            FsEvent::Deleted(p) => FsEvent::Deleted(p.clone()),
            FsEvent::Renamed { from, to } => FsEvent::Renamed { from: from.clone(), to: to.clone() },
        }
    }
}

proof fn lemma_select_from(p: Seq<PendingView>, now: u128, wait: u128, ready: bool)
    ensures
        forall|k: int|
            0 <= k < select(p, now, wait, ready).len() ==> exists|j: int|
                0 <= j < p.len() && #[trigger] select(p, now, wait, ready)[k] == p[j],
    decreases p.len(),
{
    if p.len() > 0 {
        lemma_select_from(p.drop_last(), now, wait, ready);
        let rest = select(p.drop_last(), now, wait, ready);
        assert forall|k: int| 0 <= k < select(p, now, wait, ready).len() implies exists|j: int|
            0 <= j < p.len() && #[trigger] select(p, now, wait, ready)[k] == p[j] by {
            if k < rest.len() {
                let j = choose|j: int| 0 <= j < p.drop_last().len() && rest[k] == p.drop_last()[j];
                assert(select(p, now, wait, ready)[k] == p[j]);
            } else {
                assert(select(p, now, wait, ready)[k] == p[p.len() - 1]);
            }
        }
    }
}

proof fn lemma_select_keeps_distinct(p: Seq<PendingView>, now: u128, wait: u128, ready: bool)
    requires
        paths_distinct(p),
    ensures
        paths_distinct(select(p, now, wait, ready)),
    decreases p.len(),
{
    if p.len() > 0 {
        let q = p.drop_last();
        assert(paths_distinct(q)) by {
            assert forall|i: int, j: int|
                0 <= i < q.len() && 0 <= j < q.len() && i != j implies event_key(
                #[trigger] q[i].event,
            ) != event_key(#[trigger] q[j].event) by {
                assert(q[i] == p[i] && q[j] == p[j]);
            }
        }
        lemma_select_keeps_distinct(q, now, wait, ready);
        lemma_select_from(q, now, wait, ready);
        let rest = select(q, now, wait, ready);
        let f = select(p, now, wait, ready);
        if has_settled(p.last().at, now, wait) == ready {
            assert forall|i: int, j: int|
                0 <= i < f.len() && 0 <= j < f.len() && i != j implies event_key(
                #[trigger] f[i].event,
            ) != event_key(#[trigger] f[j].event) by {
                if i < rest.len() && j < rest.len() {
                    assert(f[i] == rest[i] && f[j] == rest[j]);
                } else if i < rest.len() {
                    let a = choose|a: int| 0 <= a < q.len() && #[trigger] rest[i] == q[a];
                    assert(f[i] == p[a]);
                    assert(f[j] == p[p.len() - 1]);
                } else {
                    let b = choose|b: int| 0 <= b < q.len() && #[trigger] rest[j] == q[b];
                    assert(f[j] == p[b]);
                    assert(f[i] == p[p.len() - 1]);
                }
            }
        }
    }
}

/// The kind of a change that the file-system watcher reports.
#[derive(Debug, Clone, Copy, PartialEq, Eq, Structural)]
pub enum ChangeKind {
    /// Files were created.
    Create,
    /// A file was renamed (a change of name).
    Rename,
    /// Files were otherwise modified.
    Modify,
    /// Files were removed.
    Remove,
    /// Anything else, such as an access.
    Other,
}

/// The event of a change of kind `kind` to the single path `p`.
pub open spec fn kind_event(kind: ChangeKind, p: Seq<char>) -> FsEventView {
    match kind {
        ChangeKind::Create => FsEventView::Created(p),
        ChangeKind::Remove => FsEventView::Deleted(p),
        _ => FsEventView::Modified(p),
    }
}

/// The events for a change of kind `kind` to `paths`: a rename with two
/// paths moves the first to the second; otherwise each path gets an event
/// of the change's kind (a rename with another number of paths modifies
/// each); other changes give none.
pub open spec fn events_for(kind: ChangeKind, paths: Seq<Seq<char>>) -> Seq<FsEventView> {
    match kind {
        ChangeKind::Create => paths.map_values(|p: Seq<char>| FsEventView::Created(p)),
        ChangeKind::Rename => if paths.len() == 2 {
            seq![FsEventView::Renamed { from: paths[0], to: paths[1] }]
        } else {
            paths.map_values(|p: Seq<char>| FsEventView::Modified(p))
        },
        ChangeKind::Modify => paths.map_values(|p: Seq<char>| FsEventView::Modified(p)),
        ChangeKind::Remove => paths.map_values(|p: Seq<char>| FsEventView::Deleted(p)),
        ChangeKind::Other => seq![],
    }
}

/// The events for a change of kind `kind` to `paths`.
pub fn convert_change(kind: ChangeKind, paths: &Vec<String>) -> (r: Vec<FsEvent>)
    ensures
        event_views(r@) == events_for(kind, crate::strings::string_views(paths@)),
{
    let ghost ps = crate::strings::string_views(paths@);
    let mut r: Vec<FsEvent> = Vec::new();
    if kind == ChangeKind::Other {
        assert(event_views(r@) =~= events_for(kind, ps));
        return r;
    }
    if kind == ChangeKind::Rename && paths.len() == 2 {
        r.push(FsEvent::Renamed { from: paths[0].clone(), to: paths[1].clone() });
        assert(event_views(r@) =~= events_for(kind, ps));
        return r;
    }
    let mut i: usize = 0;
    while i < paths.len()
        invariant
            i <= paths.len(),
            ps == crate::strings::string_views(paths@),
            kind != ChangeKind::Other,
            !(kind == ChangeKind::Rename && paths@.len() == 2),
            event_views(r@) =~= ps.take(i as int).map_values(|p: Seq<char>| kind_event(kind, p)),
        decreases paths.len() - i,
    {
        let p = paths[i].clone();
        let e = match kind {
            ChangeKind::Create => FsEvent::Created(p),
            ChangeKind::Remove => FsEvent::Deleted(p),
            _ => FsEvent::Modified(p),
        };
        let ghost before = event_views(r@);
        r.push(e);
        assert(event_views(r@) =~= before.push(e@));
        assert(ps.take(i + 1) =~= ps.take(i as int).push(ps[i as int]));
        i += 1;
    }
    assert(ps.take(paths.len() as int) =~= ps);
    assert(event_views(r@) =~= events_for(kind, ps));
    r
}

/// A notification becomes events path by path, in order, keeping what
/// happened: created paths become creations, removed paths become
/// deletions (never modifications, so a removed file is dropped rather
/// than indexed again), modified paths become modifications; a rename of
/// two paths moves the first to the second; other notifications give no
/// event.
pub proof fn lemma_change_events(kind: ChangeKind, paths: Seq<Seq<char>>)
    ensures
        kind == ChangeKind::Other ==> events_for(kind, paths).len() == 0,
        kind == ChangeKind::Rename && paths.len() == 2 ==> events_for(kind, paths) == seq![
            FsEventView::Renamed { from: paths[0], to: paths[1] },
        ],
        kind != ChangeKind::Other && !(kind == ChangeKind::Rename && paths.len() == 2) ==> {
            &&& events_for(kind, paths).len() == paths.len()
            &&& forall|i: int|
                0 <= i < paths.len() ==> event_path(#[trigger] events_for(kind, paths)[i])
                    == paths[i]
            &&& kind == ChangeKind::Remove ==> forall|i: int|
                0 <= i < paths.len() ==> #[trigger] events_for(kind, paths)[i]
                    == FsEventView::Deleted(paths[i]) && !is_modification_event(
                    events_for(kind, paths)[i],
                )
            &&& kind == ChangeKind::Create ==> forall|i: int|
                0 <= i < paths.len() ==> #[trigger] events_for(kind, paths)[i]
                    == FsEventView::Created(paths[i]) && is_modification_event(
                    events_for(kind, paths)[i],
                )
            &&& (kind == ChangeKind::Modify || kind == ChangeKind::Rename) ==> forall|i: int|
                0 <= i < paths.len() ==> #[trigger] events_for(kind, paths)[i]
                    == FsEventView::Modified(paths[i])
        },
{
}

/// Whether the watcher drops changes to `path`: some pattern occurs in it.
pub open spec fn path_ignored(path: Seq<char>, patterns: Seq<Seq<char>>) -> bool {
    exists|i: int| 0 <= i < patterns.len() && crate::strings::contains_sub(path, #[trigger] patterns[i])
}

/// Whether the watcher drops changes to `path`.
pub fn is_path_ignored(path: &str, patterns: &Vec<String>) -> (r: bool)
    ensures
        r == path_ignored(path@, crate::strings::string_views(patterns@)),
{
    let ghost ps = crate::strings::string_views(patterns@);
    let p = crate::strings::chars_of(path);
    let mut i: usize = 0;
    while i < patterns.len()
        invariant
            i <= patterns.len(),
            ps == crate::strings::string_views(patterns@),
            p@ == path@,
            forall|j: int| 0 <= j < i ==> !crate::strings::contains_sub(path@, #[trigger] ps[j]),
        decreases patterns.len() - i,
    {
        if crate::strings::contains_chars(&p, &crate::strings::chars_of(patterns[i].as_str())) {
            assert(ps[i as int] == patterns@[i as int]@);
            return true;
        }
        i += 1;
    }
    false
}

/// A recorded event is the one pending event for its path: it replaces an
/// earlier event for that path, or else adds one to the count.
pub proof fn lemma_record_keeps_one_per_path(p: Seq<PendingView>, e: FsEventView, now: u128)
    requires
        paths_distinct(p),
    ensures
        paths_distinct(with_event(p, e, now)),
        with_event(p, e, now).len() == if position_of(p, event_key(e)) is None {
            p.len() + 1
        } else {
            p.len() + 0
        },
        forall|i: int|
            0 <= i < with_event(p, e, now).len() && event_key(
                #[trigger] with_event(p, e, now)[i].event,
            ) == event_key(e) ==> with_event(p, e, now)[i] == (PendingView { event: e, at: now }),
        exists|i: int|
            0 <= i < with_event(p, e, now).len() && #[trigger] with_event(p, e, now)[i] == (
            PendingView { event: e, at: now }),
{
    let q = with_event(p, e, now);
    let key = event_key(e);
    let entry = PendingView { event: e, at: now };
    match position_of(p, key) {
        Some(k) => {
            assert(0 <= k < p.len() && event_key(p[k].event) == key);
            assert(q[k] == entry);
            assert forall|i: int|
                0 <= i < q.len() && event_key(#[trigger] q[i].event) == key implies q[i]
                == entry by {
                if i != k {
                    assert(q[i] == p[i]);
                }
            }
            assert forall|a: int, b: int|
                0 <= a < q.len() && 0 <= b < q.len() && a != b implies event_key(
                #[trigger] q[a].event,
            ) != event_key(#[trigger] q[b].event) by {
                if a != k && b != k {
                    assert(q[a] == p[a] && q[b] == p[b]);
                } else if a == k {
                    assert(q[b] == p[b]);
                    assert(event_key(p[k].event) != event_key(p[b].event));
                } else {
                    assert(q[a] == p[a]);
                    assert(event_key(p[k].event) != event_key(p[a].event));
                }
            }
        },
        None => {
            assert(forall|i: int| 0 <= i < p.len() ==> event_key(#[trigger] p[i].event) != key);
            assert(q[p.len() as int] == entry);
            assert forall|i: int|
                0 <= i < q.len() && event_key(#[trigger] q[i].event) == key implies q[i]
                == entry by {
                if i < p.len() {
                    assert(q[i] == p[i]);
                }
            }
            assert forall|a: int, b: int|
                0 <= a < q.len() && 0 <= b < q.len() && a != b implies event_key(
                #[trigger] q[a].event,
            ) != event_key(#[trigger] q[b].event) by {
                if a < p.len() && b < p.len() {
                    assert(q[a] == p[a] && q[b] == p[b]);
                } else if a < p.len() {
                    assert(q[a] == p[a]);
                } else {
                    assert(q[b] == p[b]);
                }
            }
        },
    }
}

/// Flushing loses nothing: every pending event is either released or kept.
pub proof fn lemma_flush_partitions(p: Seq<PendingView>, now: u128, wait: u128)
    ensures
        settled(p, now, wait).len() + unsettled(p, now, wait).len() == p.len(),
    decreases p.len(),
{
    if p.len() > 0 {
        lemma_flush_partitions(p.drop_last(), now, wait);
    }
}

/// Why watching a directory cannot start.
#[derive(Debug)]
pub enum WatchRefusal {
    /// The watcher is running already.
    AlreadyRunning,
    /// The directory does not exist; its path, as displayed.
    PathNotFound(String),
}

/// Whether watching `path` can start: not while the watcher runs, and not
/// where the path does not exist (in that order).
pub fn watch_refusal(running: bool, path_exists: bool, path: &str) -> (r: Option<WatchRefusal>)
    ensures
        running ==> r matches Some(WatchRefusal::AlreadyRunning),
        !running && !path_exists ==> (r matches Some(WatchRefusal::PathNotFound(p)) && p@ == path@),
        !running && path_exists ==> r is None,
{
    if running {
        Some(WatchRefusal::AlreadyRunning)
    } else if !path_exists {
        Some(WatchRefusal::PathNotFound(path.to_string()))
    } else {
        None
    }
}

} // verus!

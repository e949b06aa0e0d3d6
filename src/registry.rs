//! The per-instance dispatch registry: event listeners, interval listeners,
//! and the record of which upstream notification sources are armed.

use vstd::prelude::*;
use crate::text::text_eq;

verus! {

/// The closed set of event kinds that guest scripts may listen to.
#[derive(Debug, Clone, Copy, PartialEq, Eq, Hash, Structural)]
pub enum EventType {
    OnMonsterCreate,
    OnMonsterDestroy,
}

/// The event kind that a guest spelling names, if any.
pub open spec fn event_type_of(s: Seq<char>) -> Option<EventType> {
    if s == "OnMonsterCreate"@ {
        Some(EventType::OnMonsterCreate)
    } else if s == "OnMonsterDestroy"@ {
        Some(EventType::OnMonsterDestroy)
    } else {
        None
    }
}

impl EventType {
    pub fn from_str(s: &str) -> (r: Option<EventType>)
        ensures
            r == event_type_of(s@),
    {
        if text_eq(s, "OnMonsterCreate") {
            Some(EventType::OnMonsterCreate)
        } else if text_eq(s, "OnMonsterDestroy") {
            Some(EventType::OnMonsterDestroy)
        } else {
            None
        }
    }
}

} // verus!

verus! {

/// The state of an interpreter instance, as the dispatch paths see it.
#[derive(Debug, Clone, Copy, PartialEq, Eq, Hash, Structural)]
pub enum RinningState {
    Unloaded,
    Loaded,
    Running,
}

/// The listeners that share one interval, in registration order.
pub struct IntervalSlot {
    pub interval: u64,
    pub ids: Vec<u64>,
}

/// Why a registration from guest code was refused.
#[derive(Debug, Clone, Copy, PartialEq, Eq, Structural)]
pub enum PluginError {
    /// The event-type string names no known kind.
    InvalidEventType,
    /// An interval of zero milliseconds.
    InvalidInterval,
    /// The owning instance no longer exists.
    InstanceGone,
}

/// The outcome of a registration: the listener's id, and whether the caller
/// must now start the upstream source (a notification subscription, or a
/// ticker) because this registration is the first that needs it.
#[derive(Debug, Clone, Copy, PartialEq, Eq, Structural)]
pub struct Registration {
    pub id: u64,
    pub start_source: bool,
}

/// What one tick of an interval ticker does.
#[derive(Debug, PartialEq, Eq)]
pub enum TickStep {
    /// The owning instance is gone or not running: the ticker ends for good.
    Stop,
    /// Invoke these listeners, in this order.
    Fire(Vec<u64>),
}

/// The dispatch registry of one instance.
pub struct Plugin {
    create_listeners: Vec<u64>,
    destroy_listeners: Vec<u64>,
    interval_slots: Vec<IntervalSlot>,
    create_armed: bool,
    destroy_armed: bool,
    interval_map: Ghost<Map<u64, Seq<u64>>>,
}

/// `after` is `before` with listener `id` appended to the list of `kind` and the
/// source of `kind` armed; nothing else changes.
pub open spec fn listener_added(before: Plugin, after: Plugin, kind: EventType, id: u64) -> bool {
    &&& after.wf()
    &&& after.listeners(kind) == before.listeners(kind).push(id)
    &&& after.armed(kind)
    &&& forall|other: EventType|
        other != kind ==> after.listeners(other) == before.listeners(other) && after.armed(other) == before.armed(other)
    &&& after.intervals() == before.intervals()
}

/// `after` is `before` with listener `id` appended to the list of `interval`, which
/// is created if it did not exist; nothing else changes.
pub open spec fn interval_added(before: Plugin, after: Plugin, interval: u64, id: u64) -> bool {
    &&& after.wf()
    &&& after.intervals() == before.intervals().insert(
        interval,
        if before.intervals().contains_key(interval) {
            before.intervals()[interval].push(id)
        } else {
            seq![id]
        },
    )
    &&& forall|kind: EventType| after.listeners(kind) == before.listeners(kind) && after.armed(kind) == before.armed(kind)
}

/// The listeners that a notification of `kind` reaches in an instance in
/// `state` (`None`: the instance is gone).
pub open spec fn event_listeners_for(p: Plugin, kind: EventType, state: Option<RinningState>) -> Seq<u64> {
    if state == Some(RinningState::Running) {
        p.listeners(kind)
    } else {
        Seq::empty()
    }
}

/// The listeners of `interval`, empty if it has none.
pub open spec fn interval_listeners_for(p: Plugin, interval: u64) -> Seq<u64> {
    if p.intervals().contains_key(interval) {
        p.intervals()[interval]
    } else {
        Seq::empty()
    }
}

impl Plugin {
    /// The listeners of an event kind, in registration order.
    pub closed spec fn listeners(&self, kind: EventType) -> Seq<u64> {
        match kind {
            EventType::OnMonsterCreate => self.create_listeners@,
            EventType::OnMonsterDestroy => self.destroy_listeners@,
        }
    }

    /// Whether the upstream notification source of a kind has been armed.
    pub closed spec fn armed(&self, kind: EventType) -> bool {
        match kind {
            EventType::OnMonsterCreate => self.create_armed,
            EventType::OnMonsterDestroy => self.destroy_armed,
        }
    }

    /// The interval listeners: interval in milliseconds to listener ids.
    pub closed spec fn intervals(&self) -> Map<u64, Seq<u64>> {
        self.interval_map@
    }

    pub closed spec fn wf(&self) -> bool {
        &&& forall|i: int, j: int|
            0 <= i < j < self.interval_slots@.len() ==> self.interval_slots@[i].interval
                != self.interval_slots@[j].interval
        &&& forall|i: int|
            0 <= i < self.interval_slots@.len() ==> {
                &&& self.interval_map@.contains_key(#[trigger] self.interval_slots@[i].interval)
                &&& self.interval_map@[self.interval_slots@[i].interval]
                    == self.interval_slots@[i].ids@
            }
        &&& forall|k: u64|
            #[trigger] self.interval_map@.contains_key(k) ==> exists|i: int|
                0 <= i < self.interval_slots@.len() && self.interval_slots@[i].interval == k
    }

    pub fn new() -> (r: Plugin)
        ensures
            r.wf(),
            r.listeners(EventType::OnMonsterCreate) == Seq::<u64>::empty(),
            r.listeners(EventType::OnMonsterDestroy) == Seq::<u64>::empty(),
            !r.armed(EventType::OnMonsterCreate),
            !r.armed(EventType::OnMonsterDestroy),
            r.intervals() == Map::<u64, Seq<u64>>::empty(),
    {
        Plugin {
            create_listeners: Vec::new(),
            destroy_listeners: Vec::new(),
            interval_slots: Vec::new(),
            create_armed: false,
            destroy_armed: false,
            interval_map: Ghost(Map::empty()),
        }
    }

    /// Appends a listener with the given id to the list of the named event
    /// kind. Returns whether this is the first registration that needs the
    /// kind's notification source, which the caller must then arm.
    pub fn add_event_listener_with_id(&mut self, event_type: &str, id: u64) -> (r: Result<
        bool,
        PluginError,
    >)
        requires
            old(self).wf(),
        ensures
            final(self).wf(),
            match event_type_of(event_type@) {
                None => r == Err::<bool, PluginError>(PluginError::InvalidEventType) && *final(self)
                    == *old(self),
                Some(kind) => r == Ok::<bool, PluginError>(!old(self).armed(kind))
                    && listener_added(*old(self), *final(self), kind, id),
            },
    {
        match EventType::from_str(event_type) {
            None => Err(PluginError::InvalidEventType),
            Some(EventType::OnMonsterCreate) => {
                let first = !self.create_armed;
                self.create_armed = true;
                self.create_listeners.push(id);
                assert(self.interval_slots@ == old(self).interval_slots@);
                assert(self.interval_map@ == old(self).interval_map@);
                Ok(first)
            },
            Some(EventType::OnMonsterDestroy) => {
                let first = !self.destroy_armed;
                self.destroy_armed = true;
                self.destroy_listeners.push(id);
                assert(self.interval_slots@ == old(self).interval_slots@);
                assert(self.interval_map@ == old(self).interval_map@);
                Ok(first)
            },
        }
    }

    /// The position of the slot for an interval, if there is one.
    fn find_slot(&self, interval: u64) -> (r: Option<usize>)
        requires
            self.wf(),
        ensures
            match r {
                None => !self.intervals().contains_key(interval),
                Some(i) => i < self.interval_slots@.len() && self.interval_slots@[i as int].interval
                    == interval,
            },
    {
        let mut i: usize = 0;
        while i < self.interval_slots.len()
            invariant
                i <= self.interval_slots@.len(),
                forall|k: int| 0 <= k < i ==> self.interval_slots@[k].interval != interval,
            decreases self.interval_slots@.len() - i,
        {
            if self.interval_slots[i].interval == interval {
                return Some(i);
            }
            i = i + 1;
        }
        None
    }

    /// Appends a listener with the given id to the list of an interval.
    /// Returns whether the interval had no list before, in which case the
    /// caller must start the one ticker for that interval.
    pub fn set_interval_with_id(&mut self, interval: u64, id: u64) -> (r: Result<
        bool,
        PluginError,
    >)
        requires
            old(self).wf(),
        ensures
            final(self).wf(),
            interval == 0 ==> r == Err::<bool, PluginError>(PluginError::InvalidInterval)
                && *final(self) == *old(self),
            interval != 0 ==> r == Ok::<bool, PluginError>(!old(self).intervals().contains_key(interval))
                && interval_added(*old(self), *final(self), interval, id),
    {
        if interval == 0 {
            return Err(PluginError::InvalidInterval);
        }
        match self.find_slot(interval) {
            Some(i) => {
                let ghost old_slots = self.interval_slots@;
                let ghost old_map = self.interval_map@;
                let slot = self.interval_slots.remove(i);
                let mut ids = slot.ids;
                ids.push(id);
                let ghost new_ids = ids@;
                self.interval_slots.insert(i, IntervalSlot { interval, ids });
                self.interval_map = Ghost(self.interval_map@.insert(interval, new_ids));
                assert(self.interval_slots@ =~= old_slots.update(i as int, self.interval_slots@[i as int]));
                proof { lemma_slots_cover(old_slots, self.interval_slots@, old_map, interval, new_ids, i as int); }
                Ok(false)
            },
            None => {
                let ghost old_slots = self.interval_slots@;
                let ghost old_map = self.interval_map@;
                let mut ids: Vec<u64> = Vec::new();
                ids.push(id);
                let ghost new_ids = ids@;
                self.interval_slots.push(IntervalSlot { interval, ids });
                self.interval_map = Ghost(self.interval_map@.insert(interval, new_ids));
                assert(new_ids =~= seq![id]);
                proof { lemma_slots_cover(old_slots, self.interval_slots@, old_map, interval, new_ids, old_slots.len() as int); }
                Ok(true)
            },
        }
    }
}


/// After the slot at `at` is given (or takes) `interval`, with every earlier
/// slot keeping its interval, each key of the updated map has a slot.
proof fn lemma_slots_cover(
    old_slots: Seq<IntervalSlot>,
    new_slots: Seq<IntervalSlot>,
    old_map: Map<u64, Seq<u64>>,
    interval: u64,
    ids: Seq<u64>,
    at: int,
)
    requires
        forall|k: u64| #[trigger] old_map.contains_key(k) ==> exists|j: int|
            0 <= j < old_slots.len() && old_slots[j].interval == k,
        old_slots.len() <= new_slots.len(),
        forall|j: int| 0 <= j < old_slots.len() ==> #[trigger] new_slots[j].interval == old_slots[j].interval,
        0 <= at < new_slots.len(),
        new_slots[at].interval == interval,
    ensures
        forall|k: u64| #[trigger] old_map.insert(interval, ids).contains_key(k) ==> exists|j: int|
            0 <= j < new_slots.len() && new_slots[j].interval == k,
{
    assert forall|k: u64| #[trigger] old_map.insert(interval, ids).contains_key(k) implies exists|j: int|
        0 <= j < new_slots.len() && new_slots[j].interval == k by {
        if k != interval {
            let j = choose|j: int| 0 <= j < old_slots.len() && old_slots[j].interval == k;
            assert(new_slots[j].interval == k);
        } else {
            assert(new_slots[at].interval == k);
        }
    }
}

/// A copy of a list of listener ids.
fn copy_ids(v: &Vec<u64>) -> (r: Vec<u64>)
    ensures
        r@ == v@,
{
    let r = v.clone();
    assert(r@ =~= v@);
    r
}

/// The ids of `v` other than `id`, in order.
fn without(v: &Vec<u64>, id: u64) -> (r: Vec<u64>)
    ensures
        r@ == v@.filter(|x: u64| x != id),
{
    let mut kept: Vec<u64> = Vec::new();
    let mut i: usize = 0;
    while i < v.len()
        invariant
            i <= v@.len(),
            kept@ == v@.take(i as int).filter(|x: u64| x != id),
        decreases v@.len() - i,
    {
        proof {
            assert(v@.take(i + 1).drop_last() =~= v@.take(i as int));
            reveal(Seq::filter);
        }
        if v[i] != id {
            kept.push(v[i]);
        }
        i = i + 1;
    }
    assert(v@.take(v@.len() as int) =~= v@);
    kept
}

/// Relies on rand::random::<u64>: a value drawn from the thread-local
/// generator. Nothing is known of the value, so nothing is promised.
#[verifier::external_body]
fn fresh_listener_id() -> u64 {
    rand::random::<u64>()
}

impl Plugin {
    /// Registers a listener for the named event kind under a freshly drawn
    /// random id.
    pub fn add_event_listener(&mut self, event_type: &str) -> (r: Result<Registration, PluginError>)
        requires
            old(self).wf(),
        ensures
            final(self).wf(),
            r is Ok <==> event_type_of(event_type@) is Some,
            match r {
                Err(e) => e == PluginError::InvalidEventType && *final(self) == *old(self),
                Ok(reg) => reg.start_source == !old(self).armed(event_type_of(event_type@).unwrap())
                    && listener_added(*old(self), *final(self), event_type_of(event_type@).unwrap(), reg.id),
            },
    {
        let id = fresh_listener_id();
        match self.add_event_listener_with_id(event_type, id) {
            Ok(start_source) => Ok(Registration { id, start_source }),
            Err(e) => Err(e),
        }
    }

    /// Registers an interval listener under a freshly drawn random id.
    pub fn set_interval(&mut self, interval: u64) -> (r: Result<Registration, PluginError>)
        requires
            old(self).wf(),
        ensures
            final(self).wf(),
            r is Ok <==> interval != 0,
            match r {
                Err(e) => e == PluginError::InvalidInterval && *final(self) == *old(self),
                Ok(reg) => reg.start_source == !old(self).intervals().contains_key(interval)
                    && interval_added(*old(self), *final(self), interval, reg.id),
            },
    {
        let id = fresh_listener_id();
        match self.set_interval_with_id(interval, id) {
            Ok(start_source) => Ok(Registration { id, start_source }),
            Err(e) => Err(e),
        }
    }

    /// Removes every listener of `kind` with id `id`. Returns whether there
    /// was one. The kind's notification source stays armed.
    pub fn remove_event_listener(&mut self, kind: EventType, id: u64) -> (r: bool)
        requires
            old(self).wf(),
        ensures
            final(self).wf(),
            r == old(self).listeners(kind).contains(id),
            final(self).listeners(kind) == old(self).listeners(kind).filter(|x: u64| x != id),
            forall|other: EventType| other != kind ==> final(self).listeners(other) == old(self).listeners(other),
            forall|k: EventType| final(self).armed(k) == old(self).armed(k),
            final(self).intervals() == old(self).intervals(),
    {
        let list = match kind {
            EventType::OnMonsterCreate => &self.create_listeners,
            EventType::OnMonsterDestroy => &self.destroy_listeners,
        };
        let kept = without(list, id);
        let found = kept.len() < list.len();
        proof {
            let f = |x: u64| x != id;
            if list@.contains(id) {
                let j = choose|j: int| 0 <= j < list@.len() && list@[j] == id;
                if kept@.len() == list@.len() {
                    assert(list@.filter(f).len() == list@.len());
                    lemma_filter_keeps_all(list@, f);
                    assert(f(list@[j]));
                }
            } else {
                assert forall|j: int| 0 <= j < list@.len() implies f(list@[j]) by {
                    if !f(list@[j]) {
                        assert(list@.contains(id));
                    }
                }
                lemma_filter_all(list@, f);
            }
        }
        match kind {
            EventType::OnMonsterCreate => {
                self.create_listeners = kept;
            },
            EventType::OnMonsterDestroy => {
                self.destroy_listeners = kept;
            },
        }
        proof {
            assert(self.interval_slots@ == old(self).interval_slots@);
            assert(self.interval_map@ == old(self).interval_map@);
        }
        found
    }

    /// The listeners to invoke, in order, when a notification of `kind`
    /// arrives for an instance in `state` (`None`: the instance is gone).
    /// Only a running instance has its listeners invoked.
    pub fn dispatch_event_monster(&self, kind: EventType, state: Option<RinningState>) -> (r: Vec<
        u64,
    >)
        ensures
            r@ == event_listeners_for(*self, kind, state),
    {
        match state {
            Some(RinningState::Running) => match kind {
                EventType::OnMonsterCreate => copy_ids(&self.create_listeners),
                EventType::OnMonsterDestroy => copy_ids(&self.destroy_listeners),
            },
            _ => Vec::new(),
        }
    }

    /// What one tick of the ticker for `interval` does for an instance in
    /// `state` (`None`: the instance is gone): only a running instance has
    /// its listeners invoked; otherwise the ticker ends.
    pub fn dispatch_set_interval(&self, interval: u64, state: Option<RinningState>) -> (r: TickStep)
        requires
            self.wf(),
        ensures
            state != Some(RinningState::Running) ==> r == TickStep::Stop,
            state == Some(RinningState::Running) ==> (r matches TickStep::Fire(ids) && ids@
                == interval_listeners_for(*self, interval)),
    {
        match state {
            Some(RinningState::Running) => match self.find_slot(interval) {
                Some(i) => TickStep::Fire(copy_ids(&self.interval_slots[i].ids)),
                None => TickStep::Fire(Vec::new()),
            },
            _ => TickStep::Stop,
        }
    }
}


/// Listeners of one kind are reached in registration order: after two
/// registrations `a` then `b`, a notification to a running instance reaches
/// the earlier listeners, then `a`, then `b`. A listener whose id was not
/// registered before is reached exactly once.
pub proof fn lemma_listeners_in_registration_order(
    before: Plugin,
    after: Plugin,
    later: Plugin,
    kind: EventType,
    a: u64,
    b: u64,
)
    requires
        listener_added(before, after, kind, a),
        listener_added(after, later, kind, b),
    ensures
        event_listeners_for(after, kind, Some(RinningState::Running)) == event_listeners_for(
            before,
            kind,
            Some(RinningState::Running),
        ).push(a),
        event_listeners_for(later, kind, Some(RinningState::Running)) == event_listeners_for(
            before,
            kind,
            Some(RinningState::Running),
        ) + seq![a, b],
        !before.listeners(kind).contains(a) ==> forall|i: int|
            0 <= i < after.listeners(kind).len() && #[trigger] event_listeners_for(
                after,
                kind,
                Some(RinningState::Running),
            )[i] == a ==> i == before.listeners(kind).len(),
{
    assert(before.listeners(kind).push(a).push(b) =~= before.listeners(kind) + seq![a, b]);
    if !before.listeners(kind).contains(a) {
        assert forall|i: int|
            0 <= i < after.listeners(kind).len() && #[trigger] event_listeners_for(
                after,
                kind,
                Some(RinningState::Running),
            )[i] == a implies i == before.listeners(kind).len() by {
            if i < before.listeners(kind).len() {
                assert(before.listeners(kind)[i] == a);
            }
        }
    }
}

/// Two interval registrations with the same interval need one ticker: after
/// the first, the interval has a list, so the second starts none; both
/// listeners share that list, in registration order.
pub proof fn lemma_one_ticker_per_interval(
    before: Plugin,
    after: Plugin,
    later: Plugin,
    interval: u64,
    a: u64,
    b: u64,
)
    requires
        interval_added(before, after, interval, a),
        interval_added(after, later, interval, b),
    ensures
        after.intervals().contains_key(interval),
        later.intervals().dom() == before.intervals().dom().insert(interval),
        interval_listeners_for(later, interval) == interval_listeners_for(before, interval) + seq![a, b],
{
    assert(later.intervals().dom() =~= before.intervals().dom().insert(interval));
    if before.intervals().contains_key(interval) {
        assert(before.intervals()[interval].push(a).push(b) =~= before.intervals()[interval] + seq![a, b]);
    } else {
        assert(seq![a].push(b) =~= Seq::<u64>::empty() + seq![a, b]);
    }
}

/// Filtering drops no element only when every element passes.
proof fn lemma_filter_keeps_all(s: Seq<u64>, f: spec_fn(u64) -> bool)
    requires
        s.filter(f).len() == s.len(),
    ensures
        forall|j: int| 0 <= j < s.len() ==> f(s[j]),
    decreases s.len(),
{
    reveal(Seq::filter);
    if s.len() > 0 {
        s.drop_last().lemma_filter_len(f);
        if !f(s.last()) {
            assert(s.filter(f) == s.drop_last().filter(f));
        }
        lemma_filter_keeps_all(s.drop_last(), f);
        assert forall|j: int| 0 <= j < s.len() implies f(s[j]) by {
            if j < s.len() - 1 {
                assert(s[j] == s.drop_last()[j]);
            }
        }
    }
}

/// Filtering keeps a sequence whose every element passes.
proof fn lemma_filter_all(s: Seq<u64>, f: spec_fn(u64) -> bool)
    requires
        forall|j: int| 0 <= j < s.len() ==> f(s[j]),
    ensures
        s.filter(f) == s,
    decreases s.len(),
{
    reveal(Seq::filter);
    if s.len() > 0 {
        assert forall|j: int| 0 <= j < s.drop_last().len() implies f(s.drop_last()[j]) by {
            assert(s.drop_last()[j] == s[j]);
        }
        lemma_filter_all(s.drop_last(), f);
        assert(f(s[s.len() - 1]));
        assert(s.drop_last().push(s.last()) =~= s);
    }
}

} // verus!

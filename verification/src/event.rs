//! UEFI event services: creating, signalling and closing events, event
//! groups, timers, and the queue of pending notification functions, which
//! runs the highest TPL first and, within a TPL, in the order of queueing.
use vstd::prelude::*;
use std::collections::BTreeMap;
use vstd::std_specs::iter::IteratorSpec;
use crate::protocol_db::{EfiError, Guid};

verus! {

broadcast use {vstd::std_specs::btree::group_btree_axioms, vstd::laws_cmp::group_laws_cmp};

/// The event is a timer.
pub const EVT_TIMER: u32 = 0x80000000;
/// The event has a notification function run when it is waited on.
pub const EVT_NOTIFY_WAIT: u32 = 0x00000100;
/// The event has a notification function queued when it is signalled.
pub const EVT_NOTIFY_SIGNAL: u32 = 0x00000200;
/// The type value of an ExitBootServices event.
pub const EVT_SIGNAL_EXIT_BOOT_SERVICES: u32 = 0x00000201;
/// The type value of a SetVirtualAddressMap event.
pub const EVT_SIGNAL_VIRTUAL_ADDRESS_CHANGE: u32 = 0x60000202;

/// Task priority level of applications.
pub const TPL_APPLICATION: usize = 4;
/// Task priority level of callbacks.
pub const TPL_CALLBACK: usize = 8;
/// Task priority level of notifications.
pub const TPL_NOTIFY: usize = 16;
/// The highest task priority level.
pub const TPL_HIGH_LEVEL: usize = 31;

/// The supported event types.
#[derive(Debug, Clone, Copy, PartialEq, Eq, Structural)]
pub enum EventType {
    /// Timer event whose notification function is queued when it is signalled.
    TimerNotifyEvent,
    /// Timer event without a notification function.
    TimerEvent,
    /// Event whose notification function runs when it is waited on.
    NotifyWaitEvent,
    /// Event whose notification function is queued when it is signalled.
    NotifySignalEvent,
    /// ExitBootServices event; stands for an event group and cannot be created.
    ExitBootServicesEvent,
    /// SetVirtualAddressMap event; stands for an event group and cannot be created.
    SetVirtualAddressEvent,
    /// Event without a notification function.
    GenericEvent,
    /// Timer event whose notification function runs when it is waited on.
    TimerNotifyWaitEvent,
}

/// The type that an event type value denotes, where it may be created.
pub open spec fn event_type_of(value: u32) -> Option<EventType> {
    if value == 0x80000200 {
        Some(EventType::TimerNotifyEvent)
    } else if value == 0x80000000 {
        Some(EventType::TimerEvent)
    } else if value == 0x00000100 {
        Some(EventType::NotifyWaitEvent)
    } else if value == 0x00000200 {
        Some(EventType::NotifySignalEvent)
    } else if value == 0x00000000 {
        Some(EventType::GenericEvent)
    } else if value == 0x80000100 {
        Some(EventType::TimerNotifyWaitEvent)
    } else {
        None
    }
}

/// The bits of each type value that the type tests read.
proof fn lemma_event_type_bits()
    by (bit_vector)
    ensures
        0x80000200u32 & 0x200u32 != 0,
        0x80000000u32 & 0x200u32 == 0,
        0x00000100u32 & 0x200u32 == 0,
        0x00000200u32 & 0x200u32 != 0,
        0x00000201u32 & 0x200u32 != 0,
        0x60000202u32 & 0x200u32 != 0,
        0x00000000u32 & 0x200u32 == 0,
        0x80000100u32 & 0x200u32 == 0,
        0x80000200u32 & 0x100u32 == 0,
        0x80000000u32 & 0x100u32 == 0,
        0x00000100u32 & 0x100u32 != 0,
        0x00000200u32 & 0x100u32 == 0,
        0x00000201u32 & 0x100u32 == 0,
        0x60000202u32 & 0x100u32 == 0,
        0x00000000u32 & 0x100u32 == 0,
        0x80000100u32 & 0x100u32 != 0,
        0x80000200u32 & 0x80000000u32 != 0,
        0x80000000u32 & 0x80000000u32 != 0,
        0x00000100u32 & 0x80000000u32 == 0,
        0x00000200u32 & 0x80000000u32 == 0,
        0x00000201u32 & 0x80000000u32 == 0,
        0x60000202u32 & 0x80000000u32 == 0,
        0x00000000u32 & 0x80000000u32 == 0,
        0x80000100u32 & 0x80000000u32 != 0,
        0x80000200u32 & 0x300u32 != 0,
        0x80000000u32 & 0x300u32 == 0,
        0x00000100u32 & 0x300u32 != 0,
        0x00000200u32 & 0x300u32 != 0,
        0x00000000u32 & 0x300u32 == 0,
        0x80000100u32 & 0x300u32 != 0,
        0x200u32 | 0x100u32 == 0x300u32,
{
}

impl EventType {
    /// The type value of this event type.
    pub open spec fn code(self) -> u32 {
        match self {
            EventType::TimerNotifyEvent => 0x80000200,
            EventType::TimerEvent => 0x80000000,
            EventType::NotifyWaitEvent => 0x00000100,
            EventType::NotifySignalEvent => 0x00000200,
            EventType::ExitBootServicesEvent => 0x00000201,
            EventType::SetVirtualAddressEvent => 0x60000202,
            EventType::GenericEvent => 0x00000000,
            EventType::TimerNotifyWaitEvent => 0x80000100,
        }
    }

    /// The type has the NOTIFY_SIGNAL bit.
    pub open spec fn notifies_on_signal(self) -> bool {
        self.code() & EVT_NOTIFY_SIGNAL != 0
    }

    /// The type has the NOTIFY_WAIT bit.
    pub open spec fn notifies_on_wait(self) -> bool {
        self.code() & EVT_NOTIFY_WAIT != 0
    }

    /// The type has the TIMER bit.
    pub open spec fn timed(self) -> bool {
        self.code() & EVT_TIMER != 0
    }

    /// The type value of this event type.
    pub fn value(&self) -> (r: u32)
        ensures
            r == self.code(),
    {
        match self {
            EventType::TimerNotifyEvent => 0x80000200,
            EventType::TimerEvent => 0x80000000,
            EventType::NotifyWaitEvent => 0x00000100,
            EventType::NotifySignalEvent => 0x00000200,
            EventType::ExitBootServicesEvent => 0x00000201,
            EventType::SetVirtualAddressEvent => 0x60000202,
            EventType::GenericEvent => 0x00000000,
            EventType::TimerNotifyWaitEvent => 0x80000100,
        }
    }

    /// Whether this type is NOTIFY_SIGNAL.
    pub fn is_notify_signal(&self) -> (r: bool)
        ensures
            r == self.notifies_on_signal(),
    {
        proof {
            lemma_event_type_bits();
        }
        match self {
            EventType::TimerNotifyEvent => true,
            EventType::NotifySignalEvent => true,
            EventType::ExitBootServicesEvent => true,
            EventType::SetVirtualAddressEvent => true,
            _ => false,
        }
    }

    /// Whether this type is NOTIFY_WAIT.
    pub fn is_notify_wait(&self) -> (r: bool)
        ensures
            r == self.notifies_on_wait(),
    {
        proof {
            lemma_event_type_bits();
        }
        match self {
            EventType::NotifyWaitEvent => true,
            EventType::TimerNotifyWaitEvent => true,
            _ => false,
        }
    }

    /// Whether this type is TIMER.
    pub fn is_timer(&self) -> (r: bool)
        ensures
            r == self.timed(),
    {
        proof {
            lemma_event_type_bits();
        }
        match self {
            EventType::TimerNotifyEvent => true,
            EventType::TimerEvent => true,
            EventType::TimerNotifyWaitEvent => true,
            _ => false,
        }
    }

    /// The event type with the given value. The ExitBootServices and
    /// SetVirtualAddressMap values stand for event groups and are refused,
    /// as are values that name no type.
    pub fn try_from_u32(value: u32) -> (r: Result<EventType, EfiError>)
        ensures
            event_type_of(value) matches Some(t) ==> r == Ok::<EventType, EfiError>(t),
            event_type_of(value) is None ==> r == Err::<EventType, EfiError>(EfiError::InvalidParameter),
    {
        if value == 0x80000200 {
            Ok(EventType::TimerNotifyEvent)
        } else if value == 0x80000000 {
            Ok(EventType::TimerEvent)
        } else if value == 0x00000100 {
            Ok(EventType::NotifyWaitEvent)
        } else if value == 0x00000200 {
            Ok(EventType::NotifySignalEvent)
        } else if value == 0x00000000 {
            Ok(EventType::GenericEvent)
        } else if value == 0x80000100 {
            Ok(EventType::TimerNotifyWaitEvent)
        } else {
            Err(EfiError::InvalidParameter)
        }
    }
}

/// The ways a timer can be set.
#[derive(Debug, Clone, Copy, PartialEq, Eq, Structural)]
pub enum TimerDelay {
    /// Cancels a pending timer.
    TimerCancel,
    /// A periodic timer.
    TimerPeriodic,
    /// A one-shot timer.
    TimerRelative,
}

impl TimerDelay {
    /// The timer delay with the given value: 0, 1 and 2 in the order of the variants.
    pub fn try_from_u32(value: u32) -> (r: Result<TimerDelay, EfiError>)
        ensures
            value == 0 ==> r == Ok::<TimerDelay, EfiError>(TimerDelay::TimerCancel),
            value == 1 ==> r == Ok::<TimerDelay, EfiError>(TimerDelay::TimerPeriodic),
            value == 2 ==> r == Ok::<TimerDelay, EfiError>(TimerDelay::TimerRelative),
            value > 2 ==> r == Err::<TimerDelay, EfiError>(EfiError::InvalidParameter),
    {
        if value == 0 {
            Ok(TimerDelay::TimerCancel)
        } else if value == 1 {
            Ok(TimerDelay::TimerPeriodic)
        } else if value == 2 {
            Ok(TimerDelay::TimerRelative)
        } else {
            Err(EfiError::InvalidParameter)
        }
    }
}

/// What is needed to run an event's notification function. The event, the
/// function and its context are handles and addresses, held as integers.
#[derive(Debug, Clone, Copy, PartialEq, Eq, Structural)]
pub struct EventNotification {
    /// The event.
    pub event: usize,
    /// The TPL the function runs at.
    pub notify_tpl: usize,
    /// The notification function.
    pub notify_function: usize,
    /// The context handed to the function.
    pub notify_context: Option<usize>,
}

/// A queued notification with the tag that records when it was queued.
#[derive(Debug, Clone, Copy, PartialEq, Eq, Structural)]
pub struct TaggedEventNotification {
    /// The notification.
    pub notification: EventNotification,
    /// Grows with each queueing.
    pub tag: u64,
}

/// An event in the database.
#[derive(Debug, Clone, Copy, PartialEq, Eq, Structural)]
pub struct Event {
    /// Its handle.
    pub event_id: usize,
    /// Its type.
    pub event_type: EventType,
    /// The event group it belongs to.
    pub event_group: Option<Guid>,
    /// Whether it is signalled.
    pub signalled: bool,
    /// The TPL its notification function runs at.
    pub notify_tpl: usize,
    /// Its notification function.
    pub notify_function: Option<usize>,
    /// The context of its notification function.
    pub notify_context: Option<usize>,
    /// When its timer fires next.
    pub trigger_time: Option<u64>,
    /// The period of its timer.
    pub period: Option<u64>,
}

/// Events of a notifying type have a function and a TPL in range.
pub open spec fn valid_event(e: Event) -> bool {
    (e.event_type.notifies_on_signal() || e.event_type.notifies_on_wait()) ==> (e.notify_function is Some
        && TPL_APPLICATION <= e.notify_tpl <= TPL_HIGH_LEVEL)
}

/// An event with these parameters can be created.
pub open spec fn creatable(event_type: u32, notify_tpl: usize, notify_function: Option<usize>) -> bool {
    &&& event_type_of(event_type) is Some
    &&& (event_type & (EVT_NOTIFY_SIGNAL | EVT_NOTIFY_WAIT)) != 0 ==> (notify_function is Some
        && TPL_APPLICATION <= notify_tpl <= TPL_HIGH_LEVEL)
}

/// The event that is created from these parameters.
pub open spec fn new_event(
    event_id: usize,
    event_type: u32,
    notify_tpl: usize,
    notify_function: Option<usize>,
    notify_context: Option<usize>,
    event_group: Option<Guid>,
) -> Event {
    Event {
        event_id,
        event_type: event_type_of(event_type).unwrap(),
        event_group,
        signalled: false,
        notify_tpl,
        notify_function,
        notify_context,
        trigger_time: None,
        period: None,
    }
}

impl Event {
    /// A new, unsignalled event without a timer.
    pub fn new(
        event_id: usize,
        event_type: u32,
        notify_tpl: usize,
        notify_function: Option<usize>,
        notify_context: Option<usize>,
        event_group: Option<Guid>,
    ) -> (r: Result<Event, EfiError>)
        ensures
            creatable(event_type, notify_tpl, notify_function) ==> r == Ok::<Event, EfiError>(
                new_event(event_id, event_type, notify_tpl, notify_function, notify_context, event_group),
            ),
            !creatable(event_type, notify_tpl, notify_function) ==> r == Err::<Event, EfiError>(
                EfiError::InvalidParameter,
            ),
            r matches Ok(e) ==> valid_event(e),
    {
        proof {
            lemma_event_type_bits();
        }
        let notifiable = (event_type & (EVT_NOTIFY_SIGNAL | EVT_NOTIFY_WAIT)) != 0;
        let t = match EventType::try_from_u32(event_type) {
            Ok(t) => t,
            Err(e) => {
                return Err(e);
            },
        };
        if notifiable {
            if notify_function.is_none() {
                return Err(EfiError::InvalidParameter);
            }
            if notify_tpl < TPL_APPLICATION || notify_tpl > TPL_HIGH_LEVEL {
                return Err(EfiError::InvalidParameter);
            }
        }
        Ok(
            Event {
                event_id,
                event_type: t,
                notify_tpl,
                notify_function,
                notify_context,
                event_group,
                signalled: false,
                trigger_time: None,
                period: None,
            },
        )
    }
}

/// `a` runs before `b`: at a higher TPL, or at the same TPL and queued earlier.
pub open spec fn precedes(a: TaggedEventNotification, b: TaggedEventNotification) -> bool {
    ||| a.notification.notify_tpl > b.notification.notify_tpl
    ||| (a.notification.notify_tpl == b.notification.notify_tpl && a.tag < b.tag)
}

/// The queue is in running order.
pub open spec fn queue_ordered(q: Seq<TaggedEventNotification>) -> bool {
    forall|i: int, j: int| 0 <= i < j < q.len() ==> #[trigger] precedes(q[i], q[j])
}

/// No event is queued twice.
pub open spec fn queue_distinct(q: Seq<TaggedEventNotification>) -> bool {
    forall|i: int, j: int|
        0 <= i < q.len() && 0 <= j < q.len() && i != j ==> #[trigger] q[i].notification.event
            != #[trigger] q[j].notification.event
}

/// Every tag in the queue is below `t`.
pub open spec fn tags_below(q: Seq<TaggedEventNotification>, t: int) -> bool {
    forall|i: int| 0 <= i < q.len() ==> #[trigger] q[i].tag < t
}

/// The event is in the queue.
pub open spec fn is_queued(q: Seq<TaggedEventNotification>, event: usize) -> bool {
    exists|i: int| 0 <= i < q.len() && #[trigger] q[i].notification.event == event
}

/// Where `n` goes in the queue: before the first entry that does not run before it.
pub open spec fn insert_pos(q: Seq<TaggedEventNotification>, n: TaggedEventNotification) -> int
    decreases q.len(),
{
    if q.len() == 0 || !precedes(q[0], n) {
        0
    } else {
        1 + insert_pos(q.drop_first(), n)
    }
}

/// The queue with `n` added, unless its event is queued already.
pub open spec fn queue_insert(q: Seq<TaggedEventNotification>, n: TaggedEventNotification) -> Seq<
    TaggedEventNotification,
> {
    if is_queued(q, n.notification.event) {
        q
    } else {
        q.insert(insert_pos(q, n), n)
    }
}

/// The queue entry for event `e` with tag `tag`.
pub open spec fn notification_for(e: Event, tag: int) -> TaggedEventNotification {
    TaggedEventNotification {
        notification: EventNotification {
            event: e.event_id,
            notify_tpl: e.notify_tpl,
            notify_function: e.notify_function.unwrap(),
            notify_context: e.notify_context,
        },
        tag: tag as u64,
    }
}

/// `insert_pos` is the first entry that does not run before `n`.
proof fn lemma_insert_pos(q: Seq<TaggedEventNotification>, n: TaggedEventNotification)
    ensures
        0 <= insert_pos(q, n) <= q.len(),
        forall|j: int| 0 <= j < insert_pos(q, n) ==> precedes(#[trigger] q[j], n),
        insert_pos(q, n) < q.len() ==> !precedes(q[insert_pos(q, n)], n),
    decreases q.len(),
{
    if q.len() > 0 && precedes(q[0], n) {
        lemma_insert_pos(q.drop_first(), n);
        assert forall|j: int| 0 <= j < insert_pos(q, n) implies precedes(#[trigger] q[j], n) by {
            if j > 0 {
                assert(q[j] == q.drop_first()[j - 1]);
            }
        }
    }
}

/// A position before which all entries run before `n`, and at which one does not, is `insert_pos`.
proof fn lemma_insert_pos_at(q: Seq<TaggedEventNotification>, n: TaggedEventNotification, i: int)
    requires
        0 <= i <= q.len(),
        forall|j: int| 0 <= j < i ==> precedes(#[trigger] q[j], n),
        i < q.len() ==> !precedes(q[i], n),
    ensures
        insert_pos(q, n) == i,
    decreases i,
{
    if i > 0 {
        assert(precedes(q[0], n));
        assert forall|j: int| 0 <= j < i - 1 implies precedes(#[trigger] q.drop_first()[j], n) by {
            assert(q.drop_first()[j] == q[j + 1]);
        }
        if i - 1 < q.drop_first().len() {
            assert(q.drop_first()[i - 1] == q[i]);
        }
        lemma_insert_pos_at(q.drop_first(), n, i - 1);
    }
}

/// Adding to a well-kept queue keeps it well kept.
proof fn lemma_queue_insert(q: Seq<TaggedEventNotification>, n: TaggedEventNotification)
    requires
        queue_ordered(q),
        queue_distinct(q),
        tags_below(q, n.tag as int),
    ensures
        queue_ordered(queue_insert(q, n)),
        queue_distinct(queue_insert(q, n)),
        tags_below(queue_insert(q, n), n.tag + 1),
        is_queued(queue_insert(q, n), n.notification.event),
        forall|e: usize| is_queued(q, e) ==> is_queued(queue_insert(q, n), e),
{
    if !is_queued(q, n.notification.event) {
        lemma_insert_pos(q, n);
        let p = insert_pos(q, n);
        let r = q.insert(p, n);
        assert forall|j: int| p <= j < q.len() implies precedes(n, #[trigger] q[j]) by {
            if j > p {
                assert(precedes(q[p], q[j]));
            }
            assert(q[j].tag < n.tag);
        }
        assert forall|i: int, j: int| 0 <= i < j < r.len() implies #[trigger] precedes(r[i], r[j]) by {
            if j < p {
                assert(r[i] == q[i] && r[j] == q[j]);
            } else if j == p {
                assert(r[i] == q[i]);
            } else if i < p {
                assert(r[i] == q[i] && r[j] == q[j - 1]);
                assert(precedes(q[i], q[j - 1]));
            } else if i == p {
                assert(r[j] == q[j - 1]);
            } else {
                assert(r[i] == q[i - 1] && r[j] == q[j - 1]);
                assert(precedes(q[i - 1], q[j - 1]));
            }
        }
        assert forall|i: int, j: int|
            0 <= i < r.len() && 0 <= j < r.len() && i != j implies #[trigger] r[i].notification.event
            != #[trigger] r[j].notification.event by {
            let qi = if i < p {
                i
            } else {
                i - 1
            };
            let qj = if j < p {
                j
            } else {
                j - 1
            };
            if i != p && j != p {
                assert(r[i] == q[qi] && r[j] == q[qj]);
            } else if i == p {
                assert(r[j] == q[qj]);
            } else {
                assert(r[i] == q[qi]);
            }
        }
        assert(r[p] == n);
        assert forall|e: usize| is_queued(q, e) implies is_queued(r, e) by {
            let k = choose|k: int| 0 <= k < q.len() && #[trigger] q[k].notification.event == e;
            if k < p {
                assert(r[k] == q[k]);
            } else {
                assert(r[k + 1] == q[k]);
            }
        }
    } else {
        assert forall|i: int| 0 <= i < q.len() implies #[trigger] q[i].tag < n.tag + 1 by {
            assert(q[i].tag < n.tag);
        }
    }
}

/// A sequence of event handles in increasing order.
pub open spec fn increasing(s: Seq<usize>) -> bool {
    forall|i: int, j: int| 0 <= i < j < s.len() ==> s[i] < s[j]
}

/// The handles of `ids` in increasing order.
pub open spec fn ordered_ids(ids: Set<usize>) -> Seq<usize> {
    choose|s: Seq<usize>| increasing(s) && s.to_set() == ids
}

/// Two increasing sequences with the same elements are equal.
proof fn lemma_increasing_unique(a: Seq<usize>, b: Seq<usize>)
    requires
        increasing(a),
        increasing(b),
        a.to_set() == b.to_set(),
    ensures
        a == b,
    decreases a.len(),
{
    if a.len() == 0 {
        if b.len() > 0 {
            assert(b.to_set().contains(b[0]));
            assert(a.to_set().contains(b[0]));
        }
        assert(a =~= b);
    } else {
        if b.len() == 0 {
            assert(a.to_set().contains(a[0]));
            assert(b.to_set().contains(a[0]));
        }
        assert(a.to_set().contains(a[0]));
        assert(b.to_set().contains(a[0]));
        let j = choose|j: int| 0 <= j < b.len() && b[j] == a[0];
        assert(b.to_set().contains(b[0]));
        assert(a.to_set().contains(b[0]));
        let i = choose|i: int| 0 <= i < a.len() && a[i] == b[0];
        assert(a[0] == b[0]) by {
            if j > 0 {
                assert(b[0] < b[j]);
            }
            if i > 0 {
                assert(a[0] < a[i]);
            }
        }
        let a1 = a.drop_first();
        let b1 = b.drop_first();
        assert(a1.to_set() =~= b1.to_set()) by {
            assert forall|x: usize| a1.to_set().contains(x) implies b1.to_set().contains(x) by {
                let k = choose|k: int| 0 <= k < a1.len() && a1[k] == x;
                assert(a.to_set().contains(x)) by {
                    assert(a[k + 1] == x);
                }
                let m = choose|m: int| 0 <= m < b.len() && b[m] == x;
                assert(a[0] < a[k + 1]);
                assert(m > 0);
                assert(b1[m - 1] == x);
            }
            assert forall|x: usize| b1.to_set().contains(x) implies a1.to_set().contains(x) by {
                let k = choose|k: int| 0 <= k < b1.len() && b1[k] == x;
                assert(b.to_set().contains(x)) by {
                    assert(b[k + 1] == x);
                }
                let m = choose|m: int| 0 <= m < a.len() && a[m] == x;
                assert(b[0] < b[k + 1]);
                assert(m > 0);
                assert(a1[m - 1] == x);
            }
        }
        lemma_increasing_unique(a1, b1);
        assert(a =~= b) by {
            assert forall|k: int| 0 <= k < a.len() implies a[k] == b[k] by {
                if k > 0 {
                    assert(a[k] == a1[k - 1]);
                    assert(b[k] == b1[k - 1]);
                }
            }
        }
    }
}

/// The keys of a map of events are handed out in increasing order.
proof fn lemma_increasing_handles(rem: Seq<&usize>)
    requires
        vstd::std_specs::btree::increasing_seq(rem),
    ensures
        forall|i: int, j: int| 0 <= i < j < rem.len() ==> *rem[i] < *rem[j],
{
    assert(vstd::laws_cmp::obeys_cmp::<usize>());
    assert(vstd::laws_cmp::obeys_cmp::<&usize>());
    vstd::std_specs::btree::axiom_increasing_seq_meaning::<&usize>(rem);
    assert forall|i: int, j: int| 0 <= i < j < rem.len() implies *rem[i] < *rem[j] by {
        assert(vstd::std_specs::cmp::OrdSpec::cmp_spec(&rem[i], &rem[j]) is Less);
    }
}

/// An increasing sequence is as long as the set of its elements.
proof fn lemma_ids_len(s: Seq<usize>)
    requires
        increasing(s),
    ensures
        s.to_set().len() == s.len(),
{
    assert(s.no_duplicates()) by {
        assert forall|a: int, b: int| 0 <= a < s.len() && 0 <= b < s.len() && a != b implies s[a] != s[b] by {
            if a < b {
                assert(s[a] < s[b]);
            } else {
                assert(s[b] < s[a]);
            }
        }
    }
    s.unique_seq_to_set();
}

/// An increasing sequence with the elements of `ids` is `ordered_ids(ids)`.
proof fn lemma_ordered_ids(ids: Set<usize>, s: Seq<usize>)
    requires
        increasing(s),
        s.to_set() == ids,
    ensures
        ordered_ids(ids) == s,
{
    let t = ordered_ids(ids);
    assert(increasing(t) && t.to_set() == ids);
    lemma_increasing_unique(t, s);
}

/// The state of an event database as the contracts see it.
pub struct EventDbModel {
    /// The events, by handle.
    pub events: Map<usize, Event>,
    /// The queued notifications, in running order.
    pub pending: Seq<TaggedEventNotification>,
    /// The tag the next queueing gets.
    pub notify_tags: int,
}

/// The queue and the events are well kept.
pub open spec fn model_wf(m: EventDbModel) -> bool {
    &&& forall|k: usize| #[trigger] m.events.contains_key(k) ==> valid_event(m.events[k]) && m.events[k].event_id
        == k
    &&& queue_ordered(m.pending)
    &&& queue_distinct(m.pending)
    &&& tags_below(m.pending, m.notify_tags)
}

/// Queues the notification of `e` when its type has a notification function,
/// and uses up a tag either way.
pub open spec fn queue_notify(m: EventDbModel, e: Event) -> EventDbModel {
    EventDbModel {
        events: m.events,
        pending: if e.event_type.notifies_on_signal() || e.event_type.notifies_on_wait() {
            queue_insert(m.pending, notification_for(e, m.notify_tags))
        } else {
            m.pending
        },
        notify_tags: m.notify_tags + 1,
    }
}

/// Marks event `id` signalled, and queues its notification when its type is NOTIFY_SIGNAL.
pub open spec fn signal_one(m: EventDbModel, id: usize) -> EventDbModel {
    let e = Event { signalled: true, ..m.events[id] };
    let m1 = EventDbModel { events: m.events.insert(id, e), pending: m.pending, notify_tags: m.notify_tags };
    if e.event_type.notifies_on_signal() {
        queue_notify(m1, e)
    } else {
        m1
    }
}

/// Signals, in the order of `ids`, those of them that are in group `g`.
pub open spec fn signal_members(m: EventDbModel, g: Guid, ids: Seq<usize>) -> EventDbModel
    decreases ids.len(),
{
    if ids.len() == 0 {
        m
    } else {
        let m0 = signal_members(m, g, ids.drop_last());
        let id = ids.last();
        if m0.events.contains_key(id) && m0.events[id].event_group == Some(g) {
            signal_one(m0, id)
        } else {
            m0
        }
    }
}

/// Signals every member of group `g`, in increasing order of handles.
pub open spec fn signal_group_model(m: EventDbModel, g: Guid) -> EventDbModel {
    signal_members(m, g, ordered_ids(m.events.dom()))
}

/// Signals event `id`: its whole group where it has one, else the event alone.
pub open spec fn signal_model(m: EventDbModel, id: usize) -> EventDbModel {
    match m.events[id].event_group {
        Some(g) => signal_group_model(m, g),
        None => signal_one(m, id),
    }
}

/// The timer of `e` has come due at `now`.
pub open spec fn timer_due(e: Event, now: u64) -> bool {
    e.event_type.timed() && (e.trigger_time matches Some(t) && t <= now)
}

/// `e` after its timer fired at `now`: re-armed one period later, or disarmed.
pub open spec fn fire_timer(e: Event, now: u64) -> Event {
    Event {
        trigger_time: match e.period {
            Some(p) => Some((now + p) as u64),
            None => None,
        },
        ..e
    }
}

/// Fires, in the order of `ids`, the timers of those of them that are due at `now`.
pub open spec fn tick_members(m: EventDbModel, now: u64, ids: Seq<usize>) -> EventDbModel
    decreases ids.len(),
{
    if ids.len() == 0 {
        m
    } else {
        let m0 = tick_members(m, now, ids.drop_last());
        let id = ids.last();
        if m0.events.contains_key(id) && timer_due(m0.events[id], now) {
            let m1 = EventDbModel {
                events: m0.events.insert(id, fire_timer(m0.events[id], now)),
                pending: m0.pending,
                notify_tags: m0.notify_tags,
            };
            signal_model(m1, id)
        } else {
            m0
        }
    }
}

/// Fires every due timer at `now`, in increasing order of handles.
pub open spec fn tick_model(m: EventDbModel, now: u64) -> EventDbModel {
    tick_members(m, now, ordered_ids(m.events.dom()))
}

/// Takes the next notification to run above `tpl`: entries of closed events
/// at the front are dropped; the front entry is taken, and its event left
/// unsignalled, when its TPL is above `tpl`.
pub open spec fn consume_model(m: EventDbModel, tpl: usize) -> (EventDbModel, Option<EventNotification>)
    decreases m.pending.len(),
{
    if m.pending.len() == 0 {
        (m, None)
    } else {
        let first = m.pending[0];
        let id = first.notification.event;
        if !m.events.contains_key(id) {
            consume_model(
                EventDbModel { events: m.events, pending: m.pending.drop_first(), notify_tags: m.notify_tags },
                tpl,
            )
        } else if first.notification.notify_tpl <= tpl {
            (m, None)
        } else {
            (
                EventDbModel {
                    events: m.events.insert(id, Event { signalled: false, ..m.events[id] }),
                    pending: m.pending.drop_first(),
                    notify_tags: m.notify_tags,
                },
                Some(first.notification),
            )
        }
    }
}

/// The events agree in everything but whether they are signalled.
pub open spec fn same_but_signal(a: Map<usize, Event>, b: Map<usize, Event>) -> bool {
    &&& a.dom() == b.dom()
    &&& forall|k: usize| #[trigger] a.contains_key(k) ==> Event { signalled: b[k].signalled, ..a[k] } == b[k]
}

/// The UEFI event database.
pub struct EventDb {
    /// The events, by handle.
    pub events: BTreeMap<usize, Event>,
    /// The handle the next event gets.
    pub next_event_id: usize,
    /// The queued notifications, in running order.
    pub pending_notifies: Vec<TaggedEventNotification>,
    /// The tag the next queueing gets.
    pub notify_tags: u64,
}

impl EventDb {
    /// What the contracts see of the database.
    pub open spec fn model(&self) -> EventDbModel {
        EventDbModel { events: self.events@, pending: self.pending_notifies@, notify_tags: self.notify_tags as int }
    }

    /// The database is well kept: each event is valid and has a handle below
    /// the next one, and the queue is in running order without repeats.
    pub open spec fn wf(&self) -> bool {
        &&& model_wf(self.model())
        &&& forall|k: usize| #[trigger] self.events@.contains_key(k) ==> k < self.next_event_id
    }

    /// The number of events.
    pub open spec fn event_count(&self) -> nat {
        self.events@.dom().len()
    }

    /// An empty database.
    pub fn new() -> (r: Self)
        ensures
            r.wf(),
            r.events@ == Map::<usize, Event>::empty(),
            r.pending_notifies@ == Seq::<TaggedEventNotification>::empty(),
            r.next_event_id == 1,
            r.notify_tags == 0,
    {
        EventDb { events: BTreeMap::new(), next_event_id: 1, pending_notifies: Vec::new(), notify_tags: 0 }
    }

    /// Creates an event and returns its handle. The handle is used up even
    /// when the parameters are refused.
    pub fn create_event(
        &mut self,
        event_type: u32,
        notify_tpl: usize,
        notify_function: Option<usize>,
        notify_context: Option<usize>,
        event_group: Option<Guid>,
    ) -> (r: Result<usize, EfiError>)
        requires
            old(self).wf(),
            old(self).next_event_id < usize::MAX,
        ensures
            final(self).wf(),
            final(self).next_event_id == old(self).next_event_id + 1,
            final(self).pending_notifies@ == old(self).pending_notifies@,
            final(self).notify_tags == old(self).notify_tags,
            creatable(event_type, notify_tpl, notify_function) ==> r == Ok::<usize, EfiError>(
                old(self).next_event_id,
            ) && final(self).events@ == old(self).events@.insert(
                old(self).next_event_id,
                new_event(
                    old(self).next_event_id,
                    event_type,
                    notify_tpl,
                    notify_function,
                    notify_context,
                    event_group,
                ),
            ),
            !creatable(event_type, notify_tpl, notify_function) ==> r == Err::<usize, EfiError>(
                EfiError::InvalidParameter,
            ) && final(self).events@ == old(self).events@,
    {
        let id = self.next_event_id;
        self.next_event_id = self.next_event_id + 1;
        let event = match Event::new(id, event_type, notify_tpl, notify_function, notify_context, event_group) {
            Ok(e) => e,
            Err(e) => {
                return Err(e);
            },
        };
        self.events.insert(id, event);
        Ok(id)
    }

    /// Closes (deletes) an event.
    pub fn close_event(&mut self, event: usize) -> (r: Result<(), EfiError>)
        requires
            old(self).wf(),
        ensures
            final(self).wf(),
            final(self).next_event_id == old(self).next_event_id,
            final(self).pending_notifies@ == old(self).pending_notifies@,
            final(self).notify_tags == old(self).notify_tags,
            final(self).events@ == old(self).events@.remove(event),
            old(self).events@.contains_key(event) ==> r is Ok,
            !old(self).events@.contains_key(event) ==> r == Err::<(), EfiError>(EfiError::InvalidParameter),
    {
        match self.events.remove(&event) {
            Some(_) => Ok(()),
            None => {
                assert(self.events@ =~= old(self).events@.remove(event));
                Err(EfiError::InvalidParameter)
            },
        }
    }

    /// Queues the notification of `event` with `tag` when its type has one.
    fn queue_notify_event(pending: &mut Vec<TaggedEventNotification>, event: &Event, tag: u64)
        requires
            queue_ordered(old(pending)@),
            queue_distinct(old(pending)@),
            tags_below(old(pending)@, tag as int),
            valid_event(*event),
        ensures
            queue_ordered(final(pending)@),
            queue_distinct(final(pending)@),
            tags_below(final(pending)@, tag + 1),
            final(pending)@ == (if event.event_type.notifies_on_signal() || event.event_type.notifies_on_wait() {
                queue_insert(old(pending)@, notification_for(*event, tag as int))
            } else {
                old(pending)@
            }),
    {
        if event.event_type.is_notify_signal() || event.event_type.is_notify_wait() {
            let n = TaggedEventNotification {
                notification: EventNotification {
                    event: event.event_id,
                    notify_tpl: event.notify_tpl,
                    notify_function: event.notify_function.unwrap(),
                    notify_context: event.notify_context,
                },
                tag,
            };
            assert(n == notification_for(*event, tag as int));
            proof {
                lemma_queue_insert(old(pending)@, n);
            }
            let mut i: usize = 0;
            let mut found = false;
            while i < pending.len()
                invariant
                    0 <= i <= pending@.len(),
                    pending@ == old(pending)@,
                    found == exists|j: int| 0 <= j < i && #[trigger] pending@[j].notification.event == n.notification.event,
                decreases pending@.len() - i,
            {
                if pending[i].notification.event == n.notification.event {
                    found = true;
                }
                i = i + 1;
            }
            if found {
                return;
            }
            let mut p: usize = 0;
            while p < pending.len() && (pending[p].notification.notify_tpl > n.notification.notify_tpl || (
            pending[p].notification.notify_tpl == n.notification.notify_tpl && pending[p].tag < n.tag))
                invariant
                    0 <= p <= pending@.len(),
                    pending@ == old(pending)@,
                    forall|j: int| 0 <= j < p ==> precedes(#[trigger] pending@[j], n),
                decreases pending@.len() - p,
            {
                p = p + 1;
            }
            proof {
                lemma_insert_pos_at(pending@, n, p as int);
            }
            pending.insert(p, n);
        } else {
            assert forall|i: int| 0 <= i < pending@.len() implies #[trigger] pending@[i].tag < tag + 1 by {
                assert(pending@[i].tag < tag);
            }
        }
    }

    /// Marks the event signalled and queues its notification when its type
    /// is NOTIFY_SIGNAL.
    fn signal_member(&mut self, id: usize, e: Event)
        requires
            old(self).wf(),
            old(self).events@.contains_key(id),
            old(self).events@[id] == e,
            e.event_type.notifies_on_signal() ==> old(self).notify_tags < u64::MAX,
        ensures
            final(self).wf(),
            final(self).model() == signal_one(old(self).model(), id),
            final(self).next_event_id == old(self).next_event_id,
            final(self).notify_tags <= old(self).notify_tags + 1,
    {
        let mut ev = e;
        ev.signalled = true;
        self.events.insert(id, ev);
        if ev.event_type.is_notify_signal() {
            let tag = self.notify_tags;
            EventDb::queue_notify_event(&mut self.pending_notifies, &ev, tag);
            self.notify_tags = self.notify_tags + 1;
        }
        assert(self.model().events =~= signal_one(old(self).model(), id).events);
    }

    /// The handles of all events in increasing order.
    fn event_ids(&self) -> (r: Vec<usize>)
        ensures
            r@ == ordered_ids(self.events@.dom()),
            increasing(r@),
            r@.to_set() == self.events@.dom(),
            forall|j: int| 0 <= j < r@.len() ==> #[trigger] self.events@.contains_key(r@[j]),
    {
        let m = &self.events;
        let ghost ks = vstd::std_specs::btree::spec_keys_iter(m).remaining().unref();
        proof {
            vstd::std_specs::btree::axiom_spec_keys_iter(m);
        }
        let mut out: Vec<usize> = Vec::new();
        for k in it: m.keys()
            invariant
                it.seq() == vstd::std_specs::btree::spec_keys_iter(m).remaining(),
                ks == it.seq().unref(),
                out@ == ks.subrange(0, it.index() as int),
            ensures
                out@ == ks,
        {
            let ghost i0 = it.index();
            assert(*k == ks[i0 as int]);
            out.push(*k);
            assert(out@ =~= ks.subrange(0, i0 + 1));
        }
        proof {
            let rem = vstd::std_specs::btree::spec_keys_iter(m).remaining();
            lemma_increasing_handles(rem);
            assert forall|i: int, j: int| 0 <= i < j < out@.len() implies out@[i] < out@[j] by {
                assert(*rem[i] < *rem[j]);
            }
            lemma_ordered_ids(self.events@.dom(), out@);
            assert forall|j: int| 0 <= j < out@.len() implies #[trigger] self.events@.contains_key(out@[j]) by {
                assert(out@.to_set().contains(out@[j]));
            }
        }
        out
    }

    /// Signals every event of group `group`, in increasing order of handles.
    pub fn signal_group(&mut self, group: Guid)
        requires
            old(self).wf(),
            signal_group_model(old(self).model(), group).notify_tags <= u64::MAX,
        ensures
            final(self).wf(),
            final(self).model() == signal_group_model(old(self).model(), group),
            final(self).next_event_id == old(self).next_event_id,
            same_but_signal(old(self).events@, final(self).events@),
            final(self).notify_tags <= old(self).notify_tags + old(self).event_count(),
    {
        let ids = self.event_ids();
        let ghost m0 = self.model();
        proof {
            lemma_ids_len(ids@);
        }
        let mut i: usize = 0;
        while i < ids.len()
            invariant
                0 <= i <= ids@.len(),
                ids@ == ordered_ids(m0.events.dom()),
                ids@.len() == old(self).event_count(),
                m0 == old(self).model(),
                self.wf(),
                self.next_event_id == old(self).next_event_id,
                self.model() == signal_members(m0, group, ids@.take(i as int)),
                same_but_signal(old(self).events@, self.events@),
                self.notify_tags <= old(self).notify_tags + i,
                signal_members(m0, group, ids@).notify_tags <= u64::MAX,
            decreases ids@.len() - i,
        {
            let id = ids[i];
            assert(ids@.take(i + 1).drop_last() =~= ids@.take(i as int));
            assert(ids@.take(i + 1).last() == id);
            proof {
                lemma_signal_members_tags(m0, group, ids@, i + 1);
            }
            match self.events.get(&id) {
                Some(e) => {
                    let e = *e;
                    let member = match e.event_group {
                        Some(g) => g.0 == group.0,
                        None => false,
                    };
                    if member {
                        let ghost before = self.events@;
                        self.signal_member(id, e);
                        assert(same_but_signal(old(self).events@, self.events@)) by {
                            assert(self.events@.dom() =~= before.dom());
                        }
                    }
                },
                None => {},
            }
            i = i + 1;
        }
        assert(ids@.take(ids@.len() as int) =~= ids@);
    }

    /// Signals an event: its whole group when it has one, else the event
    /// alone, queueing its notification when its type is NOTIFY_SIGNAL.
    pub fn signal_event(&mut self, event: usize) -> (r: Result<(), EfiError>)
        requires
            old(self).wf(),
            old(self).events@.contains_key(event) ==> signal_model(old(self).model(), event).notify_tags
                <= u64::MAX,
        ensures
            final(self).wf(),
            final(self).next_event_id == old(self).next_event_id,
            same_but_signal(old(self).events@, final(self).events@),
            final(self).notify_tags <= old(self).notify_tags + old(self).event_count(),
            old(self).events@.contains_key(event) ==> r is Ok && final(self).model() == signal_model(
                old(self).model(),
                event,
            ),
            !old(self).events@.contains_key(event) ==> r == Err::<(), EfiError>(EfiError::InvalidParameter)
                && final(self).model() == old(self).model(),
    {
        let e = match self.events.get(&event) {
            Some(e) => *e,
            None => {
                return Err(EfiError::InvalidParameter);
            },
        };
        match e.event_group {
            Some(g) => {
                self.signal_group(g);
            },
            None => {
                proof {
                    assert(old(self).events@.contains_key(event));
                    assert(old(self).events@.dom().contains(event));
                    assert(old(self).events@.dom().len() >= 1) by {
                        vstd::set_lib::lemma_len_subset(set![event], old(self).events@.dom());
                    }
                }
                let ghost before = self.events@;
                self.signal_member(event, e);
                assert(same_but_signal(old(self).events@, self.events@)) by {
                    assert(self.events@.dom() =~= before.dom());
                }
            },
        }
        Ok(())
    }

    /// Clears the signalled state of an event.
    pub fn clear_signal(&mut self, event: usize) -> (r: Result<(), EfiError>)
        requires
            old(self).wf(),
        ensures
            final(self).wf(),
            final(self).next_event_id == old(self).next_event_id,
            final(self).pending_notifies@ == old(self).pending_notifies@,
            final(self).notify_tags == old(self).notify_tags,
            old(self).events@.contains_key(event) ==> r is Ok && final(self).events@ == old(self).events@.insert(
                event,
                Event { signalled: false, ..old(self).events@[event] },
            ),
            !old(self).events@.contains_key(event) ==> r == Err::<(), EfiError>(EfiError::InvalidParameter)
                && final(self).events@ == old(self).events@,
    {
        let mut e = match self.events.get(&event) {
            Some(e) => *e,
            None => {
                return Err(EfiError::InvalidParameter);
            },
        };
        e.signalled = false;
        self.events.insert(event, e);
        Ok(())
    }

    /// Whether the event exists and is signalled.
    pub fn is_signalled(&self, event: usize) -> (r: bool)
        ensures
            r == (self.events@.contains_key(event) && self.events@[event].signalled),
    {
        match self.events.get(&event) {
            Some(e) => e.signalled,
            None => false,
        }
    }

    /// Reads whether the event is signalled, and clears it if so.
    pub fn read_and_clear_signalled(&mut self, event: usize) -> (r: Result<bool, EfiError>)
        requires
            old(self).wf(),
        ensures
            final(self).wf(),
            final(self).next_event_id == old(self).next_event_id,
            final(self).pending_notifies@ == old(self).pending_notifies@,
            final(self).notify_tags == old(self).notify_tags,
            r == Ok::<bool, EfiError>(old(self).events@.contains_key(event) && old(self).events@[event].signalled),
            (old(self).events@.contains_key(event) && old(self).events@[event].signalled) ==> final(self).events@
                == old(self).events@.insert(event, Event { signalled: false, ..old(self).events@[event] }),
            !(old(self).events@.contains_key(event) && old(self).events@[event].signalled) ==> final(self).events@
                == old(self).events@,
    {
        let signalled = self.is_signalled(event);
        if signalled {
            let r = self.clear_signal(event);
            if r.is_err() {
                return Err(EfiError::InvalidParameter);
            }
        }
        Ok(signalled)
    }

    /// Queues the notification of an event, whatever its signalled state,
    /// when its type has a notification function.
    pub fn queue_event_notify(&mut self, event: usize) -> (r: Result<(), EfiError>)
        requires
            old(self).wf(),
            old(self).notify_tags < u64::MAX,
        ensures
            final(self).wf(),
            final(self).next_event_id == old(self).next_event_id,
            old(self).events@.contains_key(event) ==> r is Ok && final(self).model() == queue_notify(
                old(self).model(),
                old(self).events@[event],
            ),
            !old(self).events@.contains_key(event) ==> r == Err::<(), EfiError>(EfiError::InvalidParameter)
                && final(self).model() == old(self).model(),
    {
        let e = match self.events.get(&event) {
            Some(e) => *e,
            None => {
                return Err(EfiError::InvalidParameter);
            },
        };
        let tag = self.notify_tags;
        EventDb::queue_notify_event(&mut self.pending_notifies, &e, tag);
        self.notify_tags = self.notify_tags + 1;
        Ok(())
    }

    /// The type of an event.
    pub fn get_event_type(&self, event: usize) -> (r: Result<EventType, EfiError>)
        ensures
            self.events@.contains_key(event) ==> r == Ok::<EventType, EfiError>(self.events@[event].event_type),
            !self.events@.contains_key(event) ==> r == Err::<EventType, EfiError>(EfiError::InvalidParameter),
    {
        match self.events.get(&event) {
            Some(e) => Ok(e.event_type),
            None => Err(EfiError::InvalidParameter),
        }
    }

    /// What is needed to run the notification function of an event; `NotFound`
    /// when there is no such event or its type has no notification function.
    pub fn get_notification_data(&self, event: usize) -> (r: Result<EventNotification, EfiError>)
        requires
            self.wf(),
        ensures
            (self.events@.contains_key(event) && (self.events@[event].event_type.notifies_on_signal()
                || self.events@[event].event_type.notifies_on_wait())) ==> r == Ok::<
                EventNotification,
                EfiError,
            >(notification_for(self.events@[event], 0).notification),
            !(self.events@.contains_key(event) && (self.events@[event].event_type.notifies_on_signal()
                || self.events@[event].event_type.notifies_on_wait())) ==> r == Err::<
                EventNotification,
                EfiError,
            >(EfiError::NotFound),
    {
        match self.events.get(&event) {
            Some(e) => {
                if !(e.event_type.is_notify_signal() || e.event_type.is_notify_wait()) {
                    return Err(EfiError::NotFound);
                }
                Ok(
                    EventNotification {
                        event,
                        notify_tpl: e.notify_tpl,
                        notify_function: e.notify_function.unwrap(),
                        notify_context: e.notify_context,
                    },
                )
            },
            None => Err(EfiError::NotFound),
        }
    }

    /// Sets the timer of a timer event: cancelled (neither time nor period),
    /// periodic (both) or one-shot (a time, no period).
    pub fn set_timer(
        &mut self,
        event: usize,
        timer_type: TimerDelay,
        trigger_time: Option<u64>,
        period: Option<u64>,
    ) -> (r: Result<(), EfiError>)
        requires
            old(self).wf(),
        ensures
            final(self).wf(),
            final(self).next_event_id == old(self).next_event_id,
            final(self).pending_notifies@ == old(self).pending_notifies@,
            final(self).notify_tags == old(self).notify_tags,
            ({
                let ok = old(self).events@.contains_key(event) && old(self).events@[event].event_type.timed()
                    && match timer_type {
                    TimerDelay::TimerCancel => trigger_time is None && period is None,
                    TimerDelay::TimerPeriodic => trigger_time is Some && period is Some,
                    TimerDelay::TimerRelative => trigger_time is Some && period is None,
                };
                &&& ok ==> r is Ok && final(self).events@ == old(self).events@.insert(
                    event,
                    Event { trigger_time, period, ..old(self).events@[event] },
                )
                &&& !ok ==> r == Err::<(), EfiError>(EfiError::InvalidParameter) && final(self).events@
                    == old(self).events@
            }),
    {
        let mut e = match self.events.get(&event) {
            Some(e) => *e,
            None => {
                return Err(EfiError::InvalidParameter);
            },
        };
        if !e.event_type.is_timer() {
            return Err(EfiError::InvalidParameter);
        }
        match timer_type {
            TimerDelay::TimerCancel => {
                if trigger_time.is_some() || period.is_some() {
                    return Err(EfiError::InvalidParameter);
                }
            },
            TimerDelay::TimerPeriodic => {
                if trigger_time.is_none() || period.is_none() {
                    return Err(EfiError::InvalidParameter);
                }
            },
            TimerDelay::TimerRelative => {
                if trigger_time.is_none() || period.is_some() {
                    return Err(EfiError::InvalidParameter);
                }
            },
        }
        e.trigger_time = trigger_time;
        e.period = period;
        self.events.insert(event, e);
        Ok(())
    }

    /// Advances the time to `current_time`: each timer that has come due is
    /// re-armed one period later (or disarmed when it has no period) and its
    /// event signalled, in increasing order of handles.
    #[verifier::rlimit(30)]
    pub fn timer_tick(&mut self, current_time: u64)
        requires
            old(self).wf(),
            tick_model(old(self).model(), current_time).notify_tags <= u64::MAX,
            forall|k: usize|
                #[trigger] old(self).events@.contains_key(k) && timer_due(old(self).events@[k], current_time)
                    && old(self).events@[k].period is Some ==> current_time + old(
                    self,
                ).events@[k].period.unwrap() <= u64::MAX,
        ensures
            final(self).wf(),
            final(self).next_event_id == old(self).next_event_id,
            final(self).model() == tick_model(old(self).model(), current_time),
    {
        let ids = self.event_ids();
        let ghost m0 = self.model();
        let ghost n = old(self).event_count();
        proof {
            lemma_ids_len(ids@);
        }
        let mut i: usize = 0;
        while i < ids.len()
            invariant
                0 <= i <= ids@.len(),
                ids@ == ordered_ids(m0.events.dom()),
                increasing(ids@),
                ids@.len() == n,
                forall|j: int| 0 <= j < ids@.len() ==> #[trigger] m0.events.contains_key(ids@[j]),
                n == old(self).event_count(),
                m0 == old(self).model(),
                self.wf(),
                self.next_event_id == old(self).next_event_id,
                self.model() == tick_members(m0, current_time, ids@.take(i as int)),
                self.events@.dom() == m0.events.dom(),
                forall|k: usize| #[trigger]
                    self.events@.contains_key(k) ==> self.events@[k].period == m0.events[k].period
                        && self.events@[k].event_type == m0.events[k].event_type,
                forall|j: int| i <= j < ids@.len() ==> #[trigger] self.events@[ids@[j]].trigger_time
                    == m0.events[ids@[j]].trigger_time,
                tick_members(m0, current_time, ids@).notify_tags <= u64::MAX,
                forall|k: usize|
                    #[trigger] m0.events.contains_key(k) && timer_due(m0.events[k], current_time)
                        && m0.events[k].period is Some ==> current_time + m0.events[k].period.unwrap()
                        <= u64::MAX,
            decreases ids@.len() - i,
        {
            let id = ids[i];
            assert(ids@.take(i + 1).drop_last() =~= ids@.take(i as int));
            assert(ids@.take(i + 1).last() == id);
            proof {
                lemma_tick_members_tags(m0, current_time, ids@, i + 1);
            }
            match self.events.get(&id) {
                Some(e) => {
                    let mut e = *e;
                    let mut due = false;
                    if e.event_type.is_timer() {
                        match e.trigger_time {
                            Some(t) => {
                                due = t <= current_time;
                            },
                            None => {},
                        }
                    }
                    if due {
                        assert(self.events@[ids@[i as int]].trigger_time == m0.events[ids@[i as int]].trigger_time);
                        e.trigger_time = match e.period {
                            Some(p) => Some(current_time + p),
                            None => None,
                        };
                        let ghost before = self.events@;
                        self.events.insert(id, e);
                        assert(self.events@.dom() =~= before.dom());
                        let ghost mid = self.events@;
                        let r = self.signal_event(id);
                        assert(same_but_signal(mid, self.events@));
                        assert forall|j: int| i + 1 <= j < ids@.len() implies #[trigger] self.events@[ids@[j]].trigger_time
                            == m0.events[ids@[j]].trigger_time by {
                            assert(ids@[i as int] < ids@[j]);
                            assert(mid.contains_key(ids@[j]));
                        }
                    }
                },
                None => {},
            }
            i = i + 1;
        }
        assert(ids@.take(ids@.len() as int) =~= ids@);
    }

    /// Takes the next notification to run above `tpl_level`: entries of
    /// closed events at the front of the queue are dropped; the front entry
    /// is taken, and its event left unsignalled, when its TPL is above
    /// `tpl_level`; else there is none.
    pub fn consume_next_event_notify(&mut self, tpl_level: usize) -> (r: Option<EventNotification>)
        requires
            old(self).wf(),
        ensures
            final(self).wf(),
            final(self).next_event_id == old(self).next_event_id,
            (final(self).model(), r) == consume_model(old(self).model(), tpl_level),
    {
        loop
            invariant
                self.wf(),
                self.next_event_id == old(self).next_event_id,
                consume_model(self.model(), tpl_level) == consume_model(old(self).model(), tpl_level),
            decreases self.pending_notifies@.len(),
        {
            if self.pending_notifies.len() == 0 {
                return None;
            }
            let first = self.pending_notifies[0];
            let id = first.notification.event;
            if !self.events.contains_key(&id) {
                let ghost prior = self.model();
                self.pending_notifies.remove(0);
                proof {
                    let q = self.pending_notifies@;
                    assert(q =~= prior.pending.drop_first());
                    assert forall|i: int, j: int| 0 <= i < j < q.len() implies #[trigger] precedes(q[i], q[j]) by {
                        assert(q[i] == prior.pending[i + 1] && q[j] == prior.pending[j + 1]);
                    }
                    assert forall|i: int, j: int|
                        0 <= i < q.len() && 0 <= j < q.len() && i != j implies #[trigger] q[i].notification.event
                        != #[trigger] q[j].notification.event by {
                        assert(q[i] == prior.pending[i + 1] && q[j] == prior.pending[j + 1]);
                    }
                    assert forall|i: int| 0 <= i < q.len() implies #[trigger] q[i].tag < prior.notify_tags by {
                        assert(q[i] == prior.pending[i + 1]);
                    }
                    assert(self.model() == EventDbModel {
                        events: prior.events,
                        pending: prior.pending.drop_first(),
                        notify_tags: prior.notify_tags,
                    });
                }
            } else if first.notification.notify_tpl <= tpl_level {
                return None;
            } else {
                let ghost prior = self.model();
                self.pending_notifies.remove(0);
                proof {
                    let q = self.pending_notifies@;
                    assert(q =~= prior.pending.drop_first());
                    assert forall|i: int, j: int| 0 <= i < j < q.len() implies #[trigger] precedes(q[i], q[j]) by {
                        assert(q[i] == prior.pending[i + 1] && q[j] == prior.pending[j + 1]);
                    }
                    assert forall|i: int, j: int|
                        0 <= i < q.len() && 0 <= j < q.len() && i != j implies #[trigger] q[i].notification.event
                        != #[trigger] q[j].notification.event by {
                        assert(q[i] == prior.pending[i + 1] && q[j] == prior.pending[j + 1]);
                    }
                    assert forall|i: int| 0 <= i < q.len() implies #[trigger] q[i].tag < prior.notify_tags by {
                        assert(q[i] == prior.pending[i + 1]);
                    }
                }
                let mut e = *self.events.get(&id).unwrap();
                e.signalled = false;
                self.events.insert(id, e);
                return Some(first.notification);
            }
        }
    }

    /// Whether the event exists.
    pub fn is_valid(&self, event: usize) -> (r: bool)
        ensures
            r == self.events@.contains_key(event),
    {
        self.events.contains_key(&event)
    }
}

/// Taking the next notification removes the entries before it and the one
/// it hands out from the front of the queue: the position of that entry.
proof fn lemma_consume_shape(m: EventDbModel, tpl: usize) -> (k: int)
    ensures
        0 <= k <= m.pending.len(),
        consume_model(m, tpl).1 matches Some(n) ==> k < m.pending.len() && n == m.pending[k].notification
            && consume_model(m, tpl).0.pending == m.pending.skip(k + 1),
        consume_model(m, tpl).1 is None ==> consume_model(m, tpl).0.pending == m.pending.skip(k),
    decreases m.pending.len(),
{
    if m.pending.len() == 0 {
        assert(m.pending.skip(0) =~= m.pending);
        0
    } else {
        let first = m.pending[0];
        let id = first.notification.event;
        if !m.events.contains_key(id) {
            let md = EventDbModel { events: m.events, pending: m.pending.drop_first(), notify_tags: m.notify_tags };
            let k1 = lemma_consume_shape(md, tpl);
            assert(md.pending.skip(k1) =~= m.pending.skip(k1 + 1));
            if k1 < md.pending.len() {
                assert(md.pending.skip(k1 + 1) =~= m.pending.skip(k1 + 2));
                assert(md.pending[k1] == m.pending[k1 + 1]);
            }
            k1 + 1
        } else if first.notification.notify_tpl <= tpl {
            assert(m.pending.skip(0) =~= m.pending);
            0
        } else {
            assert(m.pending.skip(1) =~= m.pending.drop_first());
            0
        }
    }
}


/// Signalling members never lowers the tag count, and signalling more of
/// them gives at least as many tags.
proof fn lemma_signal_members_tags(m: EventDbModel, g: Guid, ids: Seq<usize>, i: int)
    requires
        0 <= i <= ids.len(),
    ensures
        m.notify_tags <= signal_members(m, g, ids.take(i)).notify_tags <= signal_members(m, g, ids).notify_tags,
    decreases ids.len() - i,
{
    if i < ids.len() {
        lemma_signal_members_tags(m, g, ids, i + 1);
        assert(ids.take(i + 1).drop_last() =~= ids.take(i));
        lemma_signal_members_grow(m, g, ids.take(i));
        assert(signal_members(m, g, ids.take(i)).notify_tags <= signal_members(m, g, ids.take(i + 1)).notify_tags);
    } else {
        assert(ids.take(i) =~= ids);
        lemma_signal_members_grow(m, g, ids);
    }
}

proof fn lemma_signal_members_grow(m: EventDbModel, g: Guid, ids: Seq<usize>)
    ensures
        m.notify_tags <= signal_members(m, g, ids).notify_tags,
    decreases ids.len(),
{
    if ids.len() > 0 {
        lemma_signal_members_grow(m, g, ids.drop_last());
    }
}

/// Signalling an event never lowers the tag count.
proof fn lemma_signal_model_grows(m: EventDbModel, id: usize)
    ensures
        m.notify_tags <= signal_model(m, id).notify_tags,
{
    match m.events[id].event_group {
        Some(g) => lemma_signal_members_grow(m, g, ordered_ids(m.events.dom())),
        None => {},
    }
}

/// Firing more timers gives at least as many tags.
proof fn lemma_tick_members_tags(m: EventDbModel, now: u64, ids: Seq<usize>, i: int)
    requires
        0 <= i <= ids.len(),
    ensures
        tick_members(m, now, ids.take(i)).notify_tags <= tick_members(m, now, ids).notify_tags,
    decreases ids.len() - i,
{
    if i < ids.len() {
        lemma_tick_members_tags(m, now, ids, i + 1);
        assert(ids.take(i + 1).drop_last() =~= ids.take(i));
        let m0 = tick_members(m, now, ids.take(i));
        let id = ids.take(i + 1).last();
        if m0.events.contains_key(id) && timer_due(m0.events[id], now) {
            let m1 = EventDbModel {
                events: m0.events.insert(id, fire_timer(m0.events[id], now)),
                pending: m0.pending,
                notify_tags: m0.notify_tags,
            };
            lemma_signal_model_grows(m1, id);
        }
    } else {
        assert(ids.take(i) =~= ids);
    }
}

/// Taking the next notification over an ordered queue: what is handed out
/// runs above the TPL asked for, and no queued notification of an open event
/// runs higher; where nothing is handed out, none runs above that TPL.
proof fn lemma_consume_tpl(m: EventDbModel, tpl: usize)
    requires
        queue_ordered(m.pending),
    ensures
        consume_model(m, tpl).1 matches Some(n) ==> n.notify_tpl > tpl && forall|i: int|
            0 <= i < m.pending.len() && m.events.contains_key(#[trigger] m.pending[i].notification.event)
                ==> m.pending[i].notification.notify_tpl <= n.notify_tpl,
        consume_model(m, tpl).1 is None ==> forall|i: int|
            0 <= i < m.pending.len() && m.events.contains_key(#[trigger] m.pending[i].notification.event)
                ==> m.pending[i].notification.notify_tpl <= tpl,
    decreases m.pending.len(),
{
    if m.pending.len() > 0 {
        let first = m.pending[0];
        let id = first.notification.event;
        if !m.events.contains_key(id) {
            let md = EventDbModel { events: m.events, pending: m.pending.drop_first(), notify_tags: m.notify_tags };
            assert forall|i: int, j: int| 0 <= i < j < md.pending.len() implies #[trigger] precedes(
                md.pending[i],
                md.pending[j],
            ) by {
                assert(precedes(m.pending[i + 1], m.pending[j + 1]));
            }
            lemma_consume_tpl(md, tpl);
            assert forall|i: int|
                0 <= i < m.pending.len() && m.events.contains_key(
                    #[trigger] m.pending[i].notification.event,
                ) implies m.pending[i].notification.notify_tpl <= (match consume_model(m, tpl).1 {
                Some(n) => n.notify_tpl,
                None => tpl,
            }) by {
                assert(i > 0);
                assert(m.pending[i] == md.pending[i - 1]);
            }
        } else {
            assert forall|i: int| 0 < i < m.pending.len() implies (#[trigger] m.pending[i]).notification.notify_tpl
                <= m.pending[0].notification.notify_tpl by {
                assert(precedes(m.pending[0], m.pending[i]));
            }
        }
    }
}

/// Taking the next notification respects the TPL: the notification handed
/// out runs above the TPL asked for, and no queued notification of an open
/// event runs higher than it; where none is handed out, no queued
/// notification of an open event runs above that TPL.
pub proof fn lemma_consume_respects_tpl(m: EventDbModel, tpl: usize)
    requires
        model_wf(m),
    ensures
        consume_model(m, tpl).1 matches Some(n) ==> n.notify_tpl > tpl && forall|i: int|
            0 <= i < m.pending.len() && m.events.contains_key(#[trigger] m.pending[i].notification.event)
                ==> m.pending[i].notification.notify_tpl <= n.notify_tpl,
        consume_model(m, tpl).1 is None ==> forall|i: int|
            0 <= i < m.pending.len() && m.events.contains_key(#[trigger] m.pending[i].notification.event)
                ==> m.pending[i].notification.notify_tpl <= tpl,
{
    lemma_consume_tpl(m, tpl);
}

/// Signalling the members of group `g` among `ids` signals each event of the
/// group whose handle is listed and changes no other event; no event is
/// created or closed.
proof fn lemma_signal_members_effect(m: EventDbModel, g: Guid, ids: Seq<usize>)
    ensures
        signal_members(m, g, ids).events.dom() == m.events.dom(),
        forall|k: usize|
            #[trigger] m.events.contains_key(k) ==> signal_members(m, g, ids).events[k] == if ids.contains(k)
                && m.events[k].event_group == Some(g) {
                Event { signalled: true, ..m.events[k] }
            } else {
                m.events[k]
            },
    decreases ids.len(),
{
    if ids.len() > 0 {
        let rest = ids.drop_last();
        lemma_signal_members_effect(m, g, rest);
        let m0 = signal_members(m, g, rest);
        let id = ids.last();
        assert forall|k: usize| #[trigger] ids.contains(k) <==> rest.contains(k) || k == id by {
            if ids.contains(k) {
                let j = choose|j: int| 0 <= j < ids.len() && ids[j] == k;
                if j < ids.len() - 1 {
                    assert(rest[j] == k);
                }
            }
            if rest.contains(k) {
                let j = choose|j: int| 0 <= j < rest.len() && rest[j] == k;
                assert(ids[j] == k);
            }
            if k == id {
                assert(ids[ids.len() - 1] == k);
            }
        }
        let m2 = signal_members(m, g, ids);
        assert(m2.events.dom() =~= m.events.dom());
    } else {
        assert forall|k: usize| !(#[trigger] ids.contains(k)) by {}
    }
}

/// Signalling an event signals its whole group where it has one, and
/// the event alone where it has none: each of those events is signalled
/// afterwards and otherwise as it was, every other event is left alone, and
/// no event is created or closed. `handles` lists the events' handles in
/// increasing order.
pub proof fn lemma_signal_reaches_whole_group(m: EventDbModel, id: usize, handles: Seq<usize>)
    requires
        model_wf(m),
        m.events.contains_key(id),
        increasing(handles),
        handles.to_set() == m.events.dom(),
    ensures
        signal_model(m, id).events.dom() == m.events.dom(),
        forall|k: usize|
            #[trigger] m.events.contains_key(k) ==> signal_model(m, id).events[k] == if k == id || (
            m.events[id].event_group is Some && m.events[k].event_group == m.events[id].event_group) {
                Event { signalled: true, ..m.events[k] }
            } else {
                m.events[k]
            },
{
    match m.events[id].event_group {
        Some(g) => {
            lemma_ordered_ids(m.events.dom(), handles);
            lemma_signal_members_effect(m, g, handles);
            assert forall|k: usize| #[trigger] m.events.contains_key(k) implies handles.contains(k) by {
                assert(handles.to_set().contains(k));
            }
        },
        None => {
            let m2 = signal_model(m, id);
            assert(m2.events.dom() =~= m.events.dom());
        },
    }
}

/// The notifications handed out one after the other come in running order:
/// the first at a TPL no lower than the second, and for another event.
pub proof fn lemma_notifications_in_order(m: EventDbModel, tpl1: usize, tpl2: usize)
    requires
        model_wf(m),
        consume_model(m, tpl1).1 is Some,
        consume_model(consume_model(m, tpl1).0, tpl2).1 is Some,
    ensures
        consume_model(m, tpl1).1->0.notify_tpl >= consume_model(consume_model(m, tpl1).0, tpl2).1->0.notify_tpl,
        consume_model(m, tpl1).1->0.event != consume_model(consume_model(m, tpl1).0, tpl2).1->0.event,
{
    let k1 = lemma_consume_shape(m, tpl1);
    let m1 = consume_model(m, tpl1).0;
    let k2 = lemma_consume_shape(m1, tpl2);
    assert(m1.pending[k2] == m.pending[k1 + 1 + k2]);
    assert(precedes(m.pending[k1], m.pending[k1 + 1 + k2]));
}

} // verus!

//! Kinds of logic events reported to the embedding application, and the
//! bounded buffer that holds them until the application polls.

use vstd::prelude::*;

verus! {

/// Types of logic events that can be emitted
#[derive(Clone, Copy, Debug, PartialEq, Eq, Structural)]
pub enum LogicEventType {
    /// Entity was selected/deselected
    EntitySelected,
    /// Proximity threshold crossed
    ProximityAlert,
    /// Drag operation started
    DragStarted,
    /// Drag operation ended
    DragEnded,
    /// Entity was destroyed
    EntityDestroyed,
    /// Selection box completed (for box selection)
    BoxSelectionCompleted,
    /// Hover state changed
    HoverChanged,
    /// Maximum discriminant value
    _Max,
}

/// The byte that encodes each event type.
pub open spec fn event_code(t: LogicEventType) -> u8 {
    match t {
        LogicEventType::EntitySelected => 0,
        LogicEventType::ProximityAlert => 1,
        LogicEventType::DragStarted => 2,
        LogicEventType::DragEnded => 3,
        LogicEventType::EntityDestroyed => 4,
        LogicEventType::BoxSelectionCompleted => 5,
        LogicEventType::HoverChanged => 6,
        LogicEventType::_Max => 255,
    }
}

impl LogicEventType {
    /// The byte that encodes this event type.
    pub fn code(&self) -> (r: u8)
        ensures
            r == event_code(*self),
    {
        match self {
            LogicEventType::EntitySelected => 0,
            LogicEventType::ProximityAlert => 1,
            LogicEventType::DragStarted => 2,
            LogicEventType::DragEnded => 3,
            LogicEventType::EntityDestroyed => 4,
            LogicEventType::BoxSelectionCompleted => 5,
            LogicEventType::HoverChanged => 6,
            LogicEventType::_Max => 255,
        }
    }
}

/// Distinct event types have distinct codes.
pub proof fn lemma_event_codes_distinct(a: LogicEventType, b: LogicEventType)
    ensures
        event_code(a) == event_code(b) <==> a == b,
{
}

/// Ring buffer for logic events with bounded memory usage
///
/// Holds at most `capacity` events, oldest first. When full, pushing
/// discards the oldest event (FIFO).
#[derive(Debug)]
pub struct EventRingBuffer<E> {
    /// Buffer of events, oldest first
    events: Vec<E>,
    /// Maximum capacity
    capacity: usize,
}

/// The events kept after pushing `e` onto `events` with room for `cap`:
/// appended while there is room, else the oldest dropped to make room, and
/// nothing kept when there is no room at all.
pub open spec fn events_after_push<E>(events: Seq<E>, e: E, cap: usize) -> Seq<E> {
    if events.len() < cap {
        events.push(e)
    } else if cap > 0 {
        events.drop_first().push(e)
    } else {
        events
    }
}

impl<E> EventRingBuffer<E> {
    /// The buffered events, oldest first.
    pub closed spec fn contents(&self) -> Seq<E> {
        self.events@
    }

    /// The most events the buffer holds.
    pub closed spec fn spec_capacity(&self) -> usize {
        self.capacity
    }

    /// The buffer never holds more than its capacity.
    pub closed spec fn wf(&self) -> bool {
        self.events@.len() <= self.capacity
    }

    /// A well-formed buffer holds at most its capacity of events.
    pub proof fn lemma_len_within_capacity(&self)
        requires
            self.wf(),
        ensures
            self.contents().len() <= self.spec_capacity(),
    {
    }

    /// Create a new buffer with the given capacity
    pub fn new(capacity: usize) -> (r: Self)
        ensures
            r.wf(),
            r.contents() == Seq::<E>::empty(),
            r.spec_capacity() == capacity,
    {
        Self { events: Vec::with_capacity(capacity), capacity }
    }

    /// Push an event to the buffer
    ///
    /// If the buffer is full, the oldest event is discarded. Returns `true`
    /// if the event was added without discarding one, `false` if the buffer
    /// was full.
    pub fn push(&mut self, event: E) -> (r: bool)
        requires
            old(self).wf(),
        ensures
            final(self).wf(),
            r == (old(self).contents().len() < old(self).spec_capacity()),
            final(self).contents() == events_after_push(old(self).contents(), event, old(self).spec_capacity()),
            final(self).spec_capacity() == old(self).spec_capacity(),
    {
        if self.events.len() < self.capacity {
            self.events.push(event);
            true
        } else {
            if self.capacity > 0 {
                self.events.remove(0);
                self.events.push(event);
            }
            false
        }
    }

    /// Drain all events from the buffer
    ///
    /// Returns all events, oldest first, and empties the buffer.
    pub fn drain(&mut self) -> (r: Vec<E>)
        requires
            old(self).wf(),
        ensures
            final(self).wf(),
            r@ == old(self).contents(),
            final(self).contents() == Seq::<E>::empty(),
            final(self).spec_capacity() == old(self).spec_capacity(),
    {
        if self.events.len() == 0 {
            return Vec::new();
        }
        let mut taken: Vec<E> = Vec::new();
        core::mem::swap(&mut taken, &mut self.events);
        taken
    }

    /// Peek at all events without removing them, oldest first
    pub fn peek(&self) -> (r: &[E])
        ensures
            r@ == self.contents(),
    {
        self.events.as_slice()
    }

    /// Get the current number of events in the buffer
    pub fn len(&self) -> (r: usize)
        ensures
            r == self.contents().len(),
            self.wf() ==> r <= self.spec_capacity(),
    {
        self.events.len()
    }

    /// Check if the buffer is empty
    pub fn is_empty(&self) -> (r: bool)
        ensures
            r == (self.contents().len() == 0),
    {
        self.events.len() == 0
    }

    /// Get the maximum capacity of the buffer
    pub fn capacity(&self) -> (r: usize)
        ensures
            r == self.spec_capacity(),
    {
        self.capacity
    }

    /// Check if the buffer is full
    pub fn is_full(&self) -> (r: bool)
        ensures
            r == (self.contents().len() >= self.spec_capacity()),
    {
        self.events.len() >= self.capacity
    }

    /// Clear all events from the buffer
    pub fn clear(&mut self)
        ensures
            final(self).wf(),
            final(self).contents() == Seq::<E>::empty(),
            final(self).spec_capacity() == old(self).spec_capacity(),
    {
        self.events.clear();
    }

    /// Get the number of events that would be dropped if pushed now
    ///
    /// Returns 0 if not full, else 1 (the oldest event).
    pub fn lost_count(&self) -> (r: usize)
        ensures
            r == (if self.contents().len() < self.spec_capacity() {
                0usize
            } else {
                1usize
            }),
    {
        if self.events.len() < self.capacity {
            0
        } else {
            1
        }
    }
}

/// The buffer keeps the newest events in push order: after a push it holds
/// the newest of the events it held and the pushed one, as many as fit,
/// ending with the pushed one when there is any room at all.
pub proof fn lemma_push_keeps_newest<E>(events: Seq<E>, e: E, cap: usize)
    requires
        events.len() <= cap,
    ensures
        events_after_push(events, e, cap).len() <= cap,
        cap > 0 ==> events_after_push(events, e, cap).last() == e,
        events_after_push(events, e, cap) == events.push(e).subrange(
            events.push(e).len() - events_after_push(events, e, cap).len(),
            events.push(e).len() as int,
        ),
        events_after_push(events, e, cap).len() == if events.len() < cap {
            events.len() + 1int
        } else {
            cap as int
        },
{
    let s = events.push(e);
    if events.len() < cap {
        assert(s.subrange(0, s.len() as int) =~= s);
    } else if cap > 0 {
        assert(events.drop_first().push(e) =~= s.subrange(1, s.len() as int));
    } else {
        assert(s.subrange(s.len() as int, s.len() as int) =~= events);
    }
}

} // verus!

use archflow_logic::events::{EventRingBuffer, LogicEventType};

/// A logic event as the buffer's tests need it: its type and its entity.
#[derive(Clone, Debug, PartialEq)]
struct LogicEvent {
    event_type: LogicEventType,
    entity_id: u32,
}

impl LogicEvent {
    fn new(event_type: LogicEventType, entity_id: u32) -> Self {
        LogicEvent { event_type, entity_id }
    }
}

#[test]
fn test_new_buffer_is_empty() {
    let buffer: EventRingBuffer<LogicEvent> = EventRingBuffer::new(256);
    assert!(buffer.is_empty());
    assert_eq!(buffer.len(), 0);
    assert_eq!(buffer.capacity(), 256);
}

#[test]
fn test_push_single_event() {
    let mut buffer = EventRingBuffer::new(256);
    let event = LogicEvent::new(LogicEventType::EntitySelected, 42);

    assert!(buffer.push(event));
    assert_eq!(buffer.len(), 1);
    assert!(!buffer.is_empty());
}

#[test]
fn test_push_multiple_events() {
    let mut buffer = EventRingBuffer::new(4);

    assert!(buffer.push(LogicEvent::new(LogicEventType::EntitySelected, 1)));
    assert!(buffer.push(LogicEvent::new(LogicEventType::EntitySelected, 2)));
    assert!(buffer.push(LogicEvent::new(LogicEventType::EntitySelected, 3)));
    assert!(buffer.push(LogicEvent::new(LogicEventType::EntitySelected, 4)));

    assert!(!buffer.push(LogicEvent::new(LogicEventType::EntitySelected, 5)));
    assert_eq!(buffer.len(), 4);
}

#[test]
fn test_drain_returns_all_events() {
    let mut buffer = EventRingBuffer::new(256);
    buffer.push(LogicEvent::new(LogicEventType::EntitySelected, 1));
    buffer.push(LogicEvent::new(LogicEventType::EntitySelected, 2));

    let events = buffer.drain();

    assert_eq!(events.len(), 2);
    assert_eq!(events[0].entity_id, 1);
    assert_eq!(events[1].entity_id, 2);
    assert!(buffer.is_empty());
}

#[test]
fn test_drain_empty_buffer() {
    let mut buffer: EventRingBuffer<LogicEvent> = EventRingBuffer::new(256);
    let events = buffer.drain();

    assert!(events.is_empty());
}

#[test]
fn test_clear_buffer() {
    let mut buffer = EventRingBuffer::new(256);
    buffer.push(LogicEvent::new(LogicEventType::EntitySelected, 1));
    buffer.push(LogicEvent::new(LogicEventType::EntitySelected, 2));

    buffer.clear();

    assert!(buffer.is_empty());
    assert_eq!(buffer.len(), 0);
}

#[test]
fn test_is_full() {
    let mut buffer = EventRingBuffer::new(2);

    assert!(!buffer.is_full());
    buffer.push(LogicEvent::new(LogicEventType::EntitySelected, 1));
    assert!(!buffer.is_full());
    buffer.push(LogicEvent::new(LogicEventType::EntitySelected, 2));
    assert!(buffer.is_full());
}

#[test]
fn test_overflow_behavior() {
    let mut buffer = EventRingBuffer::new(2);
    buffer.push(LogicEvent::new(LogicEventType::EntitySelected, 1));
    buffer.push(LogicEvent::new(LogicEventType::EntitySelected, 2));
    buffer.push(LogicEvent::new(LogicEventType::EntitySelected, 3));

    // Oldest event should be overwritten
    assert_eq!(buffer.len(), 2);
    let events = buffer.drain();
    assert_eq!(events[0].entity_id, 2);
    assert_eq!(events[1].entity_id, 3);
}

#[test]
fn test_event_types() {
    let mut buffer = EventRingBuffer::new(10);

    assert!(buffer.push(LogicEvent::new(LogicEventType::EntitySelected, 1)));
    assert!(buffer.push(LogicEvent::new(LogicEventType::ProximityAlert, 2)));
    assert!(buffer.push(LogicEvent::new(LogicEventType::DragStarted, 3)));
    assert!(buffer.push(LogicEvent::new(LogicEventType::DragEnded, 3)));
    assert!(buffer.push(LogicEvent::new(LogicEventType::BoxSelectionCompleted, 0)));
    assert!(buffer.push(LogicEvent::new(LogicEventType::HoverChanged, 6)));
    assert!(buffer.push(LogicEvent::new(LogicEventType::HoverChanged, 0)));
    assert!(buffer.push(LogicEvent::new(LogicEventType::EntityDestroyed, 7)));

    let events = buffer.drain();
    assert_eq!(events.len(), 8);

    assert_eq!(events[0].event_type, LogicEventType::EntitySelected);
    assert_eq!(events[1].event_type, LogicEventType::ProximityAlert);
    assert_eq!(events[2].event_type, LogicEventType::DragStarted);
    assert_eq!(events[3].event_type, LogicEventType::DragEnded);
    assert_eq!(events[4].event_type, LogicEventType::BoxSelectionCompleted);
    assert_eq!(events[5].event_type, LogicEventType::HoverChanged);
    assert_eq!(events[6].event_type, LogicEventType::HoverChanged);
    assert_eq!(events[7].event_type, LogicEventType::EntityDestroyed);
}

#[test]
fn test_peek_returns_all_events() {
    let mut buffer = EventRingBuffer::new(256);
    buffer.push(LogicEvent::new(LogicEventType::EntitySelected, 1));
    buffer.push(LogicEvent::new(LogicEventType::EntitySelected, 2));

    let peeked = buffer.peek();
    assert_eq!(peeked.len(), 2);

    // Peek should not modify buffer
    let peeked_again = buffer.peek();
    assert_eq!(peeked_again.len(), 2);
}

#[test]
fn zero_capacity_buffer_keeps_nothing() {
    let mut buffer = EventRingBuffer::new(0);
    assert!(buffer.is_full());
    assert_eq!(buffer.lost_count(), 1);
    assert!(!buffer.push(LogicEvent::new(LogicEventType::EntitySelected, 1)));
    assert_eq!(buffer.len(), 0);
}

#[test]
fn lost_count_reports_a_full_buffer() {
    let mut buffer = EventRingBuffer::new(3);
    assert_eq!(buffer.lost_count(), 0);
    for i in 0..5u32 {
        buffer.push(LogicEvent::new(LogicEventType::HoverChanged, i));
    }
    assert_eq!(buffer.lost_count(), 1);
    let ids: Vec<u32> = buffer.peek().iter().map(|e| e.entity_id).collect();
    assert_eq!(ids, vec![2, 3, 4]);
}

#[test]
fn event_type_codes() {
    assert_eq!(LogicEventType::EntitySelected.code(), 0);
    assert_eq!(LogicEventType::HoverChanged.code(), 6);
    assert_eq!(LogicEventType::_Max.code(), 255);
}

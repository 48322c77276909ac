use uefi_dxe::event::{
    EventDb, EventNotification, EventType, TimerDelay, EVT_NOTIFY_SIGNAL, EVT_NOTIFY_WAIT,
    EVT_SIGNAL_EXIT_BOOT_SERVICES, EVT_TIMER, TPL_APPLICATION, TPL_CALLBACK, TPL_HIGH_LEVEL, TPL_NOTIFY,
};
use uefi_dxe::protocol_db::{EfiError, Guid};

/// Stands for the address of a notification function.
const TEST_NOTIFY_FUNCTION: usize = 0x4000_1000;

/// Takes every notification above `tpl`, as the notification iterator hands them out.
fn drain_notifications(db: &mut EventDb, tpl: usize) -> Vec<EventNotification> {
    let mut out = Vec::new();
    while let Some(n) = db.consume_next_event_notify(tpl) {
        out.push(n);
    }
    out
}

fn guid_of(text: &str) -> Guid {
    Guid(u128::from_str_radix(&text.replace('-', ""), 16).unwrap())
}

#[test]
fn new_should_create_event_db_local() {
    let db = EventDb::new();
    assert_eq!(db.events.len(), 0);
}

#[test]
fn new_should_create_event_db() {
    let db = EventDb::new();
    assert_eq!(db.events.len(), 0);
    assert_eq!(db.next_event_id, 1);
}

#[test]
fn create_event_should_create_event() {
    let mut db = EventDb::new();
    let result = db.create_event(EVT_TIMER | EVT_NOTIFY_SIGNAL, TPL_NOTIFY, Some(TEST_NOTIFY_FUNCTION), None, None);
    assert!(result.is_ok());
    let event = result.unwrap();
    let index = event;
    assert!(index < db.next_event_id);
    let events = &db.events;
    assert_eq!(events.get(&index).unwrap().event_type, EventType::TimerNotifyEvent);
    assert_eq!(events.get(&index).unwrap().event_type.value(), EVT_TIMER | EVT_NOTIFY_SIGNAL);
    assert_eq!(events.get(&index).unwrap().notify_tpl, TPL_NOTIFY);
    assert_eq!(events.get(&index).unwrap().notify_function.unwrap(), TEST_NOTIFY_FUNCTION);
    assert_eq!(events.get(&index).unwrap().notify_context, None);
    assert_eq!(events.get(&index).unwrap().event_group, None);
}

#[test]
fn create_event_with_bad_input_should_not_create_event() {
    let mut db = EventDb::new();

    let result = db.create_event(EVT_SIGNAL_EXIT_BOOT_SERVICES, TPL_NOTIFY, None, None, None);
    assert_eq!(result, Err(EfiError::InvalidParameter));

    let result = db.create_event(EVT_TIMER | EVT_NOTIFY_SIGNAL, TPL_NOTIFY, None, None, None);
    assert_eq!(result, Err(EfiError::InvalidParameter));

    let result =
        db.create_event(EVT_TIMER | EVT_NOTIFY_SIGNAL, TPL_HIGH_LEVEL + 1, Some(TEST_NOTIFY_FUNCTION), None, None);
    assert_eq!(result, Err(EfiError::InvalidParameter));
}

#[test]
fn close_event_should_delete_event() {
    let mut db = EventDb::new();
    let mut events: Vec<usize> = Vec::new();
    for _ in 0..10 {
        events.push(
            db.create_event(EVT_TIMER | EVT_NOTIFY_SIGNAL, TPL_NOTIFY, Some(TEST_NOTIFY_FUNCTION), None, None).unwrap(),
        );
    }
    for consumed in 1..11 {
        let event = events.pop().unwrap();
        assert!(db.is_valid(event));
        let result = db.close_event(event);
        assert!(result.is_ok());
        assert_eq!(db.events.len(), 10 - consumed);
        assert!(!db.is_valid(event));
    }
}

#[test]
fn signal_event_should_put_events_in_signalled_state() {
    let mut db = EventDb::new();
    let mut events: Vec<usize> = Vec::new();
    for _ in 0..10 {
        events.push(
            db.create_event(EVT_TIMER | EVT_NOTIFY_SIGNAL, TPL_NOTIFY, Some(TEST_NOTIFY_FUNCTION), None, None).unwrap(),
        );
    }

    for event in events {
        let result = db.signal_event(event);
        assert!(result.is_ok());
        assert!(db.is_signalled(event));
    }
}

#[test]
fn signal_event_on_an_event_group_should_put_all_members_in_signalled_state() {
    let group1 = guid_of("aefcf33c-ce02-47b4-89f6-4bacdeda3377");
    let group2 = guid_of("3a08a8c7-054b-4268-8aed-bc6a3aef999f");
    let group3 = guid_of("745e8316-4889-4f58-be3c-6b718b7170ec");

    let mut db = EventDb::new();
    let mut group1_events: Vec<usize> = Vec::new();
    let mut group2_events: Vec<usize> = Vec::new();
    let mut group3_events: Vec<usize> = Vec::new();
    let mut ungrouped_events: Vec<usize> = Vec::new();

    for _ in 0..10 {
        group1_events.push(
            db.create_event(EVT_TIMER | EVT_NOTIFY_SIGNAL, TPL_NOTIFY, Some(TEST_NOTIFY_FUNCTION), None, Some(group1))
                .unwrap(),
        );
    }
    for _ in 0..10 {
        group2_events.push(
            db.create_event(EVT_TIMER | EVT_NOTIFY_SIGNAL, TPL_NOTIFY, Some(TEST_NOTIFY_FUNCTION), None, Some(group2))
                .unwrap(),
        );
    }
    for _ in 0..10 {
        group3_events.push(
            db.create_event(EVT_TIMER | EVT_NOTIFY_SIGNAL, TPL_NOTIFY, Some(TEST_NOTIFY_FUNCTION), None, Some(group3))
                .unwrap(),
        );
    }
    for _ in 0..10 {
        ungrouped_events.push(
            db.create_event(EVT_TIMER | EVT_NOTIFY_SIGNAL, TPL_NOTIFY, Some(TEST_NOTIFY_FUNCTION), None, None).unwrap(),
        );
    }

    db.signal_event(ungrouped_events.pop().unwrap()).unwrap();

    for event in group1_events.clone() {
        assert!(!db.is_signalled(event));
    }
    for event in group2_events.clone() {
        assert!(!db.is_signalled(event));
    }
    for event in ungrouped_events.clone() {
        assert!(!db.is_signalled(event));
    }

    db.signal_event(group1_events[0]).unwrap();

    for event in group1_events.clone() {
        assert!(db.is_signalled(event));
    }
    for event in group2_events.clone() {
        assert!(!db.is_signalled(event));
    }
    for event in ungrouped_events.clone() {
        assert!(!db.is_signalled(event));
    }

    db.signal_event(group2_events[0]).unwrap();

    for event in group1_events.clone() {
        assert!(db.is_signalled(event));
    }
    for event in group2_events.clone() {
        assert!(db.is_signalled(event));
    }
    for event in group3_events.clone() {
        assert!(!db.is_signalled(event));
    }

    db.signal_group(group3);
    for event in group1_events.clone() {
        assert!(db.is_signalled(event));
    }
    for event in group2_events.clone() {
        assert!(db.is_signalled(event));
    }
    for event in group3_events.clone() {
        assert!(db.is_signalled(event));
    }
    for event in ungrouped_events.clone() {
        assert!(!db.is_signalled(event));
    }
}

#[test]
fn clear_signal_should_clear_signalled_state() {
    let mut db = EventDb::new();
    let event = db.create_event(EVT_TIMER | EVT_NOTIFY_SIGNAL, TPL_NOTIFY, Some(TEST_NOTIFY_FUNCTION), None, None).unwrap();
    db.signal_event(event).unwrap();
    assert!(db.is_signalled(event));
    let result = db.clear_signal(event);
    assert!(result.is_ok());
    assert!(!db.is_signalled(event));
}

#[test]
fn is_signalled_should_return_false_for_closed_or_non_existent_event() {
    let mut db = EventDb::new();
    let event = db.create_event(EVT_TIMER | EVT_NOTIFY_SIGNAL, TPL_NOTIFY, Some(TEST_NOTIFY_FUNCTION), None, None).unwrap();
    db.signal_event(event).unwrap();
    assert!(db.is_signalled(event));
    db.close_event(event).unwrap();
    assert!(!db.is_signalled(event));
    assert!(!db.is_signalled(0x1234));
}

#[test]
fn signalled_events_with_notifies_should_be_put_in_pending_queue_in_tpl_order() {
    let mut db = EventDb::new();
    let f = Some(TEST_NOTIFY_FUNCTION);
    let callback_evt1 = db.create_event(EVT_TIMER | EVT_NOTIFY_SIGNAL, TPL_CALLBACK, f, None, None).unwrap();
    let callback_evt2 = db.create_event(EVT_TIMER | EVT_NOTIFY_SIGNAL, TPL_CALLBACK, f, None, None).unwrap();
    let notify_evt1 = db.create_event(EVT_TIMER | EVT_NOTIFY_SIGNAL, TPL_NOTIFY, f, None, None).unwrap();
    let notify_evt2 = db.create_event(EVT_TIMER | EVT_NOTIFY_SIGNAL, TPL_NOTIFY, f, None, None).unwrap();
    let high_evt1 = db.create_event(EVT_TIMER | EVT_NOTIFY_SIGNAL, TPL_HIGH_LEVEL, f, None, None).unwrap();
    let high_evt2 = db.create_event(EVT_TIMER | EVT_NOTIFY_SIGNAL, TPL_HIGH_LEVEL, f, None, None).unwrap();
    db.signal_event(callback_evt1).unwrap();
    db.signal_event(notify_evt1).unwrap();
    db.signal_event(high_evt1).unwrap();

    db.signal_event(callback_evt2).unwrap();
    db.signal_event(notify_evt2).unwrap();
    db.signal_event(high_evt2).unwrap();

    let queue = &mut db.pending_notifies;
    assert_eq!(queue.remove(0).notification.event, high_evt1);
    assert_eq!(queue.remove(0).notification.event, high_evt2);
    assert_eq!(queue.remove(0).notification.event, notify_evt1);
    assert_eq!(queue.remove(0).notification.event, notify_evt2);
    assert_eq!(queue.remove(0).notification.event, callback_evt1);
    assert_eq!(queue.remove(0).notification.event, callback_evt2);
}

#[test]
fn signalled_event_iterator_should_return_next_events_in_tpl_order() {
    let mut db = EventDb::new();
    let f = Some(TEST_NOTIFY_FUNCTION);

    assert_eq!(drain_notifications(&mut db, TPL_APPLICATION).len(), 0);

    let callback_evt1 = db.create_event(EVT_TIMER | EVT_NOTIFY_SIGNAL, TPL_CALLBACK, f, None, None).unwrap();
    let callback_evt2 = db.create_event(EVT_TIMER | EVT_NOTIFY_SIGNAL, TPL_CALLBACK, f, None, None).unwrap();
    let notify_evt1 = db.create_event(EVT_TIMER | EVT_NOTIFY_SIGNAL, TPL_NOTIFY, f, None, None).unwrap();
    let notify_evt2 = db.create_event(EVT_TIMER | EVT_NOTIFY_SIGNAL, TPL_NOTIFY, f, None, None).unwrap();
    let high_evt1 = db.create_event(EVT_TIMER | EVT_NOTIFY_SIGNAL, TPL_HIGH_LEVEL, f, None, None).unwrap();
    let high_evt2 = db.create_event(EVT_TIMER | EVT_NOTIFY_SIGNAL, TPL_HIGH_LEVEL, f, None, None).unwrap();
    db.signal_event(callback_evt1).unwrap();
    db.signal_event(notify_evt1).unwrap();
    db.signal_event(high_evt1).unwrap();

    db.signal_event(callback_evt2).unwrap();
    db.signal_event(notify_evt2).unwrap();
    db.signal_event(high_evt2).unwrap();

    for expected_event in vec![high_evt1, high_evt2] {
        let event_notification = db.consume_next_event_notify(TPL_NOTIFY).unwrap();
        assert_eq!(event_notification.event, expected_event);
        assert!(db.is_signalled(expected_event) == false);
    }
    assert!(db.consume_next_event_notify(TPL_NOTIFY).is_none());

    db.signal_event(high_evt1).unwrap();
    db.signal_event(high_evt2).unwrap();

    for expected_event in vec![high_evt1, high_evt2, notify_evt1, notify_evt2] {
        let event_notification = db.consume_next_event_notify(TPL_CALLBACK).unwrap();
        assert_eq!(event_notification.event, expected_event);
        assert!(db.is_signalled(expected_event) == false);
    }
    assert!(db.consume_next_event_notify(TPL_CALLBACK).is_none());

    db.signal_event(high_evt1).unwrap();
    db.signal_event(high_evt2).unwrap();
    db.signal_event(notify_evt1).unwrap();
    db.signal_event(notify_evt2).unwrap();

    for expected_event in vec![high_evt1, high_evt2, notify_evt1, notify_evt2, callback_evt1, callback_evt2] {
        let event_notification = db.consume_next_event_notify(TPL_APPLICATION).unwrap();
        assert_eq!(event_notification.event, expected_event);
        assert!(db.is_signalled(expected_event) == false);
    }

    db.signal_event(high_evt1).unwrap();
    db.signal_event(high_evt2).unwrap();
    db.signal_event(notify_evt1).unwrap();
    db.signal_event(notify_evt2).unwrap();
    db.signal_event(callback_evt1).unwrap();
    db.signal_event(callback_evt2).unwrap();

    db.close_event(high_evt1).unwrap();
    db.close_event(notify_evt1).unwrap();
    db.close_event(callback_evt1).unwrap();

    for expected_event in vec![high_evt2, notify_evt2, callback_evt2] {
        let event_notification = db.consume_next_event_notify(TPL_APPLICATION).unwrap();
        assert_eq!(event_notification.event, expected_event);
        assert!(db.is_signalled(expected_event) == false);
    }
    assert!(db.consume_next_event_notify(TPL_APPLICATION).is_none());
}

#[test]
fn signalling_an_event_more_than_once_should_not_queue_it_more_than_once() {
    let mut db = EventDb::new();

    let callback_evt1 =
        db.create_event(EVT_TIMER | EVT_NOTIFY_SIGNAL, TPL_CALLBACK, Some(TEST_NOTIFY_FUNCTION), None, None).unwrap();

    for _ in 0..5 {
        db.signal_event(callback_evt1).unwrap();
    }

    assert_eq!(db.pending_notifies.len(), 1);
    assert_eq!(drain_notifications(&mut db, TPL_APPLICATION).len(), 1);
}

#[test]
fn read_and_clear_signalled_should_clear_signal() {
    let mut db = EventDb::new();

    let callback_evt1 =
        db.create_event(EVT_TIMER | EVT_NOTIFY_SIGNAL, TPL_CALLBACK, Some(TEST_NOTIFY_FUNCTION), None, None).unwrap();

    db.signal_event(callback_evt1).unwrap();

    assert_eq!(db.pending_notifies.len(), 1);

    let result = db.read_and_clear_signalled(callback_evt1);
    assert!(result.is_ok());
    assert_eq!(result.unwrap(), true);
    let result = db.read_and_clear_signalled(callback_evt1);
    assert!(result.is_ok());
    assert_eq!(result.unwrap(), false);
}

#[test]
fn signalling_a_notify_wait_event_should_not_queue_it() {
    let mut db = EventDb::new();

    let callback_evt1 = db.create_event(EVT_NOTIFY_WAIT, TPL_CALLBACK, Some(TEST_NOTIFY_FUNCTION), None, None).unwrap();

    db.signal_event(callback_evt1).unwrap();

    assert_eq!(drain_notifications(&mut db, TPL_APPLICATION).len(), 0);
}

#[test]
fn queue_event_notify_should_queue_event_notify() {
    let mut db = EventDb::new();

    let callback_evt1 =
        db.create_event(EVT_TIMER | EVT_NOTIFY_SIGNAL, TPL_CALLBACK, Some(TEST_NOTIFY_FUNCTION), None, None).unwrap();

    for _ in 0..5 {
        db.queue_event_notify(callback_evt1).unwrap();
    }

    assert_eq!(drain_notifications(&mut db, TPL_APPLICATION).len(), 1);
}

#[test]
fn queue_event_notify_should_work_for_both_notify_wait_and_notify_signal() {
    let mut db = EventDb::new();

    let callback_evt1 = db.create_event(EVT_NOTIFY_SIGNAL, TPL_CALLBACK, Some(TEST_NOTIFY_FUNCTION), None, None).unwrap();
    let callback_evt2 = db.create_event(EVT_NOTIFY_WAIT, TPL_CALLBACK, Some(TEST_NOTIFY_FUNCTION), None, None).unwrap();

    db.queue_event_notify(callback_evt1).unwrap();
    db.queue_event_notify(callback_evt2).unwrap();

    assert_eq!(drain_notifications(&mut db, TPL_APPLICATION).len(), 2);
}

#[test]
fn get_event_type_should_return_event_type() {
    let mut db = EventDb::new();
    let event = db.create_event(EVT_TIMER | EVT_NOTIFY_SIGNAL, TPL_NOTIFY, Some(TEST_NOTIFY_FUNCTION), None, None).unwrap();

    let result = db.get_event_type(event);
    assert_eq!(result.unwrap(), EventType::TimerNotifyEvent);

    let event = event + 1;
    let result = db.get_event_type(event);
    assert_eq!(result, Err(EfiError::InvalidParameter));
}

#[test]
fn get_notification_data_should_return_notification_data() {
    let mut db = EventDb::new();
    let test_context: usize = 0x1234;
    let event = db
        .create_event(EVT_TIMER | EVT_NOTIFY_SIGNAL, TPL_NOTIFY, Some(TEST_NOTIFY_FUNCTION), Some(test_context), None)
        .unwrap();

    let notification_data = db.get_notification_data(event);
    assert!(notification_data.is_ok());
    let event_notification = notification_data.unwrap();
    assert_eq!(event_notification.notify_tpl, TPL_NOTIFY);
    assert_eq!(event_notification.notify_function, TEST_NOTIFY_FUNCTION);
    assert_eq!(event_notification.notify_context.unwrap(), test_context);

    let event = db.create_event(EVT_TIMER | EVT_NOTIFY_SIGNAL, TPL_NOTIFY, Some(TEST_NOTIFY_FUNCTION), None, None).unwrap();

    let notification_data = db.get_notification_data(event);
    assert!(notification_data.is_ok());
    let event_notification = notification_data.unwrap();
    assert_eq!(event_notification.notify_tpl, TPL_NOTIFY);
    assert_eq!(event_notification.notify_function, TEST_NOTIFY_FUNCTION);
    assert!(event_notification.notify_context.is_none());

    let event = db.create_event(EVT_TIMER, TPL_NOTIFY, None, None, None).unwrap();
    let notification_data = db.get_notification_data(event);
    assert_eq!(notification_data.err(), Some(EfiError::NotFound));

    let notification_data = db.get_notification_data(0x1234);
    assert_eq!(notification_data.err(), Some(EfiError::NotFound));
}

#[test]
fn set_timer_on_event_should_set_timer_on_event() {
    let mut db = EventDb::new();
    let event = db.create_event(EVT_TIMER, TPL_NOTIFY, Some(TEST_NOTIFY_FUNCTION), None, None).unwrap();

    let index = event;

    let result = db.set_timer(event, TimerDelay::TimerRelative, Some(0x100), None);
    assert!(result.is_ok());
    assert_eq!(db.events.get(&index).unwrap().trigger_time, Some(0x100));
    assert_eq!(db.events.get(&index).unwrap().period, None);

    let result = db.set_timer(event, TimerDelay::TimerPeriodic, Some(0x100), Some(0x200));
    assert!(result.is_ok());
    assert_eq!(db.events.get(&index).unwrap().trigger_time, Some(0x100));
    assert_eq!(db.events.get(&index).unwrap().period, Some(0x200));

    let result = db.set_timer(event, TimerDelay::TimerCancel, None, None);
    assert!(result.is_ok());
    assert_eq!(db.events.get(&index).unwrap().trigger_time, None);
    assert_eq!(db.events.get(&index).unwrap().period, None);

    let event = db.create_event(EVT_NOTIFY_SIGNAL, TPL_NOTIFY, Some(TEST_NOTIFY_FUNCTION), None, None).unwrap();

    let result = db.set_timer(event, TimerDelay::TimerPeriodic, Some(0x100), Some(0x200));
    assert_eq!(result.err(), Some(EfiError::InvalidParameter));

    let event = db.create_event(EVT_TIMER, TPL_NOTIFY, Some(TEST_NOTIFY_FUNCTION), None, None).unwrap();
    let result = db.set_timer(event, TimerDelay::TimerCancel, Some(0x100), None);
    assert_eq!(result.err(), Some(EfiError::InvalidParameter));

    let event = db.create_event(EVT_TIMER, TPL_NOTIFY, Some(TEST_NOTIFY_FUNCTION), None, None).unwrap();
    let result = db.set_timer(event, TimerDelay::TimerPeriodic, None, None);
    assert_eq!(result.err(), Some(EfiError::InvalidParameter));

    let event = db.create_event(EVT_TIMER, TPL_NOTIFY, Some(TEST_NOTIFY_FUNCTION), None, None).unwrap();
    let result = db.set_timer(event, TimerDelay::TimerRelative, None, Some(0x100));
    assert_eq!(result.err(), Some(EfiError::InvalidParameter));

    let result = db.set_timer(event, TimerDelay::TimerRelative, None, Some(0x100));
    assert_eq!(result.err(), Some(EfiError::InvalidParameter));

    let result = db.set_timer(0x1234, TimerDelay::TimerRelative, Some(0x100), None);
    assert_eq!(result.err(), Some(EfiError::InvalidParameter));
}

#[test]
fn timer_tick_should_signal_expired_timers() {
    let mut db = EventDb::new();
    let f = Some(TEST_NOTIFY_FUNCTION);
    let event = db.create_event(EVT_TIMER | EVT_NOTIFY_SIGNAL, TPL_NOTIFY, f, None, None).unwrap();
    let event2 = db.create_event(EVT_TIMER | EVT_NOTIFY_SIGNAL, TPL_NOTIFY, f, None, None).unwrap();

    db.set_timer(event, TimerDelay::TimerRelative, Some(0x100), None).unwrap();
    db.set_timer(event2, TimerDelay::TimerRelative, Some(0x400), None).unwrap();
    assert_eq!(drain_notifications(&mut db, TPL_APPLICATION).len(), 0);

    db.timer_tick(0x200);

    let events = drain_notifications(&mut db, TPL_APPLICATION);
    assert_eq!(events.len(), 1);
    assert_eq!(events[0].event, event);

    db.timer_tick(0x300);

    let events = drain_notifications(&mut db, TPL_APPLICATION);
    assert_eq!(events.len(), 0);

    db.timer_tick(0x400);

    let events = drain_notifications(&mut db, TPL_APPLICATION);
    assert_eq!(events.len(), 1);
    assert_eq!(events[0].event, event2);
}

#[test]
fn periodic_timers_should_rearm_after_tick() {
    let mut db = EventDb::new();
    let f = Some(TEST_NOTIFY_FUNCTION);
    let event = db.create_event(EVT_TIMER | EVT_NOTIFY_SIGNAL, TPL_NOTIFY, f, None, None).unwrap();
    let event2 = db.create_event(EVT_TIMER | EVT_NOTIFY_SIGNAL, TPL_NOTIFY, f, None, None).unwrap();

    db.set_timer(event, TimerDelay::TimerPeriodic, Some(0x100), Some(0x100)).unwrap();
    db.set_timer(event2, TimerDelay::TimerPeriodic, Some(0x500), Some(0x500)).unwrap();

    assert_eq!(drain_notifications(&mut db, TPL_APPLICATION).len(), 0);

    db.timer_tick(0x100);
    let events = drain_notifications(&mut db, TPL_APPLICATION);
    assert_eq!(events.len(), 1);
    assert_eq!(events[0].event, event);

    db.timer_tick(0x1FF);
    let events = drain_notifications(&mut db, TPL_APPLICATION);
    assert_eq!(events.len(), 0);

    db.timer_tick(0x210);
    let events = drain_notifications(&mut db, TPL_APPLICATION);
    assert_eq!(events.len(), 1);
    assert_eq!(events[0].event, event);

    db.timer_tick(0x500);
    let events = drain_notifications(&mut db, TPL_APPLICATION);
    assert_eq!(events.len(), 2);
    assert_eq!(events[0].event, event);
    assert_eq!(events[1].event, event2);

    db.timer_tick(0x600);
    let events = drain_notifications(&mut db, TPL_APPLICATION);
    assert_eq!(events.len(), 1);
    assert_eq!(events[0].event, event);

    db.set_timer(event, TimerDelay::TimerCancel, None, None).unwrap();

    db.timer_tick(0x700);
    let events = drain_notifications(&mut db, TPL_APPLICATION);
    assert_eq!(events.len(), 0);

    db.close_event(event2).unwrap();

    db.timer_tick(0x1000);
    let events = drain_notifications(&mut db, TPL_APPLICATION);
    assert_eq!(events.len(), 0);
}

#[test]
fn event_type_values_round_trip() {
    for value in [0x80000200u32, 0x80000000, 0x100, 0x200, 0, 0x80000100] {
        assert_eq!(EventType::try_from_u32(value).unwrap().value(), value);
    }
    assert_eq!(EventType::try_from_u32(0x201), Err(EfiError::InvalidParameter));
    assert_eq!(EventType::try_from_u32(0x60000202), Err(EfiError::InvalidParameter));
    assert_eq!(EventType::try_from_u32(0x7), Err(EfiError::InvalidParameter));
    assert!(EventType::TimerNotifyWaitEvent.is_timer());
    assert!(EventType::TimerNotifyWaitEvent.is_notify_wait());
    assert!(!EventType::TimerNotifyWaitEvent.is_notify_signal());
    assert!(EventType::ExitBootServicesEvent.is_notify_signal());
    assert_eq!(TimerDelay::try_from_u32(1), Ok(TimerDelay::TimerPeriodic));
    assert_eq!(TimerDelay::try_from_u32(3), Err(EfiError::InvalidParameter));
}

#[test]
fn handles_are_never_reused() {
    let mut db = EventDb::new();
    let a = db.create_event(0, TPL_NOTIFY, None, None, None).unwrap();
    assert_eq!(db.create_event(0x7, TPL_NOTIFY, None, None, None), Err(EfiError::InvalidParameter));
    db.close_event(a).unwrap();
    let b = db.create_event(0, TPL_NOTIFY, None, None, None).unwrap();
    assert_eq!(a, 1);
    assert_eq!(b, 3);
    assert_eq!(db.close_event(a), Err(EfiError::InvalidParameter));
}

#[test]
fn notifications_below_the_level_stay_queued() {
    let mut db = EventDb::new();
    let e = db.create_event(EVT_NOTIFY_SIGNAL, TPL_CALLBACK, Some(TEST_NOTIFY_FUNCTION), Some(7), None).unwrap();
    db.signal_event(e).unwrap();
    assert!(db.consume_next_event_notify(TPL_CALLBACK).is_none());
    assert!(db.is_signalled(e));
    let n = db.consume_next_event_notify(TPL_APPLICATION).unwrap();
    assert_eq!(n, EventNotification { event: e, notify_tpl: TPL_CALLBACK, notify_function: TEST_NOTIFY_FUNCTION, notify_context: Some(7) });
    assert!(!db.is_signalled(e));
}

use pixelstrom::message::Payload;
use pixelstrom::scheduler::UserScheduler;
use pixelstrom::session::SlotEvent;

/// Runs one tick in which mailbox `dead` (if any) refuses its events,
/// recording each delivered event; returns the announced painter.
fn tick(s: &mut UserScheduler<usize>, log: &mut Vec<(usize, SlotEvent)>, dead: Option<usize>) -> Option<String> {
    if let Some(u) = s.slot_holder() {
        let m = u.mailbox;
        let ok = Some(m) != dead;
        if ok {
            log.push((m, SlotEvent::SlotEnd));
        }
        s.slot_end_result(ok);
    }
    while let Some(u) = s.next_painter() {
        let m = u.mailbox;
        let ok = Some(m) != dead;
        if ok {
            log.push((m, SlotEvent::SlotStart));
        }
        if let Some(event) = s.slot_start_result(ok) {
            return match event.payload {
                Some(Payload::CurrentlyPaintingUser(c)) => Some(c.currently_painting),
                _ => panic!("expected CurrentlyPaintingUser"),
            };
        }
    }
    None
}

#[test]
fn fair_rotation_over_six_ticks() {
    let mut s: UserScheduler<usize> = UserScheduler::new(500);
    let mut log = Vec::new();
    for (i, name) in ["u1", "u2", "u3"].iter().enumerate() {
        assert!(s.register_user(name.to_string(), i).is_some());
    }
    let seen: Vec<Option<String>> = (0..6).map(|_| tick(&mut s, &mut log, None)).collect();
    let expected: Vec<Option<String>> = ["u1", "u2", "u3", "u1", "u2", "u3"].iter().map(|n| Some(n.to_string())).collect();
    assert_eq!(seen, expected);
}

#[test]
fn slot_events_alternate_per_mailbox() {
    let mut s: UserScheduler<usize> = UserScheduler::new(500);
    let mut log = Vec::new();
    s.register_user("a".to_string(), 0);
    tick(&mut s, &mut log, None);
    s.register_user("b".to_string(), 1);
    tick(&mut s, &mut log, None);
    s.register_user("c".to_string(), 2);
    for _ in 0..7 {
        tick(&mut s, &mut log, None);
    }
    for m in 0..3 {
        let events: Vec<SlotEvent> = log.iter().filter(|(k, _)| *k == m).map(|(_, e)| *e).collect();
        assert!(!events.is_empty());
        for (i, e) in events.iter().enumerate() {
            let want = if i % 2 == 0 { SlotEvent::SlotStart } else { SlotEvent::SlotEnd };
            assert_eq!(*e, want, "mailbox {} event {}", m, i);
        }
    }
}

#[test]
fn a_new_painter_starts_within_queue_length_ticks() {
    let mut s: UserScheduler<usize> = UserScheduler::new(500);
    let mut log = Vec::new();
    for i in 0..4 {
        s.register_user(format!("p{}", i), i);
    }
    tick(&mut s, &mut log, None);
    s.register_user("late".to_string(), 9);
    let mut waited = 0;
    loop {
        waited += 1;
        if tick(&mut s, &mut log, None) == Some("late".to_string()) {
            break;
        }
        assert!(waited <= 5);
    }
    assert!(waited <= 5);
}

#[test]
fn first_tick_sends_no_slot_end() {
    let mut s: UserScheduler<usize> = UserScheduler::new(500);
    let mut log = Vec::new();
    s.register_user("solo".to_string(), 0);
    assert_eq!(tick(&mut s, &mut log, None), Some("solo".to_string()));
    assert_eq!(log, vec![(0, SlotEvent::SlotStart)]);
    assert_eq!(tick(&mut s, &mut log, None), Some("solo".to_string()));
    assert_eq!(log, vec![(0, SlotEvent::SlotStart), (0, SlotEvent::SlotEnd), (0, SlotEvent::SlotStart)]);
}

#[test]
fn empty_queue_announces_nobody() {
    let mut s: UserScheduler<usize> = UserScheduler::new(500);
    let mut log = Vec::new();
    assert_eq!(tick(&mut s, &mut log, None), None);
    assert!(log.is_empty());
    assert!(s.all_users_as_ordered_list().is_empty());
}

#[test]
fn dead_mailbox_is_dropped_and_next_painter_starts() {
    let mut s: UserScheduler<usize> = UserScheduler::new(500);
    let mut log = Vec::new();
    s.register_user("a".to_string(), 0);
    s.register_user("b".to_string(), 1);
    assert_eq!(tick(&mut s, &mut log, Some(0)), Some("b".to_string()));
    assert_eq!(s.all_users_as_ordered_list(), vec!["b".to_string()]);
    assert_eq!(tick(&mut s, &mut log, None), Some("b".to_string()));
}

#[test]
fn unregister_removes_user_and_ends_its_slot() {
    let mut s: UserScheduler<usize> = UserScheduler::new(500);
    let mut log = Vec::new();
    s.register_user("a".to_string(), 0);
    s.register_user("b".to_string(), 1);
    assert_eq!(tick(&mut s, &mut log, None), Some("a".to_string()));
    s.unregister_user(&"a".to_string());
    assert!(s.slot_holder().is_none());
    assert_eq!(tick(&mut s, &mut log, None), Some("b".to_string()));
    assert_eq!(s.all_users_as_ordered_list(), vec!["b".to_string()]);
}

#[test]
fn ordered_list_starts_with_the_oldest_user() {
    let mut s: UserScheduler<usize> = UserScheduler::new(500);
    let mut log = Vec::new();
    s.register_user("old".to_string(), 0);
    s.register_user("mid".to_string(), 1);
    s.register_user("new".to_string(), 2);
    assert_eq!(s.all_users_as_ordered_list(), vec!["old", "mid", "new"]);
    tick(&mut s, &mut log, None);
    tick(&mut s, &mut log, None);
    assert_eq!(s.all_users_as_ordered_list(), vec!["old", "mid", "new"]);
    assert_eq!(s.slot_duration_ms(), 500);
}

#[test]
fn a_queued_name_cannot_register_twice() {
    let mut s: UserScheduler<usize> = UserScheduler::new(500);
    assert_eq!(s.register_user("dup".to_string(), 0), Some(0));
    assert_eq!(s.register_user("dup".to_string(), 1), None);
    assert_eq!(s.register_user("other".to_string(), 2), Some(1));
    s.unregister_user(&"dup".to_string());
    assert_eq!(s.register_user("dup".to_string(), 3), Some(2));
    assert_eq!(s.all_users_as_ordered_list(), vec!["other", "dup"]);
}

use blueis::monitor::Monitor;

#[test]
fn monitor_acts_as_an_mpmc_queue() {
    let mut monitor = Monitor::new(100);

    monitor.send(String::from("will never be received"));

    let mut listener_a = monitor.listen();
    monitor.send(String::from("A"));

    let mut listener_b = monitor.listen();
    monitor.send(String::from("B"));

    assert_eq!(listener_a.recv(&monitor).unwrap(), String::from("A"));
    assert_eq!(listener_a.recv(&monitor).unwrap(), String::from("B"));
    assert_eq!(listener_b.recv(&monitor).unwrap(), String::from("B"));
}

#[test]
fn nothing_bad_happens_when_you_send_with_no_listeners() {
    let mut monitor = Monitor::new(100);
    monitor.send(String::from("some payload"));
}

#[test]
fn queues_are_correctly_handled_when_they_overflow() {
    let mut monitor = Monitor::new(2);
    let mut listener = monitor.listen();

    for x in 0..5 {
        monitor.send(x.to_string());
        assert_eq!(listener.recv(&monitor).unwrap(), x.to_string());
    }
}

#[test]
fn listeners_miss_out_on_data_gracefully_if_queue_overflows() {
    let mut monitor = Monitor::new(2);
    let mut listener = monitor.listen();

    monitor.send(String::from("A"));
    assert_eq!(listener.recv(&monitor).unwrap(), String::from("A"));

    monitor.send(String::from("B"));
    monitor.send(String::from("C"));
    monitor.send(String::from("D"));

    // the listener misses out on "B" because the queue size is only 2 long
    assert_eq!(listener.recv(&monitor).unwrap(), String::from("C"));
    assert_eq!(listener.recv(&monitor).unwrap(), String::from("D"));
}

#[test]
fn a_drained_listener_reports_nothing_new() {
    let mut monitor = Monitor::new(4);
    let mut listener = monitor.listen();
    assert_eq!(listener.recv(&monitor), None);
    monitor.send(String::from("A"));
    assert_eq!(listener.recv(&monitor).unwrap(), String::from("A"));
    assert_eq!(listener.recv(&monitor), None);
}

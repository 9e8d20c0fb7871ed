use pixelstrom::limits::{ConnectionLimiter, MAX_CONNECTIONS_PER_IP};

#[test]
fn third_connection_from_one_ip_is_refused() {
    let mut l = ConnectionLimiter::new();
    let ip: u128 = 0xffff_7f00_0001;
    assert!(l.check_and_increment_connection_limit(ip));
    assert!(l.check_and_increment_connection_limit(ip));
    assert!(!l.check_and_increment_connection_limit(ip));
    assert_eq!(l.connections(ip), MAX_CONNECTIONS_PER_IP);
    assert!(l.check_and_increment_connection_limit(ip + 1));
}

#[test]
fn counter_follows_live_connections() {
    let mut l = ConnectionLimiter::new();
    let ip: u128 = 42;
    assert_eq!(l.connections(ip), 0);
    assert!(l.check_and_increment_connection_limit(ip));
    assert_eq!(l.connections(ip), 1);
    assert!(l.check_and_increment_connection_limit(ip));
    l.dec_connections(ip);
    assert_eq!(l.connections(ip), 1);
    assert!(l.check_and_increment_connection_limit(ip));
    l.dec_connections(ip);
    l.dec_connections(ip);
    assert_eq!(l.connections(ip), 0);
    l.dec_connections(ip);
    assert_eq!(l.connections(ip), 0);
}

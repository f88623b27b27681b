use trade_server::dominator::{
    broadcast_text, host_message, next_port_probe, select_broadcast_address, PortProbe, FIRST_CLIENT_PORT,
};
use trade_server::watchlistmap::WatchListMap;

#[test]
fn last_local_address_is_announced() {
    let ips = vec![
        "127.0.0.1".to_string(),
        "192.168.0.5".to_string(),
        "10.0.0.1".to_string(),
        "192.168.0.9".to_string(),
        "192.168.1.7".to_string(),
    ];
    assert_eq!(select_broadcast_address(&ips).unwrap(), "192.168.0.9");
    assert!(select_broadcast_address(&vec!["10.1.1.1".to_string()]).is_none());
    assert!(select_broadcast_address(&vec![]).is_none());
}

#[test]
fn announcement_texts() {
    let m = host_message("192.168.0.5", FIRST_CLIENT_PORT);
    assert_eq!(m, "TS 192.168.0.5:49153");
    assert_eq!(broadcast_text(&m), "Trade Server at TS 192.168.0.5:49153");
}

#[test]
fn cache_reads_back_what_was_written() {
    let mut m: WatchListMap<u32> = WatchListMap::new();
    assert!(!m.contains_key("AAPL"));
    assert!(m.get_cache("AAPL").is_none());
    m.cache_val("AAPL".to_string(), vec![1, 2]);
    m.cache_val("MSFT".to_string(), vec![3]);
    assert_eq!(m.get_cache("AAPL").unwrap(), &vec![1, 2]);
    m.cache_val("AAPL".to_string(), vec![9]);
    assert_eq!(m.get_cache("AAPL").unwrap(), &vec![9]);
    assert_eq!(m.get_cache("MSFT").unwrap(), &vec![3]);
    m.clear_cache_value("AAPL");
    assert!(!m.contains_key("AAPL"));
    assert!(m.contains_key("MSFT"));
    m.clear_cache_value("GOOG");
    assert_eq!(m.get_cache("MSFT").unwrap(), &vec![3]);
}

#[test]
fn port_search_steps() {
    assert!(matches!(next_port_probe(FIRST_CLIENT_PORT, true), PortProbe::Try(49154)));
    assert!(matches!(next_port_probe(49154, false), PortProbe::Use(49154)));
}

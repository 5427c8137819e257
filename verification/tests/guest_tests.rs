use proxmox_dns::guest::{collect_net_interfaces, parse_net_key};

fn pair(k: &str, v: &str) -> (String, String) {
    (k.to_string(), v.to_string())
}

#[test]
fn parse_net_key_simple() {
    assert_eq!(parse_net_key("net0"), Some(0));
    assert_eq!(parse_net_key("net15"), Some(15));
}

#[test]
fn parse_net_key_leading_zeroes() {
    assert_eq!(parse_net_key("net007"), Some(7));
    assert_eq!(parse_net_key("net00000000017"), Some(17));
}

#[test]
fn parse_net_key_limits() {
    assert_eq!(parse_net_key("net4294967295"), Some(u32::MAX));
    assert_eq!(parse_net_key("net4294967296"), None);
}

#[test]
fn parse_net_key_rejects_unrelated() {
    assert_eq!(parse_net_key("net"), None);
    assert_eq!(parse_net_key("nets"), None);
    assert_eq!(parse_net_key("net1a"), None);
    assert_eq!(parse_net_key("eth0"), None);
    assert_eq!(parse_net_key("memory"), None);
    assert_eq!(parse_net_key(""), None);
}

#[test]
fn collect_orders_by_index_and_discards_unrelated() {
    let entries = vec![
        pair("net7", "g"),
        pair("memory", "2048"),
        pair("net0", "a"),
        pair("ostype", "l26"),
        pair("net2", "c"),
    ];
    let nets = collect_net_interfaces(&entries);
    assert_eq!(
        nets,
        vec![
            (0, "a".to_string()),
            (2, "c".to_string()),
            (7, "g".to_string()),
        ]
    );
}

#[test]
fn collect_last_occurrence_wins() {
    let entries = vec![pair("net1", "first"), pair("net1", "second")];
    let nets = collect_net_interfaces(&entries);
    assert_eq!(nets, vec![(1, "second".to_string())]);
}

#[test]
fn collect_empty_document() {
    let entries: Vec<(String, String)> = Vec::new();
    assert_eq!(collect_net_interfaces(&entries), Vec::new());
}

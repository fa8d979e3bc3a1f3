use mcping::response::{Description, Players, Response, Sample, Version};
use mcping::scan::{collect_open, ports_in_range};

#[test]
fn scan_returns_exactly_the_open_ports() {
    let ports = ports_in_range(49152, 49161);
    let accepts = |p: u16| p == 49153 || p == 49155 || p == 49160;
    let outcomes: Vec<(u16, bool)> = ports.iter().map(|&p| (p, accepts(p))).collect();
    assert_eq!(collect_open(&outcomes), [49153, 49155, 49160]);

    // The same outcomes resolving in another order yield the same set.
    let mut reversed = outcomes.clone();
    reversed.reverse();
    let mut open = collect_open(&reversed);
    open.sort();
    assert_eq!(open, [49153, 49155, 49160]);
}

#[test]
fn range_is_inclusive_on_both_ends() {
    assert_eq!(ports_in_range(10, 12), [10, 11, 12]);
    assert_eq!(ports_in_range(7, 7), [7]);
}

#[test]
fn range_tolerates_the_largest_port() {
    assert_eq!(ports_in_range(65534, 65535), [65534, 65535]);
    let all = ports_in_range(0, 65535);
    assert_eq!(all.len(), 65536);
    assert_eq!(all[65535], 65535);
}

#[test]
fn reversed_range_is_empty() {
    assert_eq!(ports_in_range(12, 10), Vec::<u16>::new());
}

#[test]
fn one_closed_port_does_not_disturb_the_rest() {
    let outcomes: Vec<(u16, bool)> = vec![(1, true), (2, false), (3, true)];
    assert_eq!(collect_open(&outcomes), [1, 3]);
}

#[test]
fn status_payload_fields_carry_over() {
    let status = Response {
        version: Version { name: String::from("1.8.9"), protocol: 47 },
        players: Players {
            max: 20,
            online: 1,
            sample: vec![Sample { name: String::from("n"), id: String::from("i") }],
        },
        description: Description::String(String::from("hello")),
        favicon: None,
        extra: vec![(String::from("modinfo"), String::from("{}"))],
    };
    assert_eq!(status.version.protocol, 47);
    assert_eq!(status.players.online, 1);
    assert!(matches!(status.description, Description::String(_)));
    assert_eq!(status.extra.len(), 1);
}

use voyage::helpers::{replies_eq, reply, reply_pair_eq};
use voyage::links::{get_all_links, get_links_by_ttl, get_pairs_by_flow, get_replies_by_flow, get_replies_by_ttl};
use voyage::types::{Flow, IpAddress, Reply, ReplyPair, TTL};

const IP: [&str; 10] = [
    "192.168.0.2",
    "192.168.0.3",
    "192.168.0.4",
    "192.168.0.5",
    "192.168.0.6",
    "192.168.0.7",
    "192.168.0.8",
    "192.168.0.9",
    "192.168.0.10",
    "192.168.0.11",
];

fn v4(s: &str) -> IpAddress {
    let mut bits: u32 = 0;
    for part in s.split('.') {
        bits = (bits << 8) | part.parse::<u8>().unwrap() as u32;
    }
    IpAddress::V4(bits)
}

fn r(ttl: u8, src: &str, dst: &str) -> Reply {
    reply(ttl, v4(src), v4(dst))
}

fn group_of<'a, K: PartialEq, V>(groups: &'a [(K, Vec<V>)], key: &K) -> Option<&'a Vec<V>> {
    groups.iter().find(|(k, _)| k == key).map(|(_, v)| v)
}

#[test]
fn test_get_replies_by_ttl() {
    let replies: Vec<Reply> = vec![
        r(1, IP[0], IP[9]),
        r(2, IP[1], IP[9]),
        r(1, IP[2], IP[9]),
        r(3, IP[3], IP[9]),
        r(2, IP[4], IP[9]),
    ];

    let expected: Vec<(TTL, Vec<Reply>)> = vec![
        (1, vec![replies[0], replies[2]]),
        (2, vec![replies[1], replies[4]]),
        (3, vec![replies[3]]),
    ];

    let result = get_replies_by_ttl(&replies);

    assert_eq!(expected.len(), result.len());
    for (ttl, replies) in expected {
        assert!(group_of(&result, &ttl).is_some());
        assert!(replies_eq(&replies, group_of(&result, &ttl).unwrap()));
    }
}

#[test]
fn test_get_replies_by_flow() {
    let replies: Vec<Reply> = vec![
        r(1, IP[0], IP[9]),
        r(2, IP[1], IP[8]),
        r(1, IP[2], IP[9]),
        r(3, IP[3], IP[8]),
        r(2, IP[4], IP[9]),
    ];

    let flow_1 = Flow::of(&replies[0]);
    let flow_2 = Flow::of(&replies[1]);

    let expected: Vec<(Flow, Vec<Reply>)> = vec![
        (flow_1, vec![replies[0], replies[2], replies[4]]),
        (flow_2, vec![replies[1], replies[3]]),
    ];

    let result = get_replies_by_flow(&replies);

    assert_eq!(expected.len(), result.len());
    for (flow, replies) in expected {
        assert!(group_of(&result, &flow).is_some());
        assert!(replies_eq(&replies, group_of(&result, &flow).unwrap()));
    }
}

// Pairs are formed for the TTLs from each flow's own smallest to its own
// largest TTL, so the second flow (TTLs 2 and 3) has no pair at TTL 1.
#[test]
fn test_get_pairs_by_flow() {
    // 0-4, 2-4, 1-3
    let replies: Vec<Reply> = vec![
        r(1, IP[0], IP[9]),
        r(2, IP[1], IP[8]),
        r(1, IP[2], IP[9]),
        r(3, IP[3], IP[8]),
        r(2, IP[4], IP[9]),
    ];

    let flow_1 = Flow::of(&replies[0]);
    let flow_2 = Flow::of(&replies[1]);

    let expected: Vec<(Flow, Vec<ReplyPair>)> = vec![
        (
            flow_1,
            vec![
                ReplyPair { ttl: 1, first_reply: Some(replies[0]), second_reply: Some(replies[4]) },
                ReplyPair { ttl: 1, first_reply: Some(replies[2]), second_reply: Some(replies[4]) },
                ReplyPair { ttl: 2, first_reply: Some(replies[4]), second_reply: None },
            ],
        ),
        (
            flow_2,
            vec![
                ReplyPair { ttl: 2, first_reply: Some(replies[1]), second_reply: Some(replies[3]) },
                ReplyPair { ttl: 3, first_reply: Some(replies[3]), second_reply: None },
            ],
        ),
    ];

    let result = get_pairs_by_flow(&replies);

    assert_eq!(expected.len(), result.len());
    for (flow, pairs) in expected {
        let got = group_of(&result, &flow);
        assert!(got.is_some());
        let got = got.unwrap();
        assert_eq!(pairs.len(), got.len(), "flow: {:?}, pairs: {:?}, result_pairs: {:?}", flow, pairs, got);
        for pair in pairs {
            assert!(got.iter().any(|p| reply_pair_eq(&pair, p)), "pair not found: {:?}", pair);
        }
    }
}

#[test]
fn pairs_of_no_replies_are_empty() {
    assert!(get_pairs_by_flow(&[]).is_empty());
    assert!(get_links_by_ttl(&[]).is_empty());
}

#[test]
fn missing_hop_yields_absent_slots() {
    // one flow answered at TTLs 1 and 3, not at 2
    let replies = vec![r(1, IP[0], IP[9]), r(3, IP[2], IP[9])];
    let links = get_all_links(&replies);
    let summary: Vec<(u8, Option<IpAddress>, Option<IpAddress>)> =
        links.iter().map(|l| (l.ttl, l.near_ip, l.far_ip)).collect();
    assert_eq!(
        summary,
        vec![
            (1, Some(v4(IP[0])), None),
            (2, None, Some(v4(IP[2]))),
            (3, Some(v4(IP[2])), None),
        ]
    );
}

#[test]
fn duplicate_observations_are_kept() {
    // two replies of one flow at TTL 1, one at TTL 2: two links at TTL 1
    let replies = vec![r(1, IP[0], IP[9]), r(1, IP[0], IP[9]), r(2, IP[1], IP[9])];
    let by_ttl = get_links_by_ttl(&replies);
    let at_1 = group_of(&by_ttl, &1).unwrap();
    assert_eq!(at_1.len(), 2);
    for l in at_1 {
        assert_eq!((l.near_ip, l.far_ip), (Some(v4(IP[0])), Some(v4(IP[1]))));
    }
    assert_eq!(group_of(&by_ttl, &2).unwrap().len(), 1);
}

#[test]
fn time_exceeded_classification() {
    let mut x = r(1, IP[0], IP[9]);
    assert!(x.is_time_exceeded());
    x.reply_icmp_type = 0;
    assert!(!x.is_time_exceeded());
    x.reply_protocol = 58;
    x.reply_icmp_type = 3;
    assert!(x.is_time_exceeded());
}

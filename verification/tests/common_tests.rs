use vortex::common::{
    conn_key, ellipsize_middle, orient, proto_name, sort_arrow, SortDirection, IP_COL_WIDTH,
};
use vortex::flow::{Direction, FlowKey, IpAddress};
use vortex::format::IPPROTO_TCP;

fn key(src: (u8, u16), dst: (u8, u16)) -> FlowKey {
    FlowKey {
        src_ip: IpAddress::v4(u32::from_be_bytes([10, 0, 0, src.0])),
        dst_ip: IpAddress::v4(u32::from_be_bytes([10, 0, 0, dst.0])),
        src_port: src.1,
        dst_port: dst.1,
        proto: IPPROTO_TCP,
    }
}

#[test]
fn conn_key_pairs_reverse_flows() {
    let out = key((20, 52344), (1, 443));
    let inn = key((1, 443), (20, 52344));
    assert_eq!(conn_key(&out), conn_key(&inn));
    let other = key((20, 52344), (2, 443));
    assert_ne!(conn_key(&out), conn_key(&other));
}

#[test]
fn orient_uses_direction_for_local_side() {
    let out = key((20, 52344), (1, 443));
    let e = orient(&out, Direction::Outbound);
    assert_eq!(e.local, (out.src_ip, out.src_port));
    assert_eq!(e.remote, (out.dst_ip, out.dst_port));
    let inn = key((1, 443), (20, 52344));
    let e2 = orient(&inn, Direction::Inbound);
    assert_eq!(e2.local, e.local);
    assert_eq!(e2.remote, e.remote);
}

#[test]
fn orient_unknown_falls_back_to_canonical() {
    let a = key((20, 52344), (1, 443));
    let b = key((1, 443), (20, 52344));
    let ea = orient(&a, Direction::Unknown);
    let eb = orient(&b, Direction::Unknown);
    assert_eq!(ea, eb);
    assert_eq!(ea.local, conn_key(&a).lo);
    assert_eq!(ea.remote, conn_key(&a).hi);
}

#[test]
fn ellipsize_short_unchanged() {
    assert_eq!(ellipsize_middle("example.com", 28), "example.com");
}

#[test]
fn ellipsize_long_middle() {
    let s = "lhr25s27-in-f14.1e100.net.something.long";
    let out = ellipsize_middle(s, 28);
    assert_eq!(out.chars().count(), 28);
    assert!(out.contains('…'));
    assert!(out.starts_with("lhr25s27"));
    assert!(out.ends_with(".long"));
}

#[test]
fn ellipsize_exact_split_keeps_longer_tail() {
    // 28 - 1 = 27 characters kept: 13 from the head, 14 from the tail.
    let s = "abcdefghijklmnopqrstuvwxyz0123456789";
    let out = ellipsize_middle(s, 28);
    assert_eq!(out, "abcdefghijklm…wxyz0123456789");
    assert_eq!(ellipsize_middle(s, 1), "…");
    assert_eq!(ellipsize_middle(s, 0), "…");
    assert_eq!(ellipsize_middle("ab", 2), "ab");
    assert_eq!(IP_COL_WIDTH, 28);
}

#[test]
fn toggle_flips_and_twice_restores() {
    assert_eq!(SortDirection::Asc.toggle(), SortDirection::Desc);
    assert_eq!(SortDirection::Desc.toggle(), SortDirection::Asc);
    assert_eq!(SortDirection::Asc.toggle().toggle(), SortDirection::Asc);
    assert_eq!(SortDirection::default(), SortDirection::Asc);
}

#[test]
fn sort_arrow_matches_direction() {
    assert_eq!(sort_arrow(SortDirection::Asc), "▲");
    assert_eq!(sort_arrow(SortDirection::Desc), "▼");
}

#[test]
fn proto_name_known_and_unknown() {
    assert_eq!(proto_name(6), "TCP");
    assert_eq!(proto_name(17), "UDP");
    assert_eq!(proto_name(1), "ICMP");
    assert_eq!(proto_name(47), "?");
}

#[test]
fn orient_local_direction_uses_canonical_order() {
    let a = key((20, 52344), (1, 443));
    let e = orient(&a, Direction::Local);
    assert_eq!(e.local, (a.dst_ip, a.dst_port));
    assert_eq!(e.remote, (a.src_ip, a.src_port));
}

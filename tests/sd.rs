use fusion_hawking::codec::{SomeIpHeader, WireReader};
use fusion_hawking::sd::machine::{
    reply_time, take_due, LocalService,
    advance_timer, start_initial_wait, Endpoint, IpAddress, OfferTimer, SdInterface, SdTiming,
    ServicePhase,
};
use fusion_hawking::sd::options::{PROTO_TCP, PROTO_UDP};
use fusion_hawking::sd::packet::{build_sd_message, parse_sd_message, SdPacket};
use fusion_hawking::{EntryType, SdEntry, SdOption, ServiceDiscovery};

fn offer_entry(ttl: u32) -> SdEntry {
    SdEntry {
        entry_type: EntryType::OfferService,
        index_1: 0,
        index_2: 0,
        number_of_opts_1: 0,
        number_of_opts_2: 0,
        service_id: 0x1234,
        instance_id: 1,
        major_version: 1,
        ttl,
        minor_version: 0,
    }
}

fn primary(v4: bool, v6: bool) -> SdInterface {
    SdInterface {
        alias: "primary".to_string(),
        local_ip_v4: if v4 { Some([127, 0, 0, 1]) } else { None },
        local_ip_v6: if v6 { Some([0, 0, 0, 0, 0, 0, 0, 0, 0, 0, 0, 0, 0, 0, 0, 1]) } else { None },
    }
}

#[test]
fn test_sd_packet_serialization() {
    let entry = SdEntry {
        entry_type: EntryType::OfferService,
        index_1: 0,
        index_2: 0,
        number_of_opts_1: 0,
        number_of_opts_2: 0,
        service_id: 0x1234,
        instance_id: 0x5678,
        major_version: 1,
        ttl: 0x0000100,
        minor_version: 2,
    };

    let packet = SdPacket { flags: 0x80, entries: vec![entry], options: vec![] };

    let mut buf = Vec::new();
    packet.serialize(&mut buf).unwrap();

    assert_eq!(buf.len(), 28);
    assert_eq!(buf[0], 0x80);
    assert_eq!(buf[4], 0x00);
    assert_eq!(buf[7], 16);
}

#[test]
fn test_sd_packet_round_trip() {
    let entry = SdEntry {
        entry_type: EntryType::OfferService,
        index_1: 0,
        index_2: 0,
        number_of_opts_1: 0,
        number_of_opts_2: 0,
        service_id: 0x1234,
        instance_id: 0x5678,
        major_version: 1,
        ttl: 0x00ABCDEF,
        minor_version: 2,
    };

    let opt_ipv4 = SdOption::Ipv4Endpoint { address: [192, 168, 1, 1], transport_proto: 0x11, port: 30490 };
    let opt_ipv6 = SdOption::Ipv6Endpoint {
        address: [0, 0, 0, 0, 0, 0, 0, 0, 0, 0, 0, 0, 0, 0, 0, 1],
        transport_proto: 0x06,
        port: 8080,
    };

    let packet = SdPacket { flags: 0x80, entries: vec![entry], options: vec![opt_ipv4, opt_ipv6] };

    let mut buf = Vec::new();
    packet.serialize(&mut buf).unwrap();

    let mut reader = WireReader::new(buf);
    let deserialized = SdPacket::deserialize(&mut reader).unwrap();

    assert_eq!(deserialized.flags, packet.flags);
    assert_eq!(deserialized.entries.len(), 1);
    assert_eq!(deserialized.options.len(), 2);

    let d_entry = &deserialized.entries[0];
    assert_eq!(d_entry.service_id, 0x1234);
    assert_eq!(d_entry.ttl, 0x00ABCDEF);

    match &deserialized.options[0] {
        SdOption::Ipv4Endpoint { address, port, .. } => {
            assert_eq!(*address, [192, 168, 1, 1]);
            assert_eq!(*port, 30490);
        },
        _ => panic!("Expected IPv4 option first"),
    }

    match &deserialized.options[1] {
        SdOption::Ipv6Endpoint { address, port, .. } => {
            assert_eq!(*address, [0, 0, 0, 0, 0, 0, 0, 0, 0, 0, 0, 0, 0, 0, 0, 1]);
            assert_eq!(*port, 8080);
        },
        _ => panic!("Expected IPv6 option second"),
    }
}

fn option_round_trip(opt: &SdOption) -> SdOption {
    let mut buf = Vec::new();
    opt.serialize(&mut buf).unwrap();
    let mut reader = WireReader::new(buf);
    SdOption::deserialize(&mut reader).unwrap()
}

#[test]
fn test_ipv4_multicast_option() {
    let opt = SdOption::Ipv4Multicast { address: [224, 0, 0, 1], transport_proto: 0x11, port: 30490 };
    match option_round_trip(&opt) {
        SdOption::Ipv4Multicast { address, transport_proto, port } => {
            assert_eq!(address, [224, 0, 0, 1]);
            assert_eq!(transport_proto, 0x11);
            assert_eq!(port, 30490);
        },
        _ => panic!("Expected Ipv4Multicast option"),
    }
}

#[test]
fn test_ipv6_multicast_option() {
    let addr = [0xFF, 0x02, 0, 0, 0, 0, 0, 0, 0, 0, 0, 0, 0, 0, 0, 1];
    let opt = SdOption::Ipv6Multicast { address: addr, transport_proto: 0x11, port: 30490 };
    match option_round_trip(&opt) {
        SdOption::Ipv6Multicast { address, transport_proto, port } => {
            assert_eq!(address, addr);
            assert_eq!(transport_proto, 0x11);
            assert_eq!(port, 30490);
        },
        _ => panic!("Expected Ipv6Multicast option"),
    }
}

#[test]
fn test_configuration_option() {
    let opt = SdOption::Configuration { config_string: "key=value".to_string() };
    match option_round_trip(&opt) {
        SdOption::Configuration { config_string } => {
            assert_eq!(config_string, "key=value");
        },
        _ => panic!("Expected Configuration option"),
    }
}

#[test]
fn test_load_balancing_option() {
    let opt = SdOption::LoadBalancing { priority: 10, weight: 50 };
    match option_round_trip(&opt) {
        SdOption::LoadBalancing { priority, weight } => {
            assert_eq!(priority, 10);
            assert_eq!(weight, 50);
        },
        _ => panic!("Expected LoadBalancing option"),
    }
}

#[test]
fn test_ipv6_endpoint_golden_bytes() {
    let packet_data = vec![
        0x00, 0x15, 0x06, 0x00, 0x20, 0x01, 0x0d, 0xb8, 0x00, 0x00, 0x00, 0x00, 0x00, 0x00, 0x00,
        0x00, 0x00, 0x00, 0x00, 0x01, 0x00, 0x06, 0x77, 0x0A,
    ];
    let mut cursor = WireReader::new(packet_data);
    let opt = SdOption::deserialize(&mut cursor).unwrap();

    match opt {
        SdOption::Ipv6Endpoint { address, transport_proto, port } => {
            assert_eq!(address, [0x20, 0x01, 0x0d, 0xb8, 0, 0, 0, 0, 0, 0, 0, 0, 0, 0, 0, 1]);
            assert_eq!(transport_proto, 0x06);
            assert_eq!(port, 30474);
        },
        _ => panic!("Expected IPv6Endpoint, got {:?}", opt),
    }
}

#[test]
fn short_and_unknown_options_stay_raw() {
    let mut reader = WireReader::new(vec![0x00, 0x02, 0x04, 0xAA, 0xBB]);
    assert_eq!(
        SdOption::deserialize(&mut reader).unwrap(),
        SdOption::Unknown { length: 2, type_id: 0x04, data: vec![0xAA, 0xBB] }
    );
    let mut reader = WireReader::new(vec![0x00, 0x01, 0x77, 0x01]);
    assert_eq!(SdOption::deserialize(&mut reader).unwrap().type_id(), 0x77);
    let mut reader = WireReader::new(vec![0x00, 0x05, 0x04, 0x00]);
    assert!(SdOption::deserialize(&mut reader).is_err());
}

#[test]
fn ipv4_endpoint_option_layout() {
    let opt = SdOption::Ipv4Endpoint { address: [127, 0, 0, 1], transport_proto: 0x11, port: 30500 };
    let mut buf = Vec::new();
    opt.serialize(&mut buf).unwrap();
    assert_eq!(buf, vec![0, 9, 0x04, 0, 127, 0, 0, 1, 0, 0x11, 0x77, 0x24]);
}

#[test]
fn entry_layout_and_round_trip() {
    let entry = SdEntry { number_of_opts_1: 1, ttl: 0xFFFFFF, minor_version: 10, ..offer_entry(0) };
    let mut buf = Vec::new();
    entry.serialize(&mut buf).unwrap();
    assert_eq!(buf, vec![0x01, 0, 0, 0x10, 0x12, 0x34, 0, 1, 1, 0xFF, 0xFF, 0xFF, 0, 0, 0, 10]);
    let back = SdEntry::deserialize(&mut WireReader::new(buf)).unwrap();
    assert_eq!(back, entry);
    assert_eq!(EntryType::from(0x86), EntryType::StopSubscribeEventgroup);
    assert_eq!(EntryType::from(0x55), EntryType::Unknown);
    assert!(EntryType::OfferService.is_service_entry());
    assert!(EntryType::SubscribeEventgroupAck.is_eventgroup_entry());
    assert!(!EntryType::FindService.is_eventgroup_entry());
}

#[test]
fn truncated_packets_are_rejected() {
    let packet = SdPacket { flags: 0x80, entries: vec![offer_entry(5)], options: vec![] };
    let mut buf = Vec::new();
    packet.serialize(&mut buf).unwrap();
    for cut in 0..buf.len() {
        assert!(SdPacket::deserialize(&mut WireReader::new(buf[..cut].to_vec())).is_err());
    }
    assert!(SdPacket::deserialize(&mut WireReader::new(buf)).is_ok());
}

#[test]
fn test_local_service_transitions() {
    let timing = SdTiming::default_timing();
    let down = OfferTimer { phase: ServicePhase::Down, phase_start: 0, next_transmission: 0, repetition_count: 0 };
    let t = start_initial_wait(down, timing, 1000, 5);
    assert_eq!(t.phase, ServicePhase::InitialWait);
    assert_eq!(t.next_transmission, 1015);

    assert_eq!(advance_timer(t, timing, 1014), (t, false));
    let (t, emit) = advance_timer(t, timing, 1015);
    assert!(emit);
    assert_eq!(t.phase, ServicePhase::Repetition);
    assert_eq!(t.repetition_count, 0);
    assert_eq!(t.next_transmission, 1015);

    let (t, emit) = advance_timer(t, timing, 1015);
    assert!(emit);
    assert_eq!((t.repetition_count, t.next_transmission), (1, 1115));
    let (t, _) = advance_timer(t, timing, 1115);
    assert_eq!((t.repetition_count, t.next_transmission), (2, 1315));
    let (t, _) = advance_timer(t, timing, 1315);
    assert_eq!((t.repetition_count, t.next_transmission), (3, 1715));
    let (t, emit) = advance_timer(t, timing, 1715);
    assert!(emit);
    assert_eq!(t.phase, ServicePhase::Main);
    let (t, emit) = advance_timer(t, timing, 1715);
    assert!(emit);
    assert_eq!(t.next_transmission, 2715);
}

#[test]
fn test_offer_timing_initial_wait() {
    let timing = SdTiming { initial_delay_min_ms: 10, initial_delay_max_ms: 100, ..SdTiming::default_timing() };
    let down = OfferTimer { phase: ServicePhase::Down, phase_start: 0, next_transmission: 0, repetition_count: 0 };
    for random in [0u64, 1, 89, 90, 12345, u64::MAX] {
        let t = start_initial_wait(down, timing, 500, random);
        assert!(t.next_transmission >= t.phase_start + 10);
        assert!(t.next_transmission < t.phase_start + 100);
    }
}

#[test]
fn test_service_discovery_ipv4_only() {
    let mut sd = ServiceDiscovery::new();
    sd.add_listener(primary(true, false));
    sd.offer_service(0x1234, 1, 1, 0, "primary", 30500, 0x11, None, 0, 0);
    let service = &sd.local_services[0];
    assert_eq!(service.endpoint_options.len(), 1);
    match &service.endpoint_options[0] {
        SdOption::Ipv4Endpoint { .. } => {},
        _ => panic!("Expected IPv4 option"),
    }
}

#[test]
fn test_service_discovery_ipv6_only() {
    let mut sd = ServiceDiscovery::new();
    sd.add_listener(primary(false, true));
    sd.offer_service(0x1234, 1, 1, 0, "primary", 30500, 0x11, None, 0, 0);
    let service = &sd.local_services[0];
    assert_eq!(service.endpoint_options.len(), 1);
    match &service.endpoint_options[0] {
        SdOption::Ipv6Endpoint { .. } => {},
        _ => panic!("Expected IPv6 option"),
    }
}

#[test]
fn test_service_discovery_dual_stack() {
    let mut sd = ServiceDiscovery::new();
    sd.add_listener(primary(true, true));
    sd.offer_service(0x1234, 1, 1, 0, "primary", 30500, 0x11, None, 0, 0);
    assert_eq!(sd.local_services[0].endpoint_options.len(), 2);
}

#[test]
fn test_ttl_expiry_removes_service() {
    let mut sd = ServiceDiscovery::new();
    sd.add_listener(primary(true, true));
    sd.handle_entry(&offer_entry(10), &vec![], 0);
    assert!(sd.find_service(0x1234, 1).is_some());

    let packet = SdPacket { flags: 0x00, entries: vec![offer_entry(0)], options: vec![] };
    sd.handle_incoming_packet(&packet, 0);

    assert!(sd.find_service(0x1234, 1).is_none());
}

#[test]
fn test_service_discovery_find() {
    let mut sd = ServiceDiscovery::new();
    let entry = SdEntry { service_id: 0x5678, ..offer_entry(10) };
    sd.handle_entry(&entry, &vec![], 0);
    let found = sd.find_service(0x5678, 1);
    assert!(found.is_some());
    assert_eq!(found.unwrap().service_id, 0x5678);
    assert!(sd.find_service(0x9999, 1).is_none());
}

#[test]
fn remote_ttl_is_swept_on_poll() {
    let mut sd = ServiceDiscovery::new();
    sd.handle_entry(&offer_entry(2), &vec![], 1000);
    sd.poll(3000);
    assert!(sd.find_service(0x1234, 1).is_some());
    sd.poll(3001);
    assert!(sd.find_service(0x1234, 1).is_none());
}

fn deliver(from: Vec<(SdEntry, Vec<SdOption>)>, to: &mut ServiceDiscovery, now: u64) -> Vec<(SdEntry, Vec<SdOption>)> {
    let mut replies = Vec::new();
    for (entry, options) in from {
        let bytes = build_sd_message(entry, options).unwrap();
        let header = SomeIpHeader::deserialize(&bytes).unwrap();
        assert_eq!((header.service_id, header.method_id, header.message_type), (0xFFFF, 0x8100, 0x02));
        assert_eq!(header.length as usize, bytes.len() - 8);
        let packet = parse_sd_message(&bytes).unwrap();
        replies.extend(to.handle_incoming_packet(&packet, now));
    }
    replies
}

#[test]
fn offer_then_find_over_the_wire() {
    let mut provider = ServiceDiscovery::new();
    provider.add_listener(primary(true, false));
    provider.offer_service(0x1234, 1, 1, 0, "primary", 30501, PROTO_UDP, None, 0, 42);
    let mut consumer = ServiceDiscovery::new();

    let mut now = 0;
    let mut seen = None;
    let limit = 100 + 100;
    while now <= limit && seen.is_none() {
        let out = provider.poll(now);
        deliver(out, &mut consumer, now);
        seen = consumer.get_service(0x1234, 0xFFFF);
        now += 10;
    }
    let (endpoint, proto) = seen.expect("service not discovered in time");
    assert_eq!(endpoint, Endpoint { ip: IpAddress::V4([127, 0, 0, 1]), port: 30501 });
    assert_eq!(proto, 0x11);
    assert_eq!(consumer.get_service(0x1234, 1), seen);
    assert_eq!(consumer.get_service(0x1234, 2), None);
}

#[test]
fn subscribe_and_ack() {
    let mut consumer = ServiceDiscovery::new();
    consumer.add_listener(primary(true, false));
    let mut provider = ServiceDiscovery::new();

    let sub = consumer.subscribe_eventgroup(0x1234, 1, 1, 100, "primary", 40000, 0);
    assert_eq!(sub.0.ttl, 100);
    assert_eq!(sub.0.minor_version, 1 << 16);
    assert!(!consumer.is_subscription_acked(0x1234, 1));

    let acks = deliver(vec![sub], &mut provider, 0);
    assert_eq!(acks.len(), 1);
    assert_eq!(acks[0].0.entry_type, EntryType::SubscribeEventgroupAck);
    assert_eq!(acks[0].0.ttl, 100);
    let subscribers = provider.subscriptions.get(&((0x1234u32 << 16) | 1)).unwrap();
    assert_eq!(subscribers, &vec![Endpoint { ip: IpAddress::V4([127, 0, 0, 1]), port: 40000 }]);

    deliver(acks, &mut consumer, 0);
    assert!(consumer.is_subscription_acked(0x1234, 1));

    let again = consumer.subscribe_eventgroup(0x1234, 1, 1, 100, "primary", 40000, 0);
    deliver(vec![again], &mut provider, 0);
    assert_eq!(provider.subscriptions.get(&((0x1234u32 << 16) | 1)).unwrap().len(), 1);

    let bye = consumer.unsubscribe_eventgroup(0x1234, 1, 1, "primary");
    assert_eq!(bye.0.ttl, 0);
    assert!(!consumer.is_subscription_acked(0x1234, 1));
}

#[test]
fn unsubscribe_removes_subscriber() {
    let mut provider = ServiceDiscovery::new();
    let endpoint = SdOption::Ipv4Endpoint { address: [10, 0, 0, 2], transport_proto: 0x11, port: 5000 };
    let sub = SdEntry {
        entry_type: EntryType::SubscribeEventgroup,
        number_of_opts_1: 1,
        minor_version: 3 << 16,
        ttl: 9,
        ..offer_entry(0)
    };
    provider.handle_entry(&sub, &vec![endpoint.clone()], 0);
    assert_eq!(provider.subscriptions.get(&((0x1234u32 << 16) | 3)).unwrap().len(), 1);
    let stop = SdEntry { ttl: 0, ..sub };
    let replies = provider.handle_entry(&stop, &vec![endpoint], 0);
    assert!(replies.is_empty());
    assert!(provider.subscriptions.get(&((0x1234u32 << 16) | 3)).unwrap().is_empty());
}

#[test]
fn stop_offer_reaches_consumer() {
    let mut provider = ServiceDiscovery::new();
    provider.add_listener(primary(true, false));
    provider.offer_service(0x1234, 1, 1, 0, "primary", 30501, PROTO_TCP, None, 0, 0);
    let mut consumer = ServiceDiscovery::new();
    let out = provider.poll(10);
    assert_eq!(out.len(), 1);
    deliver(out, &mut consumer, 10);
    assert_eq!(consumer.get_service(0x1234, 1).unwrap().1, 0x06);

    let last = provider.stop_offer_service(0x1234, 1).unwrap();
    assert_eq!(last.0.ttl, 0);
    assert_eq!(provider.local_services[0].timer.phase, ServicePhase::Down);
    for t in [20u64, 1000, 100000] {
        assert!(provider.poll(t).is_empty());
    }
    deliver(vec![last], &mut consumer, 20);
    assert_eq!(consumer.get_service(0x1234, 1), None);
    assert!(consumer.find_service(0x1234, 1).is_none());
    assert!(provider.stop_offer_service(0x9999, 1).is_none());
}

#[test]
fn find_service_is_answered_by_matching_offer() {
    let mut provider = ServiceDiscovery::new();
    provider.add_listener(primary(true, false));
    provider.offer_service(0x1234, 7, 2, 5, "primary", 30600, PROTO_UDP, Some((IpAddress::V4([239, 0, 0, 1]), 30700)), 0, 0);
    let find = SdEntry { entry_type: EntryType::FindService, instance_id: 0xFFFF, major_version: 2, ..offer_entry(3) };
    let replies = provider.handle_entry(&find, &vec![], 0);
    assert_eq!(replies.len(), 1);
    assert_eq!(replies[0].0.instance_id, 7);
    assert_eq!(replies[0].0.ttl, 0x00FF_FFFF);
    assert_eq!(replies[0].0.number_of_opts_1, 2);
    assert_eq!(replies[0].1.len(), 2);
    let wrong_major = SdEntry { major_version: 3, ..find };
    assert!(provider.handle_entry(&wrong_major, &vec![], 0).is_empty());
}

#[test]
fn offer_runs_are_resolved_with_bounds_checks() {
    let mut sd = ServiceDiscovery::new();
    let opts = vec![
        SdOption::LoadBalancing { priority: 1, weight: 1 },
        SdOption::Ipv4Endpoint { address: [10, 1, 1, 1], transport_proto: 0x06, port: 9 },
    ];
    let e = SdEntry { index_1: 0, number_of_opts_1: 2, index_2: 1, number_of_opts_2: 5, ..offer_entry(30) };
    sd.handle_entry(&e, &opts, 0);
    assert_eq!(sd.find_service(0x1234, 1).unwrap().endpoint.len(), 2);
    assert_eq!(
        sd.get_service(0x1234, 1),
        Some((Endpoint { ip: IpAddress::V4([10, 1, 1, 1]), port: 9 }, 0x06))
    );
}

#[test]
fn test_local_service_initial_state() {
    let service = LocalService::new(offer_entry(0), vec![], SdTiming::default_timing(), 0);
    assert_eq!(service.timer.phase, ServicePhase::Down);
}

#[test]
fn test_repetition_logic() {
    let mut service = LocalService::new(offer_entry(0), vec![], SdTiming::default_timing(), 0);
    service.transition_to_initial_wait(100, 7);
    assert_eq!(service.timer.phase, ServicePhase::InitialWait);
    assert!(service.timer.next_transmission > 100);
    service.transition_to_repetition(500);
    assert_eq!(service.timer.repetition_count, 0);
    assert!(service.timer.next_transmission <= 500 + 5);
    service.transition_to_main(600);
    assert_eq!(service.timer.phase, ServicePhase::Main);
}

#[test]
fn find_replies_are_timed_and_released_in_order() {
    assert_eq!(reply_time(1000, 10, 100, 5), 1015);
    assert_eq!(reply_time(1000, 10, 100, 95), 1015);
    for r in [0u64, 1, 89, 90, u64::MAX] {
        let t = reply_time(1000, 10, 100, r);
        assert!(t >= 1010 && t < 1100);
    }
    let mut queue = vec![
        (50u64, offer_entry(1), vec![]),
        (10u64, offer_entry(2), vec![]),
        (70u64, offer_entry(3), vec![]),
        (30u64, offer_entry(4), vec![]),
    ];
    let due = take_due(&mut queue, 40);
    assert_eq!(due.iter().map(|d| d.0.ttl).collect::<Vec<_>>(), vec![2, 4]);
    assert_eq!(queue.iter().map(|d| d.1.ttl).collect::<Vec<_>>(), vec![1, 3]);
}

#[test]
fn options_round_trip() {
    let opts = vec![
        SdOption::Ipv4Endpoint { address: [10, 0, 0, 1], transport_proto: 0x06, port: 1 },
        SdOption::Ipv6Endpoint { address: [9; 16], transport_proto: 0x11, port: 65535 },
        SdOption::Configuration { config_string: "a=\u{e9}".to_string() },
        SdOption::LoadBalancing { priority: 3, weight: 4 },
        SdOption::Unknown { length: 2, type_id: 0x77, data: vec![1, 2] },
    ];
    for o in &opts {
        let mut buf = Vec::new();
        o.serialize(&mut buf).unwrap();
        assert_eq!(buf.len(), 3 + u16::from_be_bytes([buf[0], buf[1]]) as usize);
        assert_eq!(buf[2], o.type_id());
        let mut reader = WireReader::new(buf.clone());
        assert_eq!(&SdOption::deserialize(&mut reader).unwrap(), o);
        assert_eq!(reader.pos, buf.len());
    }
}

#[test]
fn offer_registers_versions_ttl_and_options() {
    let mut sd = ServiceDiscovery::new();
    let opts = vec![SdOption::Ipv4Endpoint { address: [127, 0, 0, 1], transport_proto: 0x11, port: 30501 }];
    let e = SdEntry { number_of_opts_1: 1, major_version: 1, minor_version: 0, ttl: 77, ..offer_entry(77) };
    let packet = SdPacket { flags: 0, entries: vec![e], options: opts };
    sd.handle_incoming_packet(&packet, 1234);
    let r = sd.find_service(0x1234, 1).unwrap();
    assert_eq!((r.version_major, r.version_minor, r.ttl, r.last_seen), (1, 0, 77, 1234));
    assert_eq!(r.endpoint, packet.options);
    let expected = Some((Endpoint { ip: IpAddress::V4([127, 0, 0, 1]), port: 30501 }, 0x11));
    assert_eq!(sd.get_service(0x1234, 0xFFFF), expected);
    assert_eq!(sd.get_service(0x1234, 1), expected);
}

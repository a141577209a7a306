use butterfly::envelope::RumorEnvelope;
use butterfly::error::Error;
use butterfly::frame::{peek_sender, Frame};
use butterfly::member::{Health, Member, Membership};
use butterfly::rumor::{
    Departure, Election, ElectionStatus, Rumor, RumorType, Service, ServiceConfig, ServiceFile,
};
use butterfly::wire::{put_prefixed, put_u32, put_u64, read_prefixed, read_u32, read_u64, same_bytes};

fn round_trip(kind: Rumor) -> RumorEnvelope {
    let envelope = RumorEnvelope { from_id: b"alpha".to_vec(), kind };
    let bytes = envelope.encode().expect("small envelopes have a written form");
    let back = RumorEnvelope::decode(&bytes).expect("what was written is read");
    assert_eq!(back.from_id, b"alpha".to_vec());
    assert_eq!(back.encode().unwrap(), bytes);
    back
}

#[test]
fn integers_are_little_endian() {
    let mut out = Vec::new();
    put_u32(&mut out, 0x0102_0304);
    put_u64(&mut out, 0x0102_0304_0506_0708);
    assert_eq!(out, vec![4, 3, 2, 1, 8, 7, 6, 5, 4, 3, 2, 1]);
    assert_eq!(read_u32(&out, 0), Some((0x0102_0304, 4)));
    assert_eq!(read_u64(&out, 4), Some((0x0102_0304_0506_0708, 12)));
    assert_eq!(read_u32(&out, 9), None);
    assert_eq!(read_u64(&out, 5), None);
}

#[test]
fn byte_strings_carry_their_length() {
    let mut out = vec![0xff];
    put_prefixed(&mut out, b"abc");
    assert_eq!(out, vec![0xff, 3, 0, 0, 0, b'a', b'b', b'c']);
    assert_eq!(read_prefixed(&out, 1), Some((b"abc".to_vec(), 8)));
    // The prefix announces more than there is.
    assert_eq!(read_prefixed(&[4, 0, 0, 0, 1, 2, 3], 0), None);
    assert_eq!(read_prefixed(&[4, 0, 0], 0), None);
    assert!(same_bytes(b"abc", b"abc"));
    assert!(!same_bytes(b"abc", b"abd"));
    assert!(!same_bytes(b"abc", b"ab"));
}

#[test]
fn departure_round_trips() {
    let envelope = RumorEnvelope {
        from_id: b"alpha".to_vec(),
        kind: Rumor::Departure(Departure { member_id: b"beta".to_vec() }),
    };
    let bytes = envelope.encode().unwrap();
    let back = RumorEnvelope::decode(&bytes).unwrap();
    assert_eq!(back.from_id, b"alpha".to_vec());
    match &back.kind {
        Rumor::Departure(d) => assert_eq!(d.member_id, b"beta".to_vec()),
        _ => panic!("another kind came back"),
    }
    assert_eq!(back.encode().unwrap(), bytes);
}

#[test]
fn a_departure_has_this_written_form() {
    let envelope = RumorEnvelope {
        from_id: b"a".to_vec(),
        kind: Rumor::Departure(Departure { member_id: b"b".to_vec() }),
    };
    let expected: Vec<u8> = vec![
        1, 7, // wire version, tag
        22, 0, 0, 0, // length of the body
        1, 0, 0, 0, b'a', // sender
        1, 0, 0, 0, b'b', // key: the member
        0, 0, 0, 0, 0, 0, 0, 0, // version
        0, 0, 0, 0, // payload
    ];
    assert_eq!(envelope.encode().unwrap(), expected);
    assert_eq!(peek_sender(&expected), Some(b"a".to_vec()));
}

#[test]
fn a_service_config_has_this_written_form() {
    let envelope = RumorEnvelope {
        from_id: b"me".to_vec(),
        kind: Rumor::ServiceConfig(ServiceConfig {
            service_group: b"w.prod".to_vec(),
            incarnation: 258,
            encrypted: true,
            config: b"x=1".to_vec(),
        }),
    };
    let expected: Vec<u8> = vec![
        1, 3, 32, 0, 0, 0, //
        2, 0, 0, 0, b'm', b'e', //
        6, 0, 0, 0, b'w', b'.', b'p', b'r', b'o', b'd', //
        2, 1, 0, 0, 0, 0, 0, 0, //
        4, 0, 0, 0, 1, b'x', b'=', b'1',
    ];
    assert_eq!(envelope.encode().unwrap(), expected);
}

#[test]
fn every_kind_round_trips() {
    match round_trip(Rumor::Membership(Membership {
        member: Member { id: b"m1".to_vec(), address: b"10.0.0.1:9638".to_vec(), incarnation: 7 },
        health: Health::Suspect,
    }))
    .kind
    {
        Rumor::Membership(m) => {
            assert_eq!(m.member.id, b"m1".to_vec());
            assert_eq!(m.member.address, b"10.0.0.1:9638".to_vec());
            assert_eq!(m.member.incarnation, 7);
            assert_eq!(m.health, Health::Suspect);
        }
        _ => panic!("another kind came back"),
    }
    match round_trip(Rumor::Service(Service {
        member_id: b"m1".to_vec(),
        service_group: b"witcher.prod".to_vec(),
        incarnation: 3,
        body: b"core/witcher/1.2.3/20161208121212".to_vec(),
    }))
    .kind
    {
        Rumor::Service(s) => {
            assert_eq!(s.member_id, b"m1".to_vec());
            assert_eq!(s.service_group, b"witcher.prod".to_vec());
            assert_eq!(s.incarnation, 3);
            assert_eq!(s.body, b"core/witcher/1.2.3/20161208121212".to_vec());
        }
        _ => panic!("another kind came back"),
    }
    match round_trip(Rumor::ServiceConfig(ServiceConfig {
        service_group: b"witcher.prod".to_vec(),
        incarnation: 1,
        encrypted: false,
        config: b"tcp-backlog = 128".to_vec(),
    }))
    .kind
    {
        Rumor::ServiceConfig(c) => {
            assert_eq!(c.service_group, b"witcher.prod".to_vec());
            assert_eq!(c.incarnation, 1);
            assert!(!c.encrypted);
            assert_eq!(c.config, b"tcp-backlog = 128".to_vec());
        }
        _ => panic!("another kind came back"),
    }
    match round_trip(Rumor::ServiceFile(ServiceFile {
        service_group: b"witcher.prod".to_vec(),
        incarnation: 9,
        encrypted: true,
        filename: b"yep".to_vec(),
        body: vec![0, 1, 2, 255],
    }))
    .kind
    {
        Rumor::ServiceFile(f) => {
            assert_eq!(f.service_group, b"witcher.prod".to_vec());
            assert_eq!(f.incarnation, 9);
            assert!(f.encrypted);
            assert_eq!(f.filename, b"yep".to_vec());
            assert_eq!(f.body, vec![0, 1, 2, 255]);
        }
        _ => panic!("another kind came back"),
    }
    let ballot = Election {
        service_group: b"witcher.prod".to_vec(),
        member_id: b"m2".to_vec(),
        term: 4,
        suffrage: 0x0102030405060708,
        status: ElectionStatus::Finished,
    };
    match round_trip(Rumor::Election(ballot.clone())).kind {
        Rumor::Election(e) => {
            assert_eq!(e.service_group, b"witcher.prod".to_vec());
            assert_eq!(e.member_id, b"m2".to_vec());
            assert_eq!(e.term, 4);
            assert_eq!(e.suffrage, 0x0102030405060708);
            assert_eq!(e.status, ElectionStatus::Finished);
        }
        _ => panic!("another kind came back"),
    }
    match round_trip(Rumor::ElectionUpdate(ballot)).kind {
        Rumor::ElectionUpdate(e) => assert_eq!(e.status, ElectionStatus::Finished),
        _ => panic!("another kind came back"),
    }
}

#[test]
fn garbage_does_not_decode() {
    assert_eq!(RumorEnvelope::decode(&[]).err(), Some(Error::MalformedEnvelope));
    assert_eq!(RumorEnvelope::decode(&[9, 9, 9]).err(), Some(Error::MalformedEnvelope));
    let noise: Vec<u8> = (0..200u32).map(|i| (i * 37 % 251) as u8).collect();
    for end in 0..noise.len() {
        assert_eq!(RumorEnvelope::decode(&noise[..end]).err(), Some(Error::MalformedEnvelope));
    }
}

fn departure_bytes() -> Vec<u8> {
    RumorEnvelope {
        from_id: b"a".to_vec(),
        kind: Rumor::Departure(Departure { member_id: b"b".to_vec() }),
    }
    .encode()
    .unwrap()
}

#[test]
fn every_cut_of_a_datagram_is_refused() {
    let bytes = departure_bytes();
    for end in 0..bytes.len() {
        assert_eq!(RumorEnvelope::decode(&bytes[..end]).err(), Some(Error::MalformedEnvelope));
    }
    let mut longer = bytes.clone();
    longer.push(0);
    assert_eq!(RumorEnvelope::decode(&longer).err(), Some(Error::MalformedEnvelope));
}

#[test]
fn another_wire_version_is_refused() {
    let mut bytes = departure_bytes();
    bytes[0] = 2;
    assert_eq!(RumorEnvelope::decode(&bytes).err(), Some(Error::MalformedEnvelope));
}

#[test]
fn a_tag_out_of_range_is_refused() {
    for tag in [0u8, 8, 9, 10, 11, 255] {
        let mut bytes = departure_bytes();
        bytes[1] = tag;
        assert_eq!(RumorEnvelope::decode(&bytes).err(), Some(Error::MalformedEnvelope));
    }
}

#[test]
fn a_payload_that_its_kind_does_not_write_is_refused() {
    let frame = |tag: u8, version: u64, payload: Vec<u8>| Frame {
        tag,
        from_id: b"a".to_vec(),
        key: b"k".to_vec(),
        version,
        payload,
    };
    let refused = |f: Frame| {
        let bytes = f.emit().unwrap();
        assert_eq!(RumorEnvelope::decode(&bytes).err(), Some(Error::MalformedEnvelope));
    };
    // Membership: no health, or a health that is none.
    refused(frame(1, 0, vec![]));
    refused(frame(1, 0, vec![4]));
    // Service: the member id is cut short.
    refused(frame(2, 0, vec![5, 0, 0, 0, b'x']));
    // Service configuration: no flag, or a flag that is none.
    refused(frame(3, 0, vec![]));
    refused(frame(3, 0, vec![2]));
    // Service file: the file name is cut short.
    refused(frame(4, 0, vec![0, 9, 0, 0, 0]));
    refused(frame(4, 0, vec![7, 0, 0, 0, 0]));
    // Election: too short for status and suffrage, or a status that is none.
    refused(frame(5, 0, vec![0, 1, 2, 3]));
    refused(frame(6, 0, vec![3, 0, 0, 0, 0, 0, 0, 0, 0]));
    // Departure: a version or a payload.
    refused(frame(7, 1, vec![]));
    refused(frame(7, 0, vec![0]));
}

#[test]
fn fields_behind_the_payload_are_passed_over() {
    let mut bytes = departure_bytes();
    // A later writer has put four more bytes into the body.
    bytes.extend_from_slice(&[0xde, 0xad, 0xbe, 0xef]);
    bytes[2] = 26;
    let back = RumorEnvelope::decode(&bytes).expect("the known fields are all there");
    match &back.kind {
        Rumor::Departure(d) => assert_eq!(d.member_id, b"b".to_vec()),
        _ => panic!("another kind came back"),
    }
    assert_eq!(back.encode().unwrap(), departure_bytes());
}

#[test]
fn the_length_in_the_header_must_be_the_length_of_the_body() {
    let mut bytes = departure_bytes();
    bytes[2] = 21;
    assert_eq!(Frame::parse(&bytes).err(), Some(Error::MalformedEnvelope));
    bytes[2] = 23;
    assert_eq!(Frame::parse(&bytes).err(), Some(Error::MalformedEnvelope));
}

#[test]
fn a_frame_is_taken_apart_as_it_was_put_together() {
    let frame = Frame {
        tag: 2,
        from_id: b"from".to_vec(),
        key: b"key".to_vec(),
        version: 99,
        payload: vec![1, 2, 3],
    };
    let bytes = frame.emit().unwrap();
    assert_eq!(bytes.len(), 6 + 20 + 4 + 3 + 3);
    let back = Frame::parse(&bytes).unwrap();
    assert_eq!(back.tag, 2);
    assert_eq!(back.from_id, b"from".to_vec());
    assert_eq!(back.key, b"key".to_vec());
    assert_eq!(back.version, 99);
    assert_eq!(back.payload, vec![1, 2, 3]);
}

#[test]
fn tags_and_kinds_correspond() {
    let kinds = [
        RumorType::Member,
        RumorType::Service,
        RumorType::ServiceConfig,
        RumorType::ServiceFile,
        RumorType::Election,
        RumorType::ElectionUpdate,
        RumorType::Departure,
    ];
    for (i, kind) in kinds.iter().enumerate() {
        assert_eq!(kind.to_byte(), i as u8 + 1);
        assert_eq!(RumorType::from_byte(i as u8 + 1), Some(*kind));
    }
    assert_eq!(RumorType::from_byte(0), None);
    assert_eq!(RumorType::from_byte(8), None);
    assert_eq!(Health::from_byte(3), Some(Health::Departed));
    assert_eq!(Health::from_byte(4), None);
    assert_eq!(Health::Confirmed.to_byte(), 2);
    assert!(Health::Departed.outranks(Health::Confirmed));
    assert!(Health::Confirmed.outranks(Health::Suspect));
    assert!(Health::Suspect.outranks(Health::Alive));
    assert!(!Health::Alive.outranks(Health::Alive));
    assert_eq!(ElectionStatus::from_byte(1), Some(ElectionStatus::NoQuorum));
    assert_eq!(ElectionStatus::from_byte(3), None);
}

use butterfly::dat_file::{dump, load, DatFile, Listing, Stats};
use butterfly::error::Error;
use butterfly::member::{Health, Member};
use butterfly::rumor::{
    Departure, Election, ElectionStatus, Rumor, RumorType, Service, ServiceConfig, ServiceFile,
};
use butterfly::server::Server;

fn member(id: &str, incarnation: u64) -> Member {
    Member { id: id.as_bytes().to_vec(), address: b"10.0.0.1:9638".to_vec(), incarnation }
}

fn busy_node() -> Server {
    let mut server = Server::new(member("me", 3));
    server.insert_member(member("a", 1), Health::Alive);
    server.insert_member(member("b", 2), Health::Suspect);
    server.insert_member(member("c", 5), Health::Confirmed);
    server.insert_departure(Departure { member_id: b"d".to_vec() });
    for (who, group) in [("a", "witcher.prod"), ("b", "witcher.prod"), ("a", "redis.prod")] {
        server.insert_service(Service {
            member_id: who.as_bytes().to_vec(),
            service_group: group.as_bytes().to_vec(),
            incarnation: 7,
            body: b"body".to_vec(),
        });
    }
    server.insert_service_config(ServiceConfig {
        service_group: b"witcher.prod".to_vec(),
        incarnation: 4,
        encrypted: true,
        config: b"tcp-backlog = 128".to_vec(),
    });
    server.insert_service_file(ServiceFile {
        service_group: b"witcher.prod".to_vec(),
        incarnation: 2,
        encrypted: false,
        filename: b"a.toml".to_vec(),
        body: vec![1, 2, 3],
    });
    let ballot = Election {
        service_group: b"witcher.prod".to_vec(),
        member_id: b"a".to_vec(),
        term: 2,
        suffrage: 1,
        status: ElectionStatus::Running,
    };
    server.insert_election(ballot.clone());
    server.insert_update_election(ballot);
    server
}

fn assert_same_content(a: &Server, b: &Server) {
    let mut left = a.member_list().members();
    let mut right = b.member_list().members();
    left.sort_by(|x, y| x.member.id.cmp(&y.member.id));
    right.sort_by(|x, y| x.member.id.cmp(&y.member.id));
    assert_eq!(left.len(), right.len());
    for (x, y) in left.iter().zip(right.iter()) {
        assert_eq!(x.member.id, y.member.id);
        assert_eq!(x.member.address, y.member.address);
        assert_eq!(x.member.incarnation, y.member.incarnation);
        assert_eq!(x.health, y.health);
    }
    let stores = [
        (a.service_store(), b.service_store()),
        (a.service_config_store(), b.service_config_store()),
        (a.service_file_store(), b.service_file_store()),
        (a.election_store(), b.election_store()),
        (a.update_store(), b.update_store()),
        (a.departure_store(), b.departure_store()),
    ];
    for (x, y) in stores {
        assert_eq!(x.len(), y.len());
        for rumor in x.list() {
            let other = y.get(&rumor.group(), &rumor.id()).expect("the same identities");
            assert_eq!(other.version(), rumor.version());
            assert_eq!(format!("{:?}", other), format!("{:?}", rumor));
        }
    }
}

#[test]
fn an_empty_node_has_this_snapshot() {
    let server = Server::new(member("m", 0));
    let bytes = dump(&server).unwrap();
    // Header, one membership record, six empty sections.
    assert_eq!(&bytes[..8], &[1, 0, 0, 0, 7, 0, 0, 0]);
    assert_eq!(&bytes[8..12], &[1, 0, 0, 0]);
    assert_eq!(&bytes[bytes.len() - 24..], &[0u8; 24]);
    let record_len = u32::from_le_bytes([bytes[12], bytes[13], bytes[14], bytes[15]]) as usize;
    assert_eq!(bytes.len(), 8 + 4 + 4 + record_len + 24);
}

#[test]
fn a_snapshot_read_into_a_fresh_node_gives_the_same_content() {
    let source = busy_node();
    let bytes = dump(&source).unwrap();
    let mut target = Server::new(member("me", 0));
    assert_eq!(load(&mut target, &bytes), Ok(()));
    assert_same_content(&source, &target);
    assert_eq!(target.member_list().health_of(b"d"), Some(Health::Departed));
    assert_eq!(target.member_list().health_of(b"c"), Some(Health::Confirmed));
    assert_eq!(target.member_list().get(b"me").unwrap().member.incarnation, 3);
}

#[test]
fn a_snapshot_read_into_its_own_node_changes_nothing() {
    let mut server = busy_node();
    let before = dump(&server).unwrap();
    let counters = (
        server.member_list().get_update_counter(),
        server.service_store().get_update_counter(),
        server.departure_store().get_update_counter(),
    );
    assert_eq!(load(&mut server, &before), Ok(()));
    assert_eq!(dump(&server).unwrap(), before);
    assert_eq!(
        counters,
        (
            server.member_list().get_update_counter(),
            server.service_store().get_update_counter(),
            server.departure_store().get_update_counter(),
        )
    );
}

#[test]
fn a_stale_snapshot_does_not_undo_fresher_gossip() {
    let old = busy_node();
    let bytes = dump(&old).unwrap();
    let mut fresh = busy_node();
    fresh.insert_service_config(ServiceConfig {
        service_group: b"witcher.prod".to_vec(),
        incarnation: 9,
        encrypted: false,
        config: b"fresher".to_vec(),
    });
    fresh.insert_member(member("a", 8), Health::Alive);
    assert_eq!(load(&mut fresh, &bytes), Ok(()));
    match fresh.service_config_store().get(b"witcher.prod", &ServiceConfig::const_id()) {
        Some(Rumor::ServiceConfig(c)) => assert_eq!(c.config, b"fresher".to_vec()),
        _ => panic!("no configuration is stored"),
    }
    assert_eq!(fresh.member_list().get(b"a").unwrap().member.incarnation, 8);
}

#[test]
fn the_reader_counts_what_a_snapshot_holds() {
    let bytes = dump(&busy_node()).unwrap();
    let file = DatFile::read(&bytes).unwrap();
    assert_eq!(
        file.stats(),
        Stats {
            membership: 5,
            services: 3,
            service_configs: 1,
            service_files: 1,
            elections: 1,
            update_elections: 1,
            departures: 1,
        }
    );
    assert_eq!(file.read_members().len(), 5);
    assert_eq!(file.read_rumors(RumorType::Service).len(), 3);
    assert_eq!(file.read_rumors(RumorType::Departure).len(), 1);
    for rumor in file.read_rumors(RumorType::ServiceFile) {
        assert_eq!(rumor.kind(), RumorType::ServiceFile);
    }
    assert_eq!(file.write(b"me").unwrap(), bytes);
}

#[test]
fn sections_come_in_the_order_of_the_tags() {
    let file = DatFile::read(&dump(&busy_node()).unwrap()).unwrap();
    let kinds = [
        RumorType::Service,
        RumorType::ServiceConfig,
        RumorType::ServiceFile,
        RumorType::Election,
        RumorType::ElectionUpdate,
        RumorType::Departure,
    ];
    for kind in kinds {
        let section = file.read_rumors(kind);
        assert!(!section.is_empty());
        for rumor in section {
            assert_eq!(rumor.kind(), kind);
        }
    }
    for rumor in file.read_rumors(RumorType::Member) {
        assert_eq!(rumor.kind(), RumorType::Member);
    }
}

#[test]
fn bytes_without_a_header_are_refused() {
    assert_eq!(DatFile::read(&[]).err(), Some(Error::BadSnapshotHeader));
    assert_eq!(DatFile::read(&[1, 0, 0, 0, 7, 0, 0]).err(), Some(Error::BadSnapshotHeader));
    // A header that announces six sections.
    assert_eq!(DatFile::read(&[1, 0, 0, 0, 6, 0, 0, 0]).err(), Some(Error::BadSnapshotHeader));
}

#[test]
fn another_format_version_is_refused() {
    let mut bytes = dump(&busy_node()).unwrap();
    bytes[0] = 2;
    assert_eq!(DatFile::read(&bytes).err(), Some(Error::UnsupportedSnapshotVersion));
    let mut server = Server::new(member("me", 0));
    assert_eq!(load(&mut server, &bytes), Err(Error::UnsupportedSnapshotVersion));
    assert_eq!(server.member_list().members().len(), 1);
}

#[test]
fn a_snapshot_that_is_cut_or_padded_is_refused() {
    let bytes = dump(&busy_node()).unwrap();
    for end in 8..bytes.len() {
        assert_eq!(DatFile::read(&bytes[..end]).err(), Some(Error::MalformedSnapshot));
    }
    let mut padded = bytes.clone();
    padded.push(0);
    assert_eq!(DatFile::read(&padded).err(), Some(Error::MalformedSnapshot));
}

#[test]
fn a_record_in_the_wrong_section_is_refused() {
    let server = Server::new(member("m", 0));
    let mut bytes = dump(&server).unwrap();
    // The one record, a membership rumor, is given the tag of a departure.
    assert_eq!(bytes[17], 1);
    bytes[17] = 7;
    assert_eq!(DatFile::read(&bytes).err(), Some(Error::MalformedSnapshot));
}

fn counts(listing: &Listing) -> Vec<usize> {
    listing.sections.iter().map(|s| s.len()).collect()
}

#[test]
fn a_snapshot_that_reads_is_listed_in_full() {
    let bytes = dump(&busy_node()).unwrap();
    let listing = DatFile::list(&bytes);
    assert_eq!(listing.error, None);
    assert_eq!(counts(&listing), vec![5, 3, 1, 1, 1, 1, 1]);
    for (index, section) in listing.sections.iter().enumerate() {
        for rumor in section {
            assert_eq!(rumor.kind().to_byte() as usize, index + 1);
        }
    }
}

#[test]
fn the_sections_in_front_of_the_damage_are_listed() {
    let bytes = dump(&busy_node()).unwrap();
    // Cut in the last record: every section but that of the departures reads.
    let cut = DatFile::list(&bytes[..bytes.len() - 1]);
    assert_eq!(cut.error, Some(Error::MalformedSnapshot));
    assert_eq!(counts(&cut), vec![5, 3, 1, 1, 1, 1]);
    // Cut behind the header: nothing reads.
    let bare = DatFile::list(&bytes[..8]);
    assert_eq!(bare.error, Some(Error::MalformedSnapshot));
    assert_eq!(counts(&bare), Vec::<usize>::new());
    // Cut somewhere in the services: the members are listed, the rest is not.
    let members_end = 8 + 4 + {
        let mut at = 12;
        for _ in 0..5 {
            let len = u32::from_le_bytes([bytes[at], bytes[at + 1], bytes[at + 2], bytes[at + 3]]);
            at += 4 + len as usize;
        }
        at - 12
    };
    let some = DatFile::list(&bytes[..members_end + 9]);
    assert_eq!(some.error, Some(Error::MalformedSnapshot));
    assert_eq!(counts(&some), vec![5]);
    for end in 8..bytes.len() {
        let listing = DatFile::list(&bytes[..end]);
        assert_eq!(listing.error, DatFile::read(&bytes[..end]).err());
        assert!(listing.sections.len() < 7);
    }
}

#[test]
fn bytes_behind_the_last_section_leave_all_sections_listed() {
    let mut bytes = dump(&busy_node()).unwrap();
    bytes.push(0);
    let listing = DatFile::list(&bytes);
    assert_eq!(listing.error, Some(Error::MalformedSnapshot));
    assert_eq!(counts(&listing), vec![5, 3, 1, 1, 1, 1, 1]);
}

#[test]
fn nothing_is_listed_of_a_file_without_a_header_in_order() {
    let mut bytes = dump(&busy_node()).unwrap();
    bytes[0] = 9;
    let listing = DatFile::list(&bytes);
    assert_eq!(listing.error, Some(Error::UnsupportedSnapshotVersion));
    assert!(listing.sections.is_empty());
    let short = DatFile::list(&[1, 0, 0]);
    assert_eq!(short.error, Some(Error::BadSnapshotHeader));
    assert!(short.sections.is_empty());
}

#[test]
fn a_departure_read_back_makes_its_member_departed() {
    // The snapshot of a node that saw the member at incarnation 3 depart.
    let mut old = Server::new(member("me", 0));
    old.insert_member(member("a", 3), Health::Alive);
    old.insert_departure(Departure { member_id: b"a".to_vec() });
    let bytes = dump(&old).unwrap();
    // It is read into a node that knows the member at incarnation 5, alive.
    let mut fresh = Server::new(member("me", 0));
    fresh.insert_member(member("a", 5), Health::Alive);
    assert_eq!(load(&mut fresh, &bytes), Ok(()));
    assert!(fresh.departure_store().contains_id(b"a"));
    let record = fresh.member_list().get(b"a").unwrap();
    assert_eq!(record.health, Health::Departed);
    assert_eq!(record.member.incarnation, 5);
    // Nothing that comes in later changes that.
    assert_eq!(
        fresh.insert_member_from_rumor(member("a", 9), Health::Alive),
        butterfly::store::InsertOutcome::Stale
    );
    assert_eq!(fresh.member_list().health_of(b"a"), Some(Health::Departed));
    // The same departure, live: stale, and the table is as it was.
    let counter = fresh.member_list().get_update_counter();
    assert_eq!(
        fresh.insert_departure(Departure { member_id: b"a".to_vec() }),
        butterfly::store::InsertOutcome::Stale
    );
    assert_eq!(fresh.member_list().get_update_counter(), counter);
    assert_eq!(fresh.member_list().get(b"a").unwrap().member.incarnation, 5);
}

#[test]
fn a_single_departure_read_back_leaves_a_tombstone() {
    let mut server = Server::new(member("me", 0));
    server.restore(Rumor::Departure(Departure { member_id: b"ghost".to_vec() }));
    assert!(server.departure_store().contains_id(b"ghost"));
    assert_eq!(server.member_list().health_of(b"ghost"), Some(Health::Departed));
}

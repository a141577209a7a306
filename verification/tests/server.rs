use butterfly::envelope::RumorEnvelope;
use butterfly::member::{Health, Member, Membership};
use butterfly::pull::{Dispatched, Pull, Received};
use butterfly::push::{outbound, peers, recent_rumors, select_targets};
use butterfly::rumor::{Departure, Rumor, RumorType, Service, ServiceConfig};
use butterfly::server::Server;
use butterfly::store::InsertOutcome;

fn member(id: &str, incarnation: u64) -> Member {
    Member {
        id: id.as_bytes().to_vec(),
        address: format!("{}.example:9638", id).into_bytes(),
        incarnation,
    }
}

fn node(id: &str) -> Pull {
    Pull::new(Server::new(member(id, 0)))
}

fn config(incarnation: u64, text: &str) -> ServiceConfig {
    ServiceConfig {
        service_group: b"witcher.prod".to_vec(),
        incarnation,
        encrypted: false,
        config: text.as_bytes().to_vec(),
    }
}

fn datagram(from: &str, kind: Rumor) -> Vec<u8> {
    RumorEnvelope { from_id: from.as_bytes().to_vec(), kind }.encode().unwrap()
}

fn stored_config(server: &Server) -> Vec<u8> {
    match server.service_config_store().get(b"witcher.prod", &ServiceConfig::const_id()) {
        Some(Rumor::ServiceConfig(c)) => c.config,
        _ => panic!("no configuration is stored"),
    }
}

#[test]
fn a_node_starts_knowing_itself() {
    let server = Server::new(member("me", 0));
    assert_eq!(server.member_id(), &b"me".to_vec());
    assert_eq!(server.gossip_addr(), &b"me.example:9638".to_vec());
    assert_eq!(server.member().incarnation, 0);
    assert!(!server.paused());
    assert_eq!(server.member_list().health_of(b"me"), Some(Health::Alive));
    assert_eq!(server.member_list().members().len(), 1);
    assert_eq!(server.service_store().len(), 0);
    assert_eq!(server.service_config_store().len(), 0);
    assert_eq!(server.service_file_store().len(), 0);
    assert_eq!(server.election_store().len(), 0);
    assert_eq!(server.update_store().len(), 0);
    assert_eq!(server.departure_store().len(), 0);
    assert!(!server.is_member_blocked(b"anyone"));
}

#[test]
fn a_rumor_goes_to_the_store_of_its_kind() {
    let mut pull = node("me");
    let received = pull.receive(&datagram("peer", Rumor::ServiceConfig(config(1, "a"))));
    assert_eq!(
        received,
        Received::Merged { kind: RumorType::ServiceConfig, outcome: InsertOutcome::Applied }
    );
    assert_eq!(stored_config(&pull.server), b"a".to_vec());
    let again = pull.receive(&datagram("peer", Rumor::ServiceConfig(config(1, "a"))));
    assert_eq!(
        again,
        Received::Merged { kind: RumorType::ServiceConfig, outcome: InsertOutcome::Stale }
    );
    assert_eq!(pull.server.service_store().len(), 0);
}

#[test]
fn a_blocked_sender_is_dropped_even_with_newer_rumors() {
    let mut pull = node("me");
    pull.receive(&datagram("peer", Rumor::ServiceConfig(config(1, "kept"))));
    pull.server.block_member(b"peer");
    assert!(pull.server.is_member_blocked(b"peer"));
    let received = pull.receive(&datagram("peer", Rumor::ServiceConfig(config(2, "newer"))));
    assert_eq!(received, Received::Blocked);
    assert_eq!(stored_config(&pull.server), b"kept".to_vec());
    // The same rumor from a sender that is not blocked is taken.
    let other = pull.receive(&datagram("other", Rumor::ServiceConfig(config(2, "newer"))));
    assert_eq!(
        other,
        Received::Merged { kind: RumorType::ServiceConfig, outcome: InsertOutcome::Applied }
    );
    pull.server.unblock_member(b"peer");
    assert!(!pull.server.is_member_blocked(b"peer"));
    let later = pull.receive(&datagram("peer", Rumor::ServiceConfig(config(3, "latest"))));
    assert_eq!(
        later,
        Received::Merged { kind: RumorType::ServiceConfig, outcome: InsertOutcome::Applied }
    );
}

#[test]
fn a_blocked_sender_is_dropped_before_its_datagram_is_decoded() {
    let mut pull = node("me");
    pull.server.block_member(b"peer");
    let mut bytes = datagram("peer", Rumor::Departure(Departure { member_id: b"x".to_vec() }));
    // What follows the sender is made unreadable: an unknown tag.
    bytes[1] = 200;
    assert_eq!(pull.receive(&bytes), Received::Blocked);
    pull.server.unblock_member(b"peer");
    assert_eq!(pull.receive(&bytes), Received::Undecodable);
}

#[test]
fn garbage_is_counted_and_dropped() {
    let mut pull = node("me");
    assert_eq!(pull.receive(&[]), Received::Undecodable);
    assert_eq!(pull.receive(&[1, 2, 3, 4, 5, 6, 7, 8]), Received::Undecodable);
    assert_eq!(pull.receive(b"not a datagram at all"), Received::Undecodable);
    assert_eq!(pull.server.member_list().members().len(), 1);
}

#[test]
fn a_node_that_stands_still_takes_nothing() {
    let mut pull = node("me");
    pull.server.pause();
    assert!(pull.server.paused());
    let bytes = datagram("peer", Rumor::ServiceConfig(config(1, "a")));
    assert_eq!(pull.receive(&bytes), Received::Paused);
    assert_eq!(pull.server.service_config_store().len(), 0);
    pull.server.resume();
    assert!(!pull.server.paused());
    assert_eq!(
        pull.receive(&bytes),
        Received::Merged { kind: RumorType::ServiceConfig, outcome: InsertOutcome::Applied }
    );
}

#[test]
fn a_departure_marks_the_member_departed_for_good() {
    let mut pull = node("me");
    pull.server.insert_member(member("peer", 4), Health::Alive);
    let gone = datagram("other", Rumor::Departure(Departure { member_id: b"peer".to_vec() }));
    assert_eq!(
        pull.receive(&gone),
        Received::Merged { kind: RumorType::Departure, outcome: InsertOutcome::Applied }
    );
    assert_eq!(pull.server.member_list().health_of(b"peer"), Some(Health::Departed));
    assert!(pull.server.departure_store().contains_id(b"peer"));
    for incarnation in [0, 4, 5, 10_000] {
        let alive = datagram(
            "peer",
            Rumor::Membership(Membership { member: member("peer", incarnation), health: Health::Alive }),
        );
        assert_eq!(
            pull.receive(&alive),
            Received::Merged { kind: RumorType::Member, outcome: InsertOutcome::Stale }
        );
        assert_eq!(pull.server.member_list().health_of(b"peer"), Some(Health::Departed));
    }
    assert_eq!(
        pull.receive(&gone),
        Received::Merged { kind: RumorType::Departure, outcome: InsertOutcome::Stale }
    );
}

#[test]
fn a_node_that_is_suspected_moves_to_the_next_incarnation() {
    let mut server = Server::new(member("me", 2));
    let outcome = server.insert_member_from_rumor(member("me", 2), Health::Suspect);
    assert_eq!(outcome, InsertOutcome::Applied);
    assert_eq!(server.member().incarnation, 3);
    let record = server.member_list().get(b"me").unwrap();
    assert_eq!(record.health, Health::Alive);
    assert_eq!(record.member.incarnation, 3);
    // A suspicion of a later incarnation is refuted past that incarnation.
    assert_eq!(
        server.insert_member_from_rumor(member("me", 7), Health::Confirmed),
        InsertOutcome::Applied
    );
    assert_eq!(server.member().incarnation, 8);
    // One of an incarnation that is over needs no answer, nor does good news.
    assert_eq!(
        server.insert_member_from_rumor(member("me", 5), Health::Suspect),
        InsertOutcome::Stale
    );
    assert_eq!(server.insert_member_from_rumor(member("me", 9), Health::Alive), InsertOutcome::Stale);
    assert_eq!(server.member().incarnation, 8);
}

#[test]
fn a_node_that_has_departed_refutes_nothing() {
    let mut server = Server::new(member("me", 2));
    server.insert_departure(Departure { member_id: b"me".to_vec() });
    assert_eq!(
        server.insert_member_from_rumor(member("me", 2), Health::Suspect),
        InsertOutcome::Stale
    );
    assert_eq!(server.member().incarnation, 2);
    assert_eq!(server.member_list().health_of(b"me"), Some(Health::Departed));
}

#[test]
fn what_a_peer_says_of_another_is_merged() {
    let mut server = Server::new(member("me", 0));
    assert_eq!(
        server.insert_member_from_rumor(member("peer", 1), Health::Suspect),
        InsertOutcome::Applied
    );
    assert_eq!(
        server.insert_member_from_rumor(member("peer", 2), Health::Alive),
        InsertOutcome::Applied
    );
    assert_eq!(server.member_list().health_of(b"peer"), Some(Health::Alive));
    assert_eq!(server.suspect(b"peer"), InsertOutcome::Applied);
    assert_eq!(server.confirm(b"peer"), InsertOutcome::Applied);
    assert_eq!(server.member_list().health_of(b"peer"), Some(Health::Confirmed));
}

#[test]
fn peers_are_all_but_the_node_and_the_departed() {
    let mut server = Server::new(member("me", 0));
    server.insert_member(member("a", 0), Health::Alive);
    server.insert_member(member("b", 0), Health::Suspect);
    server.insert_member(member("c", 0), Health::Confirmed);
    server.insert_member(member("d", 0), Health::Departed);
    let mut ids: Vec<Vec<u8>> = peers(&server).into_iter().map(|m| m.id).collect();
    ids.sort();
    assert_eq!(ids, vec![b"a".to_vec(), b"b".to_vec(), b"c".to_vec()]);
}

#[test]
fn a_sample_is_bounded_and_takes_nobody_twice() {
    let candidates: Vec<Member> = (0..10).map(|i| member(&format!("m{}", i), 0)).collect();
    for seed in 0..50u64 {
        let picks: Vec<u64> = (0..4).map(|i| seed.wrapping_mul(2654435761).wrapping_add(i * 97)).collect();
        let chosen = select_targets(&candidates, 4, &picks);
        assert_eq!(chosen.len(), 4);
        let mut ids: Vec<Vec<u8>> = chosen.iter().map(|m| m.id.clone()).collect();
        ids.sort();
        ids.dedup();
        assert_eq!(ids.len(), 4);
        for id in ids {
            assert!(candidates.iter().any(|c| c.id == id));
        }
    }
    assert_eq!(select_targets(&candidates, 25, &[1, 2, 3]).len(), 10);
    assert_eq!(select_targets(&candidates, 0, &[1, 2, 3]).len(), 0);
    assert_eq!(select_targets(&Vec::new(), 3, &[1, 2, 3]).len(), 0);
    // With no numbers to draw by, the first places are taken as they stand.
    let plain = select_targets(&candidates, 2, &[]);
    assert_eq!(plain[0].id, b"m0".to_vec());
    assert_eq!(plain[1].id, b"m1".to_vec());
    // The number 3 draws the fourth candidate into the first place.
    assert_eq!(select_targets(&candidates, 1, &[3])[0].id, b"m3".to_vec());
}

#[test]
fn a_round_pushes_what_has_changed_of_late() {
    let mut server = Server::new(member("me", 0));
    for i in 0..5 {
        server.insert_service(Service {
            member_id: format!("m{}", i).into_bytes(),
            service_group: b"witcher.prod".to_vec(),
            incarnation: 0,
            body: Vec::new(),
        });
    }
    server.insert_service_config(config(1, "a"));
    // Everything: five services, one configuration, the node's own record.
    assert_eq!(recent_rumors(&server, 100).len(), 7);
    // The last two updates of each store.
    let recent = recent_rumors(&server, 2);
    assert_eq!(recent.len(), 4);
    let services: Vec<Vec<u8>> = recent
        .iter()
        .filter_map(|r| match r {
            Rumor::Service(s) => Some(s.member_id.clone()),
            _ => None,
        })
        .collect();
    assert_eq!(services.len(), 2);
    assert!(services.contains(&b"m3".to_vec()));
    assert!(services.contains(&b"m4".to_vec()));
    assert_eq!(recent_rumors(&server, 0).len(), 0);
    let datagrams = outbound(&server, 2);
    assert_eq!(datagrams.len(), 4);
    for bytes in datagrams {
        let envelope = RumorEnvelope::decode(&bytes).unwrap();
        assert_eq!(envelope.from_id, b"me".to_vec());
    }
}

#[test]
fn what_one_node_pushes_the_other_holds() {
    let mut a = node("a");
    let mut b = node("b");
    a.server.insert_service(Service {
        member_id: b"a".to_vec(),
        service_group: b"witcher.prod".to_vec(),
        incarnation: 0,
        body: b"core/witcher".to_vec(),
    });
    for bytes in outbound(&a.server, 10) {
        match b.dispatch(&bytes) {
            Dispatched::Rumor(Received::Merged { .. }) => {}
            other => panic!("the datagram was not merged: {:?}", other),
        }
    }
    assert!(b.server.service_store().for_service_group(b"witcher.prod").contains_id(b"a"));
    assert_eq!(b.server.member_list().health_of(b"a"), Some(Health::Alive));
}

#[test]
fn what_was_just_taken_in_is_what_the_next_round_carries() {
    let mut server = Server::new(member("me", 0));
    for i in 0..300u64 {
        server.insert_service(Service {
            member_id: format!("m{}", i).into_bytes(),
            service_group: b"witcher.prod".to_vec(),
            incarnation: 0,
            body: Vec::new(),
        });
    }
    server.insert_departure(Departure { member_id: b"gone".to_vec() });
    server.insert_service_config(config(1, "a"));
    assert_eq!(server.service_store().get_update_counter(), 300);
    assert_eq!(server.departure_store().get_update_counter(), 1);
    assert_eq!(server.service_config_store().get_update_counter(), 1);
    // The smallest window: the last update of every store.
    let recent = recent_rumors(&server, 1);
    let mut kinds: Vec<u8> = recent.iter().map(|r| r.kind().to_byte()).collect();
    kinds.sort();
    // The tombstone of the departed member, the last service, the
    // configuration, the departure.
    assert_eq!(kinds, vec![1, 2, 3, 7]);
    for rumor in recent {
        match rumor {
            Rumor::Membership(m) => assert_eq!(m.member.id, b"gone".to_vec()),
            Rumor::Service(s) => assert_eq!(s.member_id, b"m299".to_vec()),
            Rumor::ServiceConfig(c) => assert_eq!(c.config, b"a".to_vec()),
            Rumor::Departure(d) => assert_eq!(d.member_id, b"gone".to_vec()),
            other => panic!("not of the last updates: {:?}", other),
        }
    }
    // A stale insert moves no counter.
    server.insert_service_config(config(1, "a"));
    server.suspect(b"nobody");
    assert_eq!(server.service_config_store().get_update_counter(), 1);
    assert_eq!(server.member_list().get_update_counter(), 2);
}

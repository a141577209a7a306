use butterfly::client::Client;
use butterfly::detector::{
    candidates, deadline, expire, ping, ping_req, react, relays, requests, Detector, Phase,
    ProbeList, Reaction, Suspicions, Timing, Verdict,
};
use butterfly::envelope::RumorEnvelope;
use butterfly::error::Error;
use butterfly::member::{Health, Member};
use butterfly::probe::{Message, Probe, ProbeKind};
use butterfly::pull::{Dispatched, Pull, Received};
use butterfly::rumor::{Rumor, RumorType};
use butterfly::server::Server;
use butterfly::store::InsertOutcome;

const TIMING: Timing = Timing { ping_ms: 1_000, pingreq_ms: 2_100, suspicion_ms: 30_000 };

fn member(id: &str) -> Member {
    Member {
        id: id.as_bytes().to_vec(),
        address: format!("{}.example:9638", id).into_bytes(),
        incarnation: 0,
    }
}

fn probe(kind: ProbeKind, from: &str, subject: &str, round: u64) -> Probe {
    Probe {
        kind,
        from_id: from.as_bytes().to_vec(),
        subject: subject.as_bytes().to_vec(),
        round,
        reply_to: format!("{}.example:9638", from).into_bytes(),
    }
}

fn sent(reaction: Reaction) -> (Vec<u8>, Probe) {
    match reaction {
        Reaction::Send { to, probe } => (to, probe),
        other => panic!("nothing is sent: {:?}", other),
    }
}

#[test]
fn a_probe_message_has_this_written_form() {
    let bytes = Probe {
        kind: ProbeKind::PingReq,
        from_id: b"a".to_vec(),
        subject: b"t".to_vec(),
        round: 5,
        reply_to: b"h:1".to_vec(),
    }
    .encode()
    .unwrap();
    let expected: Vec<u8> = vec![
        1, 10, 25, 0, 0, 0, //
        1, 0, 0, 0, b'a', //
        1, 0, 0, 0, b't', //
        5, 0, 0, 0, 0, 0, 0, 0, //
        3, 0, 0, 0, b'h', b':', b'1',
    ];
    assert_eq!(bytes, expected);
}

#[test]
fn probe_messages_round_trip() {
    for (kind, tag) in [(ProbeKind::Ping, 8), (ProbeKind::Ack, 9), (ProbeKind::PingReq, 10)] {
        assert_eq!(kind.to_byte(), tag);
        assert_eq!(ProbeKind::from_byte(tag), Some(kind));
        let bytes = probe(kind, "a", "b", 77).encode().unwrap();
        let back = Probe::decode(&bytes).unwrap();
        assert_eq!(back.kind, kind);
        assert_eq!(back.from_id, b"a".to_vec());
        assert_eq!(back.subject, b"b".to_vec());
        assert_eq!(back.round, 77);
        assert_eq!(back.reply_to, b"a.example:9638".to_vec());
        assert_eq!(back.encode().unwrap(), bytes);
        // A probe message is no rumor.
        assert_eq!(RumorEnvelope::decode(&bytes).err(), Some(Error::MalformedEnvelope));
        match Message::decode(&bytes) {
            Ok(Message::Probe(p)) => assert_eq!(p.kind, kind),
            _ => panic!("the datagram holds a probe message"),
        }
    }
    assert_eq!(ProbeKind::from_byte(7), None);
    assert_eq!(ProbeKind::from_byte(11), None);
}

#[test]
fn a_rumor_is_no_probe_message() {
    let client = Client::new(b"x".to_vec());
    let bytes = client.departure_datagram(b"m1").unwrap();
    assert_eq!(Probe::decode(&bytes).err(), Some(Error::MalformedEnvelope));
    match Message::decode(&bytes) {
        Ok(Message::Rumor(e)) => {
            assert_eq!(e.kind.kind(), RumorType::Departure);
            assert_eq!(e.from_id, Client::id());
        }
        _ => panic!("the datagram holds a rumor"),
    }
    assert_eq!(Message::decode(b"nothing").err(), Some(Error::MalformedEnvelope));
}

#[test]
fn a_client_writes_these_datagrams() {
    let client = Client::new(b"10.0.0.1:9638".to_vec());
    assert_eq!(client.address, b"10.0.0.1:9638".to_vec());
    assert_eq!(Client::id(), b"butterflyclient".to_vec());
    let bytes = client.service_config_datagram(b"witcher.prod", 3, b"a = 1", true).unwrap();
    let envelope = RumorEnvelope::decode(&bytes).unwrap();
    assert_eq!(envelope.from_id, b"butterflyclient".to_vec());
    match envelope.kind {
        Rumor::ServiceConfig(c) => {
            assert_eq!(c.service_group, b"witcher.prod".to_vec());
            assert_eq!(c.incarnation, 3);
            assert!(c.encrypted);
            assert_eq!(c.config, b"a = 1".to_vec());
        }
        _ => panic!("another kind came back"),
    }
    match RumorEnvelope::decode(&client.departure_datagram(b"m9").unwrap()).unwrap().kind {
        Rumor::Departure(d) => assert_eq!(d.member_id, b"m9".to_vec()),
        _ => panic!("another kind came back"),
    }
}

#[test]
fn deadlines_stop_at_the_last_moment() {
    assert_eq!(deadline(10, 5), 15);
    assert_eq!(deadline(u64::MAX - 1, 5), u64::MAX);
    assert_eq!(deadline(0, 0), 0);
}

#[test]
fn a_probe_that_is_acked_is_over() {
    let mut phase = Phase::begin(b"t".to_vec(), 4, 100, TIMING);
    assert!(matches!(phase.on_tick(1_099, TIMING), Verdict::Wait));
    // An ack of another member or of another round is not the one awaited.
    assert!(!phase.on_ack(b"u", 4));
    assert!(!phase.on_ack(b"t", 3));
    assert!(phase.on_ack(b"t", 4));
    assert!(matches!(phase, Phase::Idle));
    assert!(matches!(phase.on_tick(1_000_000, TIMING), Verdict::Wait));
    assert!(!phase.on_ack(b"t", 4));
}

#[test]
fn a_probe_without_an_ack_fails_after_both_waits() {
    let mut phase = Phase::begin(b"t".to_vec(), 4, 100, TIMING);
    match phase.on_tick(1_100, TIMING) {
        Verdict::AskRelays { target, round } => {
            assert_eq!(target, b"t".to_vec());
            assert_eq!(round, 4);
        }
        other => panic!("relays are to be asked: {:?}", other),
    }
    match &phase {
        Phase::Indirect { deadline, .. } => assert_eq!(*deadline, 3_200),
        other => panic!("the indirect probe is under way: {:?}", other),
    }
    assert!(matches!(phase.on_tick(3_199, TIMING), Verdict::Wait));
    match phase.on_tick(3_200, TIMING) {
        Verdict::Failed { target } => assert_eq!(target, b"t".to_vec()),
        other => panic!("the probe has failed: {:?}", other),
    }
    assert!(matches!(phase, Phase::Idle));
}

#[test]
fn an_ack_by_way_of_a_relay_ends_the_probe() {
    let mut phase = Phase::begin(b"t".to_vec(), 4, 0, TIMING);
    phase.on_tick(1_000, TIMING);
    assert!(phase.on_ack(b"t", 4));
    assert!(matches!(phase.on_tick(u64::MAX, TIMING), Verdict::Wait));
}

#[test]
fn a_pass_probes_every_candidate_once() {
    let all: Vec<Member> = (0..6).map(|i| member(&format!("m{}", i))).collect();
    let mut list = ProbeList::new();
    for pass in 0..3u64 {
        let picks: Vec<u64> = (0..6).map(|i| pass * 1_000 + i * 7 + 3).collect();
        let mut seen: Vec<Vec<u8>> = Vec::new();
        for _ in 0..6 {
            seen.push(list.next_target(&all, &picks).expect("there are candidates").id);
        }
        seen.sort();
        let mut expected: Vec<Vec<u8>> = all.iter().map(|m| m.id.clone()).collect();
        expected.sort();
        assert_eq!(seen, expected);
    }
    let mut empty = ProbeList::new();
    assert!(empty.next_target(&Vec::new(), &[1, 2, 3]).is_none());
    assert!(empty.next_target(&Vec::new(), &[1, 2, 3]).is_none());
    // A pass that is under way is not disturbed by who has come or gone.
    let mut list = ProbeList::new();
    let first = list.next_target(&all, &[]).unwrap();
    assert_eq!(first.id, b"m0".to_vec());
    let second = list.next_target(&Vec::new(), &[]).unwrap();
    assert_eq!(second.id, b"m1".to_vec());
}

#[test]
fn candidates_are_the_alive_and_the_suspected() {
    let mut server = Server::new(member("me"));
    server.insert_member(member("a"), Health::Alive);
    server.insert_member(member("b"), Health::Suspect);
    server.insert_member(member("c"), Health::Confirmed);
    server.insert_member(member("d"), Health::Departed);
    let mut ids: Vec<Vec<u8>> = candidates(&server).into_iter().map(|m| m.id).collect();
    ids.sort();
    assert_eq!(ids, vec![b"a".to_vec(), b"b".to_vec()]);
}

#[test]
fn suspicions_keep_the_time_of_the_first_suspicion() {
    let mut suspicions = Suspicions::new();
    assert_eq!(suspicions.since(b"a"), None);
    suspicions.start(b"a", 100);
    suspicions.start(b"a", 900);
    suspicions.start(b"b", 500);
    assert_eq!(suspicions.since(b"a"), Some(100));
    assert_eq!(suspicions.since(b"b"), Some(500));
    assert!(suspicions.due(30_099, TIMING).is_empty());
    assert_eq!(suspicions.due(30_100, TIMING), vec![b"a".to_vec()]);
    let mut both = suspicions.due(30_500, TIMING);
    both.sort();
    assert_eq!(both, vec![b"a".to_vec(), b"b".to_vec()]);
    // A clock that went back makes nothing due.
    assert!(suspicions.due(50, TIMING).is_empty());
    suspicions.clear(b"a");
    assert_eq!(suspicions.since(b"a"), None);
    assert_eq!(suspicions.due(30_500, TIMING), vec![b"b".to_vec()]);
}

#[test]
fn a_suspicion_that_runs_out_confirms_the_member() {
    let mut server = Server::new(member("me"));
    let mut suspicions = Suspicions::new();
    for id in ["a", "b", "c"] {
        server.insert_member(member(id), Health::Alive);
    }
    assert_eq!(server.suspect(b"a"), InsertOutcome::Applied);
    suspicions.start(b"a", 0);
    assert_eq!(server.suspect(b"b"), InsertOutcome::Applied);
    suspicions.start(b"b", 0);
    assert_eq!(server.suspect(b"c"), InsertOutcome::Applied);
    suspicions.start(b"c", 20_000);
    // b refutes in time.
    let mut refuted = member("b");
    refuted.incarnation = 1;
    assert_eq!(server.insert_member_from_rumor(refuted, Health::Alive), InsertOutcome::Applied);

    assert!(expire(&mut server, &mut suspicions, 29_999, TIMING).is_empty());
    let confirmed = expire(&mut server, &mut suspicions, 30_000, TIMING);
    assert_eq!(confirmed, vec![b"a".to_vec()]);
    assert_eq!(server.member_list().health_of(b"a"), Some(Health::Confirmed));
    assert_eq!(server.member_list().health_of(b"b"), Some(Health::Alive));
    assert_eq!(server.member_list().health_of(b"c"), Some(Health::Suspect));
    // The suspicions that ran out are forgotten, that of b with them.
    assert_eq!(suspicions.since(b"a"), None);
    assert_eq!(suspicions.since(b"b"), None);
    assert_eq!(suspicions.since(b"c"), Some(20_000));
    assert_eq!(expire(&mut server, &mut suspicions, 50_000, TIMING), vec![b"c".to_vec()]);
    assert_eq!(server.member_list().health_of(b"c"), Some(Health::Confirmed));
}

#[test]
fn a_ping_is_answered_to_where_it_came_from() {
    let server = Server::new(member("me"));
    let (to, ack) = sent(react(&server, probe(ProbeKind::Ping, "a", "a", 9)));
    assert_eq!(to, b"a.example:9638".to_vec());
    assert_eq!(ack.kind, ProbeKind::Ack);
    assert_eq!(ack.from_id, b"me".to_vec());
    assert_eq!(ack.subject, b"a".to_vec());
    assert_eq!(ack.round, 9);
    assert_eq!(ack.reply_to, b"me.example:9638".to_vec());
}

#[test]
fn an_indirect_probe_comes_back_to_the_member_that_asked() {
    let mut asker = Server::new(member("asker"));
    let mut relay = Server::new(member("relay"));
    let target = Server::new(member("target"));
    asker.insert_member(member("relay"), Health::Alive);
    asker.insert_member(member("target"), Health::Alive);
    relay.insert_member(member("asker"), Health::Alive);
    relay.insert_member(member("target"), Health::Alive);

    let (to, direct) = sent(ping(&asker, &member("target"), 3));
    assert_eq!(to, b"target.example:9638".to_vec());
    assert_eq!(direct.kind, ProbeKind::Ping);
    assert_eq!(direct.subject, b"asker".to_vec());

    let (to, request) = sent(ping_req(&asker, &member("relay"), b"target", 3));
    assert_eq!(to, b"relay.example:9638".to_vec());
    let (to, forwarded) = sent(react(&relay, request));
    assert_eq!(to, b"target.example:9638".to_vec());
    assert_eq!(forwarded.kind, ProbeKind::Ping);
    assert_eq!(forwarded.subject, b"asker".to_vec());
    let (to, ack) = sent(react(&target, forwarded));
    assert_eq!(to, b"relay.example:9638".to_vec());
    assert_eq!(ack.subject, b"asker".to_vec());
    let (to, passed) = sent(react(&relay, ack));
    assert_eq!(to, b"asker.example:9638".to_vec());
    match react(&asker, passed) {
        Reaction::Acked { from, round } => {
            assert_eq!(from, b"target".to_vec());
            assert_eq!(round, 3);
        }
        other => panic!("the ack is the asker's: {:?}", other),
    }
}

#[test]
fn what_names_a_stranger_is_dropped() {
    let server = Server::new(member("me"));
    assert!(matches!(
        react(&server, probe(ProbeKind::PingReq, "a", "stranger", 1)),
        Reaction::Drop
    ));
    assert!(matches!(react(&server, probe(ProbeKind::Ack, "a", "stranger", 1)), Reaction::Drop));
}

#[test]
fn one_channel_carries_rumors_and_probe_messages() {
    let mut pull = Pull::new(Server::new(member("me")));
    let ping = probe(ProbeKind::Ping, "a", "a", 1).encode().unwrap();
    match pull.dispatch(&ping) {
        Dispatched::Probe(Reaction::Send { probe, .. }) => assert_eq!(probe.kind, ProbeKind::Ack),
        other => panic!("the ping is answered: {:?}", other),
    }
    let rumor = Client::new(Vec::new()).departure_datagram(b"x").unwrap();
    assert!(matches!(
        pull.dispatch(&rumor),
        Dispatched::Rumor(Received::Merged {
            kind: RumorType::Departure,
            outcome: InsertOutcome::Applied
        })
    ));
    assert!(matches!(pull.dispatch(b"garbage"), Dispatched::Rumor(Received::Undecodable)));
    pull.server.block_member(b"a");
    assert!(matches!(pull.dispatch(&ping), Dispatched::Rumor(Received::Blocked)));
    pull.server.unblock_member(b"a");
    pull.server.pause();
    assert!(matches!(pull.dispatch(&ping), Dispatched::Rumor(Received::Paused)));
}

#[test]
fn suspicions_follow_the_table() {
    let mut server = Server::new(member("me"));
    for id in ["a", "b", "c", "d"] {
        server.insert_member(member(id), Health::Alive);
    }
    let mut suspicions = Suspicions::new();
    server.suspect(b"a");
    server.suspect(b"b");
    suspicions.sync(&server, 100);
    assert_eq!(suspicions.since(b"a"), Some(100));
    assert_eq!(suspicions.since(b"b"), Some(100));
    assert_eq!(suspicions.since(b"c"), None);
    assert_eq!(suspicions.since(b"me"), None);

    // a refutes, c is suspected, d departs, and a name that the table does
    // not know has got among the suspicions.
    let mut refuted = member("a");
    refuted.incarnation = 1;
    server.insert_member_from_rumor(refuted, Health::Alive);
    server.suspect(b"c");
    server.suspect(b"d");
    suspicions.start(b"d", 150);
    server.insert_departure(butterfly::rumor::Departure { member_id: b"d".to_vec() });
    suspicions.start(b"stranger", 150);
    suspicions.sync(&server, 200);
    assert_eq!(suspicions.since(b"a"), None);
    assert_eq!(suspicions.since(b"b"), Some(100));
    assert_eq!(suspicions.since(b"c"), Some(200));
    assert_eq!(suspicions.since(b"d"), None);
    assert_eq!(suspicions.since(b"stranger"), None);

    // A member that is suspected anew is suspected since then, not since before.
    server.suspect(b"a");
    suspicions.sync(&server, 300);
    assert_eq!(suspicions.since(b"a"), Some(300));
}

fn ring(others: &[&str]) -> Server {
    let mut server = Server::new(member("me"));
    for id in others {
        server.insert_member(member(id), Health::Alive);
    }
    server
}

#[test]
fn relays_are_the_probed_members_but_the_target() {
    let mut server = ring(&["a", "b", "c", "d"]);
    server.suspect(b"b");
    server.suspect(b"d");
    server.confirm(b"d");
    for seed in 0..20u64 {
        let picks = [seed, seed * 31 + 7, seed * 131 + 1];
        let chosen = relays(&server, b"a", 5, &picks);
        let mut ids: Vec<Vec<u8>> = chosen.into_iter().map(|m| m.id).collect();
        ids.sort();
        assert_eq!(ids, vec![b"b".to_vec(), b"c".to_vec()]);
        assert_eq!(relays(&server, b"a", 1, &picks).len(), 1);
    }
    assert!(relays(&server, b"a", 0, &[]).is_empty());
    let asked = requests(&server, &vec![member("b"), member("c")], b"a", 9);
    assert_eq!(asked.len(), 2);
    let (to, request) = sent(asked.into_iter().next().unwrap());
    assert_eq!(to, b"b.example:9638".to_vec());
    assert_eq!(request.kind, ProbeKind::PingReq);
    assert_eq!(request.subject, b"a".to_vec());
    assert_eq!(request.round, 9);
    assert_eq!(request.from_id, b"me".to_vec());
}

#[test]
fn the_detector_suspects_and_confirms_a_silent_member() {
    let mut server = ring(&["a", "b", "c"]);
    let mut detector = Detector::new(TIMING, 2);
    assert!(matches!(detector.phase, Phase::Idle));
    assert_eq!(detector.round, 0);

    // Nothing is under way: the first member of the pass is pinged.
    assert!(detector.on_tick(&mut server, 0, &[]).is_empty());
    let (to, first) = sent(detector.probe_next(&server, 0, &[]).expect("there is a member"));
    assert_eq!(first.kind, ProbeKind::Ping);
    // The node asks for itself.
    assert_eq!(first.subject, b"me".to_vec());
    assert_eq!(first.round, 1);
    assert_eq!(detector.round, 1);
    let probed = match &detector.phase {
        Phase::Direct { target, round, deadline } => {
            assert_eq!(*round, 1);
            assert_eq!(*deadline, 1_000);
            target.clone()
        }
        other => panic!("a probe is under way: {:?}", other),
    };
    assert_eq!(to, [probed.clone(), b".example:9638".to_vec()].concat());
    // While the probe is under way, no other begins.
    assert!(detector.probe_next(&server, 10, &[]).is_none());
    assert!(detector.on_tick(&mut server, 999, &[]).is_empty());

    // The ping is not answered: both other members are asked to relay.
    let asked = detector.on_tick(&mut server, 1_000, &[4, 9]);
    assert_eq!(asked.len(), 2);
    for reaction in asked {
        let (_, request) = sent(reaction);
        assert_eq!(request.kind, ProbeKind::PingReq);
        assert_eq!(request.subject, probed);
        assert_eq!(request.round, 1);
        assert_ne!(request.from_id, probed);
    }
    // An ack of another round changes nothing.
    assert!(!detector.on_ack(&probed, 7));

    // No relay brings an ack either: the member is suspected.
    assert!(detector.on_tick(&mut server, 3_100, &[]).is_empty());
    assert!(matches!(detector.phase, Phase::Idle));
    assert_eq!(server.member_list().health_of(&probed), Some(Health::Suspect));
    assert_eq!(detector.suspicions.since(&probed), Some(3_100));
    assert!(detector.settle(&mut server, 3_100).is_empty());

    // The suspicion runs out: the member is confirmed dead, and no longer probed.
    assert!(detector.settle(&mut server, 33_099).is_empty());
    assert_eq!(detector.settle(&mut server, 33_100), vec![probed.clone()]);
    assert_eq!(server.member_list().health_of(&probed), Some(Health::Confirmed));
    assert_eq!(detector.suspicions.since(&probed), None);
    assert_eq!(candidates(&server).len(), 2);
}

#[test]
fn the_detector_lets_an_acked_member_be() {
    let mut server = ring(&["a"]);
    let mut detector = Detector::new(TIMING, 3);
    let (_, ping) = sent(detector.probe_next(&server, 50, &[]).unwrap());
    assert_eq!(ping.round, 1);
    assert!(detector.on_ack(b"a", 1));
    assert!(detector.on_tick(&mut server, 100_000, &[]).is_empty());
    assert_eq!(server.member_list().health_of(b"a"), Some(Health::Alive));
    // The pass is over: the next one begins with the next round.
    let (_, again) = sent(detector.probe_next(&server, 100_000, &[]).unwrap());
    assert_eq!(again.round, 2);
    // With nobody to ask, a ping that is not answered leads to no request.
    assert!(detector.on_tick(&mut server, 101_000, &[]).is_empty());
    assert!(matches!(detector.phase, Phase::Indirect { .. }));
}

#[test]
fn a_detector_with_nobody_to_probe_waits() {
    let mut server = ring(&[]);
    let mut detector = Detector::new(TIMING, 3);
    assert!(detector.probe_next(&server, 0, &[]).is_none());
    assert!(detector.on_tick(&mut server, 1_000_000, &[]).is_empty());
    assert!(detector.settle(&mut server, 1_000_000).is_empty());
    assert_eq!(detector.round, 0);
}

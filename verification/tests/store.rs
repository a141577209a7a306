use butterfly::member::{Health, Member, Membership};
use butterfly::member_list::MemberList;
use butterfly::rumor::{
    Departure, Election, ElectionStatus, Rumor, RumorType, Service, ServiceConfig, ServiceFile,
};
use butterfly::store::{InsertOutcome, RumorStore};

fn config(group: &str, incarnation: u64, text: &str) -> Rumor {
    Rumor::ServiceConfig(ServiceConfig {
        service_group: group.as_bytes().to_vec(),
        incarnation,
        encrypted: false,
        config: text.as_bytes().to_vec(),
    })
}

fn service(member: &str, group: &str, incarnation: u64) -> Rumor {
    Rumor::Service(Service {
        member_id: member.as_bytes().to_vec(),
        service_group: group.as_bytes().to_vec(),
        incarnation,
        body: Vec::new(),
    })
}

fn config_text(rumor: Option<Rumor>) -> Vec<u8> {
    match rumor {
        Some(Rumor::ServiceConfig(c)) => c.config,
        _ => panic!("no configuration is stored"),
    }
}

#[test]
fn a_new_store_is_empty() {
    let store = RumorStore::new(RumorType::Service);
    assert_eq!(store.kind(), RumorType::Service);
    assert_eq!(store.len(), 0);
    assert_eq!(store.get_update_counter(), 0);
    assert!(store.list().is_empty());
    assert!(!store.contains(b"witcher.prod", b"m1"));
    assert!(store.get(b"witcher.prod", b"m1").is_none());
}

#[test]
fn the_first_rumor_of_an_identity_is_applied() {
    let mut store = RumorStore::new(RumorType::ServiceConfig);
    assert_eq!(store.insert(config("witcher.prod", 0, "a")), InsertOutcome::Applied);
    assert!(store.contains(b"witcher.prod", &ServiceConfig::const_id()));
    assert!(store.contains_id(&ServiceConfig::const_id()));
    assert_eq!(store.len(), 1);
    assert_eq!(store.get_update_counter(), 1);
}

#[test]
fn inserting_a_rumor_again_is_stale() {
    let mut store = RumorStore::new(RumorType::ServiceConfig);
    let rumor = config("witcher.prod", 5, "a");
    assert_eq!(store.insert(rumor.clone()), InsertOutcome::Applied);
    for _ in 0..3 {
        assert_eq!(store.insert(rumor.clone()), InsertOutcome::Stale);
    }
    assert_eq!(store.len(), 1);
    assert_eq!(store.get_update_counter(), 1);
}

#[test]
fn a_higher_version_replaces_what_is_stored() {
    let mut store = RumorStore::new(RumorType::ServiceConfig);
    store.insert(config("witcher.prod", 1, "old"));
    assert_eq!(store.insert(config("witcher.prod", 2, "new")), InsertOutcome::Applied);
    assert_eq!(
        config_text(store.get(b"witcher.prod", &ServiceConfig::const_id())),
        b"new".to_vec()
    );
    assert_eq!(store.len(), 1);
    assert_eq!(store.get_update_counter(), 2);
}

#[test]
fn a_version_that_is_not_higher_is_stale() {
    let mut store = RumorStore::new(RumorType::ServiceConfig);
    store.insert(config("witcher.prod", 2, "kept"));
    assert_eq!(store.insert(config("witcher.prod", 2, "same")), InsertOutcome::Stale);
    assert_eq!(store.insert(config("witcher.prod", 1, "older")), InsertOutcome::Stale);
    assert_eq!(
        config_text(store.get(b"witcher.prod", &ServiceConfig::const_id())),
        b"kept".to_vec()
    );
}

#[test]
fn version_zero_is_a_version_like_any_other() {
    let mut store = RumorStore::new(RumorType::ServiceConfig);
    assert_eq!(store.insert(config("witcher.prod", 0, "zero")), InsertOutcome::Applied);
    assert_eq!(store.insert(config("witcher.prod", 0, "zero")), InsertOutcome::Stale);
    assert_eq!(store.insert(config("witcher.prod", 1, "one")), InsertOutcome::Applied);
    assert_eq!(store.insert(config("witcher.prod", 0, "zero")), InsertOutcome::Stale);
}

#[test]
fn a_rumor_of_another_kind_is_stale() {
    let mut store = RumorStore::new(RumorType::Service);
    assert_eq!(store.insert(config("witcher.prod", 9, "a")), InsertOutcome::Stale);
    assert_eq!(store.len(), 0);
    assert_eq!(store.get_update_counter(), 0);
}

#[test]
fn a_departure_is_final() {
    let mut store = RumorStore::new(RumorType::Departure);
    let gone = Rumor::Departure(Departure { member_id: b"m1".to_vec() });
    assert_eq!(store.insert(gone.clone()), InsertOutcome::Applied);
    assert_eq!(store.insert(gone), InsertOutcome::Stale);
    assert!(store.contains_id(b"m1"));
    assert!(!store.contains_id(b"m2"));
    assert_eq!(store.get_update_counter(), 1);
}

#[test]
fn identities_are_group_and_id() {
    let mut store = RumorStore::new(RumorType::Service);
    assert_eq!(store.insert(service("m1", "witcher.prod", 0)), InsertOutcome::Applied);
    assert_eq!(store.insert(service("m2", "witcher.prod", 0)), InsertOutcome::Applied);
    assert_eq!(store.insert(service("m1", "redis.prod", 0)), InsertOutcome::Applied);
    assert_eq!(store.len(), 3);
    let witcher = store.for_service_group(b"witcher.prod");
    assert_eq!(witcher.len(), 2);
    assert!(witcher.contains_id(b"m1"));
    assert!(witcher.contains_id(b"m2"));
    assert!(!witcher.contains(b"redis.prod", b"m1"));
    assert_eq!(store.for_service_group(b"redis.prod").len(), 1);
    assert_eq!(store.for_service_group(b"nothing.here").len(), 0);
    assert_eq!(store.list().len(), 3);
}

#[test]
fn files_are_told_apart_by_their_names() {
    let file = |name: &str, incarnation: u64| {
        Rumor::ServiceFile(ServiceFile {
            service_group: b"witcher.prod".to_vec(),
            incarnation,
            encrypted: false,
            filename: name.as_bytes().to_vec(),
            body: Vec::new(),
        })
    };
    let mut store = RumorStore::new(RumorType::ServiceFile);
    assert_eq!(store.insert(file("a.toml", 1)), InsertOutcome::Applied);
    assert_eq!(store.insert(file("b.toml", 1)), InsertOutcome::Applied);
    assert_eq!(store.insert(file("a.toml", 1)), InsertOutcome::Stale);
    assert_eq!(store.insert(file("a.toml", 2)), InsertOutcome::Applied);
    assert_eq!(store.len(), 2);
}

#[test]
fn an_election_is_ordered_by_its_term() {
    let ballot = |term: u64, member: &str| {
        Rumor::Election(Election {
            service_group: b"witcher.prod".to_vec(),
            member_id: member.as_bytes().to_vec(),
            term,
            suffrage: 0,
            status: ElectionStatus::Running,
        })
    };
    let mut store = RumorStore::new(RumorType::Election);
    assert_eq!(store.insert(ballot(1, "m1")), InsertOutcome::Applied);
    assert_eq!(store.insert(ballot(1, "m2")), InsertOutcome::Stale);
    assert_eq!(store.insert(ballot(2, "m2")), InsertOutcome::Applied);
    assert!(store.contains(b"witcher.prod", &Election::const_id()));
    match store.get(b"witcher.prod", &Election::const_id()) {
        Some(Rumor::Election(e)) => assert_eq!(e.member_id, b"m2".to_vec()),
        _ => panic!("no election is stored"),
    }
}

#[test]
fn the_counter_tells_what_has_changed() {
    let mut store = RumorStore::new(RumorType::Service);
    store.insert(service("m1", "witcher.prod", 0));
    store.insert(service("m2", "witcher.prod", 0));
    store.insert(service("m3", "witcher.prod", 0));
    store.insert(service("m1", "witcher.prod", 1));
    assert_eq!(store.get_update_counter(), 4);
    assert_eq!(store.changed_since(0).len(), 3);
    let late = store.changed_since(2);
    assert_eq!(late.len(), 2);
    assert!(late.contains_id(b"m1"));
    assert!(late.contains_id(b"m3"));
    assert!(!late.contains_id(b"m2"));
    assert_eq!(store.changed_since(4).len(), 0);
}

#[test]
fn rumors_know_their_identity() {
    let s = service("m1", "witcher.prod", 4);
    assert_eq!(s.kind(), RumorType::Service);
    assert_eq!(s.group(), b"witcher.prod".to_vec());
    assert_eq!(s.id(), b"m1".to_vec());
    assert_eq!(s.version(), 4);
    assert!(!s.is_final());
    assert!(s.in_group(b"witcher.prod"));
    assert!(s.has_id(b"m1"));
    assert!(s.same_identity(&service("m1", "witcher.prod", 9)));
    assert!(!s.same_identity(&service("m2", "witcher.prod", 4)));
    assert!(!s.same_identity(&config("witcher.prod", 4, "")));
    assert!(service("m1", "witcher.prod", 5).supersedes(&s));
    assert!(!s.supersedes(&s));
    let gone = Rumor::Departure(Departure { member_id: b"m1".to_vec() });
    assert_eq!(gone.group(), b"departure".to_vec());
    assert_eq!(gone.version(), 0);
    assert!(gone.is_final());
    assert_eq!(config("w.prod", 0, "").id(), b"service_config".to_vec());
}

fn member(id: &str, incarnation: u64) -> Member {
    Member { id: id.as_bytes().to_vec(), address: b"10.0.0.1:9638".to_vec(), incarnation }
}

#[test]
fn the_higher_incarnation_wins() {
    let mut list = MemberList::new();
    assert_eq!(list.insert(member("m1", 1), Health::Suspect), InsertOutcome::Applied);
    assert_eq!(list.insert(member("m1", 2), Health::Alive), InsertOutcome::Applied);
    assert_eq!(list.health_of(b"m1"), Some(Health::Alive));
    assert_eq!(list.insert(member("m1", 1), Health::Confirmed), InsertOutcome::Stale);
    assert_eq!(list.health_of(b"m1"), Some(Health::Alive));
    assert_eq!(list.get(b"m1").unwrap().member.incarnation, 2);
}

#[test]
fn at_the_same_incarnation_the_stricter_health_wins() {
    let mut list = MemberList::new();
    list.insert(member("m1", 3), Health::Alive);
    assert_eq!(list.insert(member("m1", 3), Health::Alive), InsertOutcome::Stale);
    assert_eq!(list.insert(member("m1", 3), Health::Confirmed), InsertOutcome::Applied);
    assert_eq!(list.insert(member("m1", 3), Health::Suspect), InsertOutcome::Stale);
    assert_eq!(list.health_of(b"m1"), Some(Health::Confirmed));
    assert_eq!(list.insert(member("m1", 3), Health::Departed), InsertOutcome::Applied);
    assert_eq!(list.health_of(b"m1"), Some(Health::Departed));
}

#[test]
fn nothing_follows_a_departure() {
    let mut list = MemberList::new();
    list.insert(member("m1", 3), Health::Alive);
    assert_eq!(list.depart(b"m1"), InsertOutcome::Applied);
    assert_eq!(list.depart(b"m1"), InsertOutcome::Stale);
    for incarnation in [0, 3, 4, 1000, u64::MAX] {
        for health in [Health::Alive, Health::Suspect, Health::Confirmed, Health::Departed] {
            assert_eq!(list.insert(member("m1", incarnation), health), InsertOutcome::Stale);
        }
    }
    let record: Membership = list.get(b"m1").unwrap();
    assert_eq!(record.health, Health::Departed);
    assert_eq!(record.member.incarnation, 3);
}

#[test]
fn a_departure_of_a_stranger_leaves_a_tombstone() {
    let mut list = MemberList::new();
    assert!(!list.contains(b"ghost"));
    assert_eq!(list.depart(b"ghost"), InsertOutcome::Applied);
    assert_eq!(list.health_of(b"ghost"), Some(Health::Departed));
    assert_eq!(list.insert(member("ghost", 9), Health::Alive), InsertOutcome::Stale);
    assert_eq!(list.members().len(), 1);
}

#[test]
fn the_detector_moves_alive_to_suspect_to_confirmed() {
    let mut list = MemberList::new();
    list.insert(member("m1", 3), Health::Alive);
    assert_eq!(list.confirm(b"m1"), InsertOutcome::Stale);
    assert_eq!(list.suspect(b"m1"), InsertOutcome::Applied);
    assert_eq!(list.health_of(b"m1"), Some(Health::Suspect));
    assert_eq!(list.suspect(b"m1"), InsertOutcome::Stale);
    assert_eq!(list.confirm(b"m1"), InsertOutcome::Applied);
    assert_eq!(list.health_of(b"m1"), Some(Health::Confirmed));
    assert_eq!(list.suspect(b"m1"), InsertOutcome::Stale);
    assert_eq!(list.confirm(b"m1"), InsertOutcome::Stale);
    assert_eq!(list.get(b"m1").unwrap().member.incarnation, 3);
    assert_eq!(list.suspect(b"nobody"), InsertOutcome::Stale);
    assert!(!list.contains(b"nobody"));
}

#[test]
fn a_suspect_refutes_with_a_higher_incarnation() {
    let mut list = MemberList::new();
    list.insert(member("m1", 3), Health::Alive);
    list.suspect(b"m1");
    assert_eq!(list.insert(member("m1", 3), Health::Alive), InsertOutcome::Stale);
    assert_eq!(list.health_of(b"m1"), Some(Health::Suspect));
    assert_eq!(list.insert(member("m1", 4), Health::Alive), InsertOutcome::Applied);
    assert_eq!(list.health_of(b"m1"), Some(Health::Alive));
}

#[test]
fn the_table_counts_its_changes() {
    let mut list = MemberList::new();
    assert_eq!(list.get_update_counter(), 0);
    list.insert(member("m1", 0), Health::Alive);
    list.insert(member("m1", 0), Health::Alive);
    list.insert(member("m2", 0), Health::Alive);
    list.depart(b"m2");
    assert_eq!(list.get_update_counter(), 3);
    assert_eq!(list.store().len(), 2);
    assert_eq!(list.members().len(), 2);
}

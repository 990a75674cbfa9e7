use identity_map::application_map::ApplicationMap;
use identity_map::ids::{AppUserId, AttributeId, UserId};

fn user(id: u64) -> UserId {
    UserId { id }
}

fn pseudonym(id: u64) -> AppUserId {
    AppUserId { id }
}

fn attr(id: u64) -> AttributeId {
    AttributeId { id }
}

fn sorted_domains(map: &ApplicationMap, user_id: UserId) -> Vec<String> {
    let mut domains = map.domains(user_id);
    domains.sort();
    domains
}

#[test]
fn two_domains_of_one_anchor() {
    let mut map = ApplicationMap::new();
    let g = user(1);
    let age = attr(7);
    let p1 = map.register(g, "dapp.example".to_string(), pseudonym(101));
    let p2 = map.register(g, "chat.example".to_string(), pseudonym(102));
    assert_eq!(p1, Some(pseudonym(101)));
    assert_eq!(p2, Some(pseudonym(102)));
    assert_ne!(p1, p2);
    map.set_attributes(g, "dapp.example".to_string(), pseudonym(101), vec![age]);
    assert_eq!(map.attributes(&g, "dapp.example".to_string()), Some(&vec![age]));
    assert_eq!(map.attributes(&g, "chat.example".to_string()), Some(&Vec::new()));
    assert_eq!(map.attributes(&g, "other.example".to_string()), None);
}

#[test]
fn register_twice_changes_nothing() {
    let mut map = ApplicationMap::new();
    let g = user(1);
    assert_eq!(map.register(g, "a.example".to_string(), pseudonym(10)), Some(pseudonym(10)));
    map.set_attributes(g, "a.example".to_string(), pseudonym(10), vec![attr(1)]);
    assert_eq!(map.register(g, "a.example".to_string(), pseudonym(10)), None);
    assert_eq!(map.user_id(&pseudonym(10)), Some(&g));
    assert_eq!(map.domains(g), vec!["a.example".to_string()]);
    assert_eq!(map.attributes(&g, "a.example".to_string()), Some(&vec![attr(1)]));
}

#[test]
fn register_refuses_an_issued_pseudonym() {
    let mut map = ApplicationMap::new();
    assert_eq!(map.register(user(1), "a.example".to_string(), pseudonym(10)), Some(pseudonym(10)));
    assert_eq!(map.register(user(2), "b.example".to_string(), pseudonym(10)), None);
    assert_eq!(map.user_id(&pseudonym(10)), Some(&user(1)));
    assert!(map.domains(user(2)).is_empty());
}

#[test]
fn unknown_pseudonym_does_not_resolve() {
    let mut map = ApplicationMap::new();
    assert_eq!(map.user_id(&pseudonym(5)), None);
    map.register(user(1), "a.example".to_string(), pseudonym(10));
    assert_eq!(map.user_id(&pseudonym(5)), None);
    assert_eq!(map.user_id(&pseudonym(11)), None);
}

#[test]
fn registered_pseudonym_resolves_to_its_owner() {
    let mut map = ApplicationMap::new();
    let p = map.register(user(3), "a.example".to_string(), pseudonym(30)).unwrap();
    map.register(user(4), "a.example".to_string(), pseudonym(40));
    assert_eq!(map.user_id(&p), Some(&user(3)));
    assert_eq!(map.user_id(&pseudonym(40)), Some(&user(4)));
    assert!(map.domains(user(3)).contains(&"a.example".to_string()));
}

#[test]
fn domains_lists_each_registered_domain_once() {
    let mut map = ApplicationMap::new();
    assert!(map.domains(user(1)).is_empty());
    map.register(user(1), "b.example".to_string(), pseudonym(1));
    map.register(user(1), "a.example".to_string(), pseudonym(2));
    map.register(user(1), "b.example".to_string(), pseudonym(3));
    map.register(user(2), "c.example".to_string(), pseudonym(4));
    assert_eq!(
        sorted_domains(&map, user(1)),
        vec!["a.example".to_string(), "b.example".to_string()]
    );
    assert_eq!(map.domains(user(2)), vec!["c.example".to_string()]);
}

#[test]
fn set_attributes_registers_first() {
    let mut map = ApplicationMap::new();
    let g = user(1);
    map.set_attributes(g, "a.example".to_string(), pseudonym(10), vec![attr(1), attr(2)]);
    assert_eq!(map.user_id(&pseudonym(10)), Some(&g));
    assert_eq!(map.domains(g), vec!["a.example".to_string()]);
    assert_eq!(map.attributes(&g, "a.example".to_string()), Some(&vec![attr(1), attr(2)]));
    assert_eq!(map.register(g, "a.example".to_string(), pseudonym(10)), None);
}

#[test]
fn set_attributes_overwrites() {
    let mut map = ApplicationMap::new();
    let g = user(1);
    map.set_attributes(g, "a.example".to_string(), pseudonym(10), vec![attr(1), attr(2)]);
    map.set_attributes(g, "a.example".to_string(), pseudonym(10), vec![attr(3)]);
    assert_eq!(map.attributes(&g, "a.example".to_string()), Some(&vec![attr(3)]));
    map.set_attributes(g, "a.example".to_string(), pseudonym(10), Vec::new());
    assert_eq!(map.attributes(&g, "a.example".to_string()), Some(&Vec::new()));
}

#[test]
fn set_attributes_keeps_each_attribute_once() {
    let mut map = ApplicationMap::new();
    let g = user(1);
    map.set_attributes(
        g,
        "a.example".to_string(),
        pseudonym(10),
        vec![attr(2), attr(1), attr(2), attr(1)],
    );
    assert_eq!(map.attributes(&g, "a.example".to_string()), Some(&vec![attr(2), attr(1)]));
}

#[test]
fn set_attributes_with_an_issued_pseudonym_changes_nothing() {
    let mut map = ApplicationMap::new();
    map.register(user(1), "a.example".to_string(), pseudonym(10));
    map.set_attributes(user(2), "b.example".to_string(), pseudonym(10), vec![attr(1)]);
    assert_eq!(map.attributes(&user(2), "b.example".to_string()), None);
    assert_eq!(map.attributes_by_id(&pseudonym(10)), Some(&Vec::new()));
    assert_eq!(map.user_id(&pseudonym(10)), Some(&user(1)));
}

#[test]
fn remove_attribute_revokes_in_every_domain() {
    let mut map = ApplicationMap::new();
    let g = user(1);
    let a = attr(1);
    map.set_attributes(g, "d1.example".to_string(), pseudonym(11), vec![a, attr(2)]);
    map.set_attributes(g, "d2.example".to_string(), pseudonym(12), vec![attr(3), a]);
    map.set_attributes(user(2), "d1.example".to_string(), pseudonym(21), vec![a]);
    map.remove_attribute(&g, &a);
    assert_eq!(map.attributes(&g, "d1.example".to_string()), Some(&vec![attr(2)]));
    assert_eq!(map.attributes(&g, "d2.example".to_string()), Some(&vec![attr(3)]));
    assert_eq!(map.attributes(&user(2), "d1.example".to_string()), Some(&vec![a]));
}

#[test]
fn remove_attribute_without_registrations_is_a_no_op() {
    let mut map = ApplicationMap::new();
    map.remove_attribute(&user(1), &attr(1));
    assert!(map.domains(user(1)).is_empty());
    map.register(user(1), "a.example".to_string(), pseudonym(10));
    map.remove_attribute(&user(1), &attr(1));
    assert_eq!(map.attributes_by_id(&pseudonym(10)), Some(&Vec::new()));
}

#[test]
fn attributes_by_id_tells_unregistered_from_empty() {
    let mut map = ApplicationMap::new();
    assert_eq!(map.attributes_by_id(&pseudonym(10)), None);
    map.register(user(1), "a.example".to_string(), pseudonym(10));
    assert_eq!(map.attributes_by_id(&pseudonym(10)), Some(&Vec::new()));
    assert_eq!(map.attributes_by_id(&pseudonym(11)), None);
    map.set_attributes(user(1), "a.example".to_string(), pseudonym(10), vec![attr(4)]);
    assert_eq!(map.attributes_by_id(&pseudonym(10)), Some(&vec![attr(4)]));
}

#[test]
fn pseudonym_of_a_domain_stays_fixed() {
    let mut map = ApplicationMap::new();
    let g = user(1);
    map.register(g, "a.example".to_string(), pseudonym(10));
    map.set_attributes(g, "a.example".to_string(), pseudonym(99), vec![attr(1)]);
    map.remove_attribute(&g, &attr(1));
    assert_eq!(map.user_id(&pseudonym(10)), Some(&g));
    assert_eq!(map.user_id(&pseudonym(99)), None);
}

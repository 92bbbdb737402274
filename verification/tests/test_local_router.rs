use broker::assoc::Ident;
use broker::common::{ClientIdentifier, UserId};
use broker::hub::local_router::{LocalRouteNode, LocalRoutes};
use broker::peers::{PeerMap, Peers};
use broker::qos::QualityOfService;
use broker::route::RouteNode;
use broker::topic::{Topic, TopicFilter, TopicName};

#[test]
fn test_local_route_node_simple() {
    let mut routes = LocalRouteNode::new();
    let subs = vec![
        ("+", vec!["10"]),
        ("ab", vec!["20"]),
        ("ab/+", vec!["30", "31"]),
        ("ab/c", vec!["40"]),
        ("ab/d", vec!["50"]),
        ("xy/+", vec!["60", "61", "62"]),
        ("xy/+/t", vec!["62", "63"]),
        ("xy/#", vec!["70", "71"]),
        ("xy/xxxx", vec!["80"]),
    ];
    for &(topic_filter, ref client_identifiers) in subs.iter() {
        for client_identifier in client_identifiers {
            routes.insert(
                &TopicFilter::new(topic_filter),
                &ClientIdentifier(client_identifier.to_string()),
                QualityOfService::Level0,
            );
        }
    }

    let is_removed = routes.remove(
        &TopicFilter::new("Nothing/Will/Match"),
        &ClientIdentifier("80".to_owned()),
    );
    assert_eq!(is_removed, false);
    let is_removed =
        routes.remove(&TopicFilter::new("ab"), &ClientIdentifier("9999".to_owned()));
    assert_eq!(is_removed, false);

    assert_eq!(routes.is_empty(), false);
    for &(topic_filter, ref client_identifiers) in subs.iter() {
        for client_identifier in client_identifiers {
            let is_removed = routes.remove(
                &TopicFilter::new(topic_filter),
                &ClientIdentifier(client_identifier.to_string()),
            );
            assert_eq!(is_removed, true);
        }
    }
    assert_eq!(routes.is_empty(), true);
}

#[test]
fn test_local_route_node_normal() {
    let mut routes = LocalRouteNode::new();
    let subs = vec![
        ("+", vec!["10"]),
        ("ab", vec!["20"]),
        ("ab/+", vec!["30", "31"]),
        ("ab/c", vec!["40"]),
        ("ab/d", vec!["50"]),
        ("xy/+", vec!["60", "61", "62"]),
        ("xy/+/t", vec!["62", "63"]),
        ("xy/#", vec!["70", "71"]),
        ("xy/xxxx", vec!["80"]),
    ];
    for (topic_filter, client_identifiers) in subs {
        for client_identifier in client_identifiers {
            routes.insert(
                &TopicFilter::new(topic_filter),
                &ClientIdentifier(client_identifier.to_string()),
                QualityOfService::Level0,
            );
        }
    }

    let cases = vec![
        ("x", vec!["10"]),
        ("ab", vec!["10", "20"]),
        ("ab/c", vec!["30", "31", "40"]),
        ("xy/a", vec!["60", "61", "62", "70", "71"]),
        ("xy/333/t", vec!["62", "63", "70", "71"]),
        ("nothing/will/match", vec![]),
    ];
    for (topic_name, client_identifiers) in cases {
        println!(">> [Case]: ({:?}, {:?})", topic_name, client_identifiers);
        let addrs = routes.search(&TopicName::new(topic_name).unwrap());
        assert_eq!(addrs.len(), client_identifiers.len());
        for client_identifier in client_identifiers {
            assert_eq!(
                addrs.contains_key(&ClientIdentifier(client_identifier.to_string())),
                true
            );
        }
    }

    let unsubs = vec![("xy/+", vec!["60", "61", "62"])];
    for (topic_filter, client_identifiers) in unsubs {
        for client_identifier in client_identifiers {
            routes.remove(
                &TopicFilter::new(topic_filter),
                &ClientIdentifier(client_identifier.to_string()),
            );
        }
    }
    let cases = vec![
        ("ab", vec!["10", "20"]),
        ("ab/c", vec!["30", "31", "40"]),
        ("xy/a", vec!["70", "71"]),
        ("xy/333/t", vec!["62", "63", "70", "71"]),
        ("nothing/will/match", vec![]),
    ];
    for (topic_name, client_identifiers) in cases {
        let addrs = routes.search(&TopicName::new(topic_name).unwrap());
        assert_eq!(addrs.len(), client_identifiers.len());
        for client_identifier in client_identifiers {
            assert_eq!(
                addrs.contains_key(&ClientIdentifier(client_identifier.to_string())),
                true
            );
        }
    }
}

#[test]
fn test_local_route_node_multiple_user() {
    let mut routes = LocalRoutes::new();
    let subs = vec![
        (vec![1, 2], "+", vec!["10"]),
        (vec![1], "ab", vec!["20"]),
        (vec![2], "ab/+", vec!["30", "31"]),
        (vec![2], "ab/c", vec!["40"]),
        (vec![1], "ab/d", vec!["50"]),
        (vec![2], "xy/+", vec!["60", "61", "62"]),
        (vec![1], "xy/+/t", vec!["62", "63"]),
        (vec![1], "xy/#", vec!["70", "71"]),
        (vec![1], "xy/xxxx", vec!["80"]),
    ];
    for &(ref user_ids, topic, ref clients) in subs.iter() {
        for client in clients {
            for user_id in user_ids {
                routes.insert_topic(
                    UserId(*user_id),
                    &Topic::from_str(topic),
                    &ClientIdentifier(client.to_string()),
                    QualityOfService::Level0,
                );
            }
        }
    }

    for user_id in vec![1, 2] {
        let found = routes.search(UserId(user_id), &TopicName::new("one-level-nothing").unwrap());
        assert_eq!(found.len(), 1);
        assert!(found.key_at(0).same(&ClientIdentifier("10".to_owned())));
        assert_eq!(*found.value_at(0), QualityOfService::Level0);
    }

    assert_eq!(routes.search(UserId(2), &TopicName::new("ab").unwrap()).len(), 1);
    let found = routes.search(UserId(1), &TopicName::new("ab").unwrap());
    assert_eq!(found.len(), 2);
    for client in vec!["10", "20"] {
        assert_eq!(found.contains_key(&ClientIdentifier(client.to_owned())), true);
    }
}

#[test]
fn levels_before_the_index_do_not_matter() {
    let key = |s: &str| ClientIdentifier(s.to_owned());
    let mut node: RouteNode<PeerMap<ClientIdentifier, u8>, ClientIdentifier, u8> =
        RouteNode::new();
    for (filter, client, value) in vec![("b", "1", 1), ("+", "2", 2), ("b/c", "3", 3)] {
        assert_eq!(node.insert(&TopicFilter::new(filter), (key(client), value)), false);
    }
    let levels: Vec<String> = vec!["a".to_owned(), "b".to_owned()];
    let found = node._search(&levels, 1);
    assert_eq!(found.inner.len(), 2);
    assert_eq!(found.inner.get(&key("1")), Some(&1));
    assert_eq!(found.inner.get(&key("2")), Some(&2));
    assert_eq!(node._search(&levels, 0).is_empty(), true);
    assert_eq!(node._search(&levels, 2).is_empty(), true);

    assert_eq!(node._remove(&levels, 0, &key("1")), false);
    assert_eq!(node._remove(&levels, 1, &key("1")), true);
    assert_eq!(node._remove(&levels, 1, &key("1")), false);
    assert_eq!(node._search(&levels, 1).inner.len(), 1);
}

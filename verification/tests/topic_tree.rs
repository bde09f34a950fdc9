use moquette::broker::state::ClientSubscription;
use moquette::broker::topic_tree::TopicNode;

fn create_dummy_sender() -> ClientSubscription {
    ClientSubscription { max_qos: 0 }
}

fn contains_key(matches: &[(String, ClientSubscription)], key: &str) -> bool {
    matches.iter().any(|(c, _)| c == key)
}

#[test]
fn test_exact_match_single_level() {
    let mut tree = TopicNode::default();
    let sender = create_dummy_sender();

    tree.insert("home", "client_1".to_string(), sender);

    let matches = tree.get_match("home");
    assert_eq!(matches.len(), 1);
    assert!(contains_key(&matches, "client_1"));

    assert!(tree.get_match("office").is_empty());
}

#[test]
fn test_exact_match_multi_level() {
    let mut tree = TopicNode::default();
    let sender = create_dummy_sender();

    tree.insert("home/livingroom/temp", "client_1".to_string(), sender);

    let matches = tree.get_match("home/livingroom/temp");
    assert_eq!(matches.len(), 1);
    assert!(contains_key(&matches, "client_1"));
}

#[test]
fn test_branch_isolation() {
    let mut tree = TopicNode::default();
    let sender1 = create_dummy_sender();
    let sender2 = create_dummy_sender();

    tree.insert("home", "client_1".to_string(), sender1);
    tree.insert("home/sensors", "client_2".to_string(), sender2);

    let matches_home = tree.get_match("home");
    assert_eq!(matches_home.len(), 1);
    assert!(contains_key(&matches_home, "client_1"));

    let matches_sensors = tree.get_match("home/sensors");
    assert_eq!(matches_sensors.len(), 1);
    assert!(contains_key(&matches_sensors, "client_2"));
}

#[test]
fn test_multiple_subscribers_same_topic() {
    let mut tree = TopicNode::default();
    let sender1 = create_dummy_sender();
    let sender2 = create_dummy_sender();

    tree.insert("home/sensors", "client_1".to_string(), sender1);
    tree.insert("home/sensors", "client_2".to_string(), sender2);

    let matches = tree.get_match("home/sensors");
    assert_eq!(matches.len(), 2);
    assert!(contains_key(&matches, "client_1"));
    assert!(contains_key(&matches, "client_2"));
}

#[test]
fn test_remove_client() {
    let mut tree = TopicNode::default();
    let sender1 = create_dummy_sender();
    let sender2 = create_dummy_sender();

    tree.insert("home", "client_1".to_string(), sender1.clone());
    tree.insert("home/sensors", "client_1".to_string(), sender1);
    tree.insert("home/sensors", "client_2".to_string(), sender2);

    tree.remove(&"client_1".to_string());

    assert!(tree.get_match("home").is_empty());

    let matches_sensors = tree.get_match("home/sensors");
    assert_eq!(matches_sensors.len(), 1);
    assert!(contains_key(&matches_sensors, "client_2"));
}

#[test]
fn test_single_level_wildcard_plus() {
    let mut tree = TopicNode::default();
    let sender = create_dummy_sender();

    tree.insert("home/+/temp", "client_plus".to_string(), sender.clone());
    tree.insert("home/livingroom/temp", "client_exact".to_string(), sender);

    let matches = tree.get_match("home/livingroom/temp");
    assert_eq!(matches.len(), 2);
    assert!(contains_key(&matches, "client_plus"));
    assert!(contains_key(&matches, "client_exact"));

    let matches_kitchen = tree.get_match("home/kitchen/temp");
    assert_eq!(matches_kitchen.len(), 1);
    assert!(contains_key(&matches_kitchen, "client_plus"));

    assert!(tree.get_match("home/livingroom/temp/celsius").is_empty());
    assert!(tree.get_match("home/temp").is_empty());
}

#[test]
fn test_multi_level_wildcard_hash() {
    let mut tree = TopicNode::default();
    let sender = create_dummy_sender();

    tree.insert("home/#", "client_hash".to_string(), sender);

    assert_eq!(tree.get_match("home").len(), 1);
    assert_eq!(tree.get_match("home/livingroom").len(), 1);
    assert_eq!(tree.get_match("home/livingroom/temp/sensor").len(), 1);

    assert!(tree.get_match("office/livingroom").is_empty());
}

#[test]
fn test_combined_wildcards_and_exact() {
    let mut tree = TopicNode::default();
    let sender = create_dummy_sender();

    tree.insert("#", "client_all".to_string(), sender.clone());
    tree.insert("home/+", "client_plus".to_string(), sender.clone());
    tree.insert("home/sensors/temp", "client_exact".to_string(), sender);

    let matches = tree.get_match("home/sensors/temp");
    assert_eq!(matches.len(), 2);
    assert!(contains_key(&matches, "client_all"));
    assert!(contains_key(&matches, "client_exact"));

    let matches_sensors = tree.get_match("home/sensors");
    assert_eq!(matches_sensors.len(), 2);
    assert!(contains_key(&matches_sensors, "client_all"));
    assert!(contains_key(&matches_sensors, "client_plus"));
}

#[test]
fn test_invalid_hash_position_ignored() {
    let mut tree = TopicNode::default();
    let sender = create_dummy_sender();

    tree.insert("home/#/temp", "client_invalid".to_string(), sender);

    assert!(tree.get_match("home/livingroom/temp").is_empty());
}

#[test]
fn test_remove_client_from_wildcards() {
    let mut tree = TopicNode::default();
    let sender = create_dummy_sender();

    tree.insert("home/+", "client_1".to_string(), sender.clone());
    tree.insert("sensors/#", "client_1".to_string(), sender.clone());
    tree.insert("home/livingroom", "client_2".to_string(), sender);

    tree.remove(&"client_1".to_string());

    let matches_home = tree.get_match("home/livingroom");
    assert_eq!(matches_home.len(), 1);
    assert!(contains_key(&matches_home, "client_2"));

    assert!(tree.get_match("sensors/temp/humidity").is_empty());
}

#[test]
fn test_tree_pruning_on_remove() {
    let mut tree = TopicNode::default();
    let sender = create_dummy_sender();

    tree.insert(
        "home/livingroom/temp",
        "client_1".to_string(),
        sender.clone(),
    );
    tree.insert("sensors/+", "client_1".to_string(), sender);

    assert!(!tree.is_empty());

    tree.remove(&"client_1".to_string());

    assert!(tree.childrens.is_empty());
    assert!(tree.wildcard_single.is_none());
    assert!(tree.is_empty());
}

#[test]
fn resubscribing_replaces_the_subscription() {
    let mut tree = TopicNode::new();
    tree.insert("a/b", "c".to_string(), ClientSubscription { max_qos: 0 });
    tree.insert("a/b", "c".to_string(), ClientSubscription { max_qos: 2 });
    let matches = tree.get_match("a/b");
    assert_eq!(matches, vec![("c".to_string(), ClientSubscription { max_qos: 2 })]);
}

#[test]
fn one_entry_per_client_when_several_filters_match() {
    let mut tree = TopicNode::new();
    tree.insert("a/+", "c".to_string(), ClientSubscription { max_qos: 1 });
    tree.insert("a/b", "c".to_string(), ClientSubscription { max_qos: 2 });
    tree.insert("#", "c".to_string(), ClientSubscription { max_qos: 0 });
    let matches = tree.get_match("a/b");
    assert_eq!(matches.len(), 1);
    // the exact branch is looked at last, so its subscription wins
    assert_eq!(matches[0].1, ClientSubscription { max_qos: 2 });
}

#[test]
fn unsubscribe_removes_one_filter() {
    let mut tree = TopicNode::new();
    tree.insert("a/+", "c".to_string(), ClientSubscription { max_qos: 1 });
    tree.insert("a/b", "c".to_string(), ClientSubscription { max_qos: 2 });
    tree.unsubscribe("a/b", &"c".to_string());
    assert_eq!(tree.get_match("a/b"), vec![("c".to_string(), ClientSubscription { max_qos: 1 })]);
    tree.unsubscribe("a/+", &"c".to_string());
    assert!(tree.get_match("a/b").is_empty());
    // unsubscribing what is not there changes nothing
    tree.insert("x/y", "d".to_string(), ClientSubscription { max_qos: 1 });
    tree.unsubscribe("x/y", &"c".to_string());
    tree.unsubscribe("x/z", &"d".to_string());
    assert_eq!(tree.get_match("x/y"), vec![("d".to_string(), ClientSubscription { max_qos: 1 })]);
}

#[test]
fn hash_matches_parent_level() {
    let mut tree = TopicNode::new();
    tree.insert("sport/#", "c".to_string(), ClientSubscription { max_qos: 0 });
    assert_eq!(tree.get_match("sport").len(), 1);
    assert_eq!(tree.get_match("sport/tennis/player1").len(), 1);
    assert!(tree.get_match("sports").is_empty());
}

#[test]
fn plus_matches_empty_level() {
    let mut tree = TopicNode::new();
    tree.insert("a/+/c", "p".to_string(), ClientSubscription { max_qos: 0 });
    assert_eq!(tree.get_match("a//c").len(), 1);
    assert!(tree.get_match("a/c").is_empty());
}

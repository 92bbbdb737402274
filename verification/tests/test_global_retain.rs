use broker::packet::PublishPacket;
use broker::qos::QoSWithPacketIdentifier;
use broker::store::global_retain::RetainNode;
use broker::topic::{Topic, TopicName};

#[test]
fn test_retain_node_simple() {
    let mut retains = RetainNode::new();
    for topic_name in vec!["/a/b", "/a", "a/b/c"] {
        retains.insert(&PublishPacket::new(
            TopicName::new(topic_name).unwrap(),
            QoSWithPacketIdentifier::Level0,
            Vec::new(),
        ))
    }

    let cases = vec![("/a/b", 1), ("/a/+", 1), ("/+", 1), ("/#", 2), ("/a/#", 1)];
    for &(topic, length) in &cases {
        println!("========================================(topic={}, length={})", topic, length);
        assert_eq!(retains.match_all(&Topic::from_str(topic)).len(), length);
    }

    retains.remove("/a/b");
    let cases = vec![("/a/b", 0), ("/a/+", 0), ("/+", 1), ("/#", 1), ("/a/#", 0)];
    for &(topic, length) in &cases {
        println!("========================================(topic={}, length={})", topic, length);
        assert_eq!(retains.match_all(&Topic::from_str(topic)).len(), length);
    }

    assert_eq!(retains.is_empty(), false);
    retains.remove("/a");
    retains.remove("a/b/c");
    assert_eq!(retains.is_empty(), true);
}

use stream_relay::creator::SimpleDiskTopicCreator;
use stream_relay::manifest::ManifestError;
use stream_relay::topic::offset_to_file_path;
use stream_relay::types::{Topic, TopicMetaData};

fn meta_foo() -> TopicMetaData {
    let topic = Topic::new("foo".to_owned(), "./root");
    TopicMetaData::new(topic, 3, None, 4)
}

#[test]
fn topic_paths_are_derived() {
    let topic = Topic::new("foo".to_owned(), "./root");
    assert_eq!(topic.name(), "foo");
    assert_eq!(topic.path(), "./root/foo");
    assert_eq!(topic.metadata_path(), "./root/foo/metadata.toml");
}

#[test]
fn offset_mapping_concrete_paths() {
    let meta = meta_foo();
    assert_eq!(offset_to_file_path(&meta, &0), "./root/foo/0/0.txt");
    assert_eq!(offset_to_file_path(&meta, &1), "./root/foo/0/0.txt");
    assert_eq!(offset_to_file_path(&meta, &2), "./root/foo/0/0.txt");
    assert_eq!(offset_to_file_path(&meta, &3), "./root/foo/1/3.txt");
    assert_eq!(offset_to_file_path(&meta, &11), "./root/foo/3/9.txt");
    // Directory striping wraps around; file names never repeat.
    assert_eq!(offset_to_file_path(&meta, &12), "./root/foo/0/12.txt");
}

#[test]
fn manifest_round_trip_without_watermark() {
    let meta = meta_foo();
    let text = meta.serialize();
    let back = TopicMetaData::deserialize(&text).unwrap();
    assert_eq!(back, meta);
}

#[test]
fn manifest_round_trip_with_watermark() {
    let topic = Topic::new("foo".to_owned(), "./root");
    let meta = TopicMetaData::new(topic, 32, Some(41), 64);
    let text = meta.serialize();
    let back = TopicMetaData::deserialize(&text).unwrap();
    assert_eq!(back, meta);
    assert_eq!(back.last_flushed_offset(), &Some(41));
}

#[test]
fn manifest_round_trip_with_escaped_name() {
    let topic = Topic::new("a\"b\\c".to_owned(), "./root");
    let meta = TopicMetaData::new(topic, 1, Some(0), 1);
    let text = meta.serialize();
    let back = TopicMetaData::deserialize(&text).unwrap();
    assert_eq!(back, meta);
    assert_eq!(back.topic().name(), "a\"b\\c");
}

#[test]
fn manifest_text_is_valid_toml() {
    let topic = Topic::new("foo".to_owned(), "./root");
    let meta = TopicMetaData::new(topic, 3, Some(5), 4);
    let text = meta.serialize();
    let value: toml::Value = text.parse().expect("the manifest must parse as TOML");
    assert_eq!(value["num_of_msg_per_file"].as_integer(), Some(3));
    assert_eq!(value["last_flushed_offset"].as_integer(), Some(5));
    assert_eq!(value["num_of_segments"].as_integer(), Some(4));
    assert_eq!(value["topic"]["name"].as_str(), Some("foo"));
    assert_eq!(value["topic"]["path"].as_str(), Some("./root/foo"));
    assert_eq!(value["topic"]["metadata_path"].as_str(), Some("./root/foo/metadata.toml"));
}

#[test]
fn manifest_omits_absent_watermark() {
    let text = meta_foo().serialize();
    assert!(!text.contains("last_flushed_offset"));
    let value: toml::Value = text.parse().unwrap();
    assert!(value.get("last_flushed_offset").is_none());
}

#[test]
fn corrupt_manifest_is_rejected() {
    assert_eq!(TopicMetaData::deserialize(""), Err(ManifestError::Corrupt));
    assert_eq!(TopicMetaData::deserialize("not a manifest\n"), Err(ManifestError::Corrupt));
    // A zero segment capacity violates the manifest invariant.
    let bad = "num_of_msg_per_file = 0\nnum_of_segments = 4\n\n[topic]\nname = \"foo\"\npath = \"p\"\nmetadata_path = \"m\"\n";
    assert_eq!(TopicMetaData::deserialize(bad), Err(ManifestError::Corrupt));
    // A watermark line that does not hold a number is corrupt.
    let bad = "num_of_msg_per_file = 3\nlast_flushed_offset = x\nnum_of_segments = 4\n\n[topic]\nname = \"foo\"\npath = \"p\"\nmetadata_path = \"m\"\n";
    assert_eq!(TopicMetaData::deserialize(bad), Err(ManifestError::Corrupt));
    // Only the canonical digit form is accepted: no leading zeros.
    let bad = "num_of_msg_per_file = 03\nnum_of_segments = 4\n\n[topic]\nname = \"foo\"\npath = \"p\"\nmetadata_path = \"m\"\n";
    assert_eq!(TopicMetaData::deserialize(bad), Err(ManifestError::Corrupt));
    // Trailing bytes after the last field are corrupt.
    let meta = meta_foo();
    let mut text = meta.serialize();
    text.push_str("x");
    assert_eq!(TopicMetaData::deserialize(&text), Err(ManifestError::Corrupt));
}

#[test]
fn creation_plan_covers_every_segment_directory() {
    let meta = meta_foo();
    let creator = SimpleDiskTopicCreator::new();
    let plan = creator.create_topic_plan(&meta);
    assert_eq!(plan.topic_dir, "./root/foo");
    assert_eq!(plan.metadata_path, "./root/foo/metadata.toml");
    assert_eq!(plan.manifest, meta.serialize());
    assert_eq!(
        plan.segment_dirs,
        vec![
            "./root/foo/0".to_owned(),
            "./root/foo/1".to_owned(),
            "./root/foo/2".to_owned(),
            "./root/foo/3".to_owned(),
        ]
    );
}

use std::collections::HashMap;

use stream_relay::broker::{
    AdminAction, PublisherAction, SimpleAdminConnectionHandler, SimplePublisherConnectionHandler,
    SimpleSubscriberConnectionHandler, SubscriberAction,
};
use stream_relay::creator::SimpleDiskTopicCreator;
use stream_relay::reader::{read_message_from_content, ReadError, SimpleDiskTopicReader};
use stream_relay::sesp::Command;
use stream_relay::topic::offset_to_file_path;
use stream_relay::types::{Message, Topic, TopicMetaData};
use stream_relay::writer::SimpleDiskTopicWriter;

/// The data files of one topic, in memory: path to bytes.
type Disk = HashMap<String, Vec<u8>>;

/// The manifest file, in memory: its modification time and text.
type ManifestFile = (u64, String);

fn append_one(writer: &mut SimpleDiskTopicWriter, disk: &mut Disk, bytes: &[u8]) {
    let path = writer.append_path();
    disk.entry(path).or_default().extend_from_slice(bytes);
    writer.write();
}

fn flush(writer: &mut SimpleDiskTopicWriter, manifest: &mut ManifestFile, mtime: u64) {
    manifest.1 = writer.flush_payload();
    manifest.0 = mtime;
    writer.flush_topic_metadata();
}

fn read_at(
    reader: &mut SimpleDiskTopicReader,
    disk: &Disk,
    manifest: &ManifestFile,
    offset: usize,
    now: u64,
) -> Option<Message> {
    if reader.should_refresh(offset, now) {
        let _ = reader.update_topics_metadata_info_if_changed(manifest.0, &manifest.1);
    }
    match reader.locate(offset) {
        None => None,
        Some((path, line)) => {
            let content = disk.get(&path).expect("a flushed offset's file must exist");
            Some(
                read_message_from_content(content, line, offset)
                    .expect("a flushed offset must be readable"),
            )
        }
    }
}

fn reader_test_boiler_plate(root_path: &str, topic_metadata: TopicMetaData, num_of_msgs: usize) {
    let _ = root_path;
    let mut disk = Disk::new();
    let mut manifest: ManifestFile = (0, topic_metadata.serialize());

    let mut writer = SimpleDiskTopicWriter::new(topic_metadata.clone(), None);
    let mut reader = SimpleDiskTopicReader::new(topic_metadata.clone(), 0, 0);

    let mut written_msg = vec![];
    for i in 0..num_of_msgs {
        let value = format!("hello{i}\n").into_bytes();
        append_one(&mut writer, &mut disk, &value);
        written_msg.push(Message::new(value, None));
    }

    flush(&mut writer, &mut manifest, 1);

    for i in 0..num_of_msgs {
        let read_msg = read_at(&mut reader, &disk, &manifest, i, 2).unwrap();
        assert_eq!(written_msg.get(i).unwrap().value(), read_msg.value());
    }
}

#[test]
fn simple_disk_topic_reader_test_01() {
    let root_path = "./simple_disk_topic_reader_test_01";

    let topic = Topic::new("foo".to_owned(), root_path);
    let topic_metadata = TopicMetaData::new(topic, 3, None, 4);

    reader_test_boiler_plate(root_path, topic_metadata, 1);
}

#[test]
fn simple_disk_topic_reader_test_02() {
    let root_path = "./simple_disk_topic_reader_test_02";

    let topic = Topic::new("foo".to_owned(), root_path);
    let topic_metadata = TopicMetaData::new(topic, 3, None, 4);

    reader_test_boiler_plate(root_path, topic_metadata, 2);
}

#[test]
fn simple_disk_topic_reader_test_03() {
    let root_path = "./simple_disk_topic_reader_test_03";

    let topic = Topic::new("foo".to_owned(), root_path);
    let topic_metadata = TopicMetaData::new(topic, 3, None, 4);

    reader_test_boiler_plate(root_path, topic_metadata, 3);
}

#[test]
fn simple_disk_topic_reader_test_04() {
    let root_path = "./simple_disk_topic_reader_test_04";

    let topic = Topic::new("foo".to_owned(), root_path);
    let topic_metadata = TopicMetaData::new(topic, 3, None, 4);

    reader_test_boiler_plate(root_path, topic_metadata, 3);
}

#[test]
fn simple_disk_topic_writer_dot_flush_topic_metadata_test_01() {
    let root_path = "./simple_disk_topic_writer_dot_flush_topic_metadata_test_01";

    let topic = Topic::new("foo".to_owned(), root_path);
    let topic_metadata = TopicMetaData::new_with_few_defaults(topic);

    let mut writer = SimpleDiskTopicWriter::new(topic_metadata.clone(), None);
    let payload = writer.flush_payload();
    writer.flush_topic_metadata();

    let written_metadata = TopicMetaData::deserialize(&payload).unwrap();
    assert_eq!(topic_metadata, written_metadata);
}

#[test]
fn simple_disk_topic_writer_dot_write_test_produce_single_msg_01() {
    let root_path = "./simple_disk_topic_writer_dot_write_test_produce_single_msg_01";

    let topic = Topic::new("foo".to_owned(), root_path);
    let topic_metadata = TopicMetaData::new_with_few_defaults(topic);

    let mut disk = Disk::new();
    let mut writer = SimpleDiskTopicWriter::new(topic_metadata.clone(), None);

    let msg_to_be_written = "hello\n";
    append_one(&mut writer, &mut disk, msg_to_be_written.as_bytes());

    let written_path = offset_to_file_path(&topic_metadata, &0);
    let written_msg = disk.get(&written_path).unwrap();

    assert_eq!(written_msg, &msg_to_be_written.as_bytes().to_vec());
}

#[test]
fn simple_disk_topic_writer_dot_write_test_produce_multi_msg_01() {
    let root_path = "./simple_disk_topic_writer_dot_write_test_produce_multi_msg_01";

    let topic = Topic::new("foo".to_owned(), root_path);
    let topic_metadata = TopicMetaData::new_with_few_defaults(topic);

    let mut disk = Disk::new();
    let mut writer = SimpleDiskTopicWriter::new(topic_metadata.clone(), None);

    let mut written_msg_content_should_be = Vec::new();
    for i in 0..(*topic_metadata.num_of_msg_per_file()) {
        let msg_val = format!("hello{i}\n");
        written_msg_content_should_be.extend_from_slice(msg_val.as_bytes());
        append_one(&mut writer, &mut disk, msg_val.as_bytes());
    }

    let written_path = offset_to_file_path(&topic_metadata, &0);
    let written_msg = disk.get(&written_path).unwrap();

    assert_eq!(written_msg, &written_msg_content_should_be);
}

#[test]
fn simple_disk_topic_writer_dot_write_test_produce_multi_msg_02() {
    let root_path = "./simple_disk_topic_writer_dot_write_test_produce_multi_msg_02";

    let topic = Topic::new("foo".to_owned(), root_path);
    let topic_metadata = TopicMetaData::new_with_few_defaults(topic);

    let mut disk = Disk::new();
    let mut writer = SimpleDiskTopicWriter::new(topic_metadata.clone(), None);

    let mut written_msg_content_should_be = Vec::new();
    for i in 0..(*topic_metadata.num_of_msg_per_file()) {
        let msg_val = format!("hello{i}\n");
        written_msg_content_should_be.extend_from_slice(msg_val.as_bytes());
        append_one(&mut writer, &mut disk, msg_val.as_bytes());
    }

    let written_path = offset_to_file_path(&topic_metadata, &0);
    let written_msg = disk.get(&written_path).unwrap();

    assert_eq!(written_msg, &written_msg_content_should_be);

    let msg_val = "this_msg_should_go_in_new_file\n";
    append_one(&mut writer, &mut disk, msg_val.as_bytes());

    let written_path =
        offset_to_file_path(&topic_metadata, &(topic_metadata.num_of_msg_per_file() + 1));
    let written_msg = disk.get(&written_path).unwrap();

    assert_eq!(written_msg, &msg_val.as_bytes().to_vec());
}

#[test]
fn create_and_round_trip_one_message() {
    let topic = Topic::new("foo".to_owned(), "./root");
    let meta = TopicMetaData::new(topic, 3, None, 4);

    let creator = SimpleDiskTopicCreator::new();
    let plan = creator.create_topic_plan(&meta);
    let mut disk = Disk::new();
    let mut manifest: ManifestFile = (0, plan.manifest);

    let mut writer = SimpleDiskTopicWriter::new(meta.clone(), None);
    let mut reader = SimpleDiskTopicReader::new(
        TopicMetaData::deserialize(&manifest.1).unwrap(),
        0,
        0,
    );

    append_one(&mut writer, &mut disk, b"hello\n");
    flush(&mut writer, &mut manifest, 1);

    let msg = read_at(&mut reader, &disk, &manifest, 0, 2).unwrap();
    assert_eq!(msg.value(), &b"hello\n".to_vec());
    assert_eq!(msg.offset(), Some(0));
    assert_eq!(read_at(&mut reader, &disk, &manifest, 1, 3), None);
}

#[test]
fn fill_a_segment() {
    let topic = Topic::new("foo".to_owned(), "./root");
    let meta = TopicMetaData::new(topic, 3, None, 4);
    let mut disk = Disk::new();
    let mut manifest: ManifestFile = (0, meta.serialize());

    let mut writer = SimpleDiskTopicWriter::new(meta.clone(), None);
    for m in [b"m0\n", b"m1\n", b"m2\n"] {
        append_one(&mut writer, &mut disk, m);
    }
    flush(&mut writer, &mut manifest, 1);

    assert_eq!(disk.get("./root/foo/0/0.txt").unwrap(), &b"m0\nm1\nm2\n".to_vec());

    let mut reader = SimpleDiskTopicReader::new(meta.clone(), 0, 0);
    for i in 0..3usize {
        let msg = read_at(&mut reader, &disk, &manifest, i, 2).unwrap();
        assert_eq!(msg.value(), &format!("m{i}\n").into_bytes());
    }
}

#[test]
fn segment_rollover_and_visibility() {
    let topic = Topic::new("foo".to_owned(), "./root");
    let meta = TopicMetaData::new(topic, 3, None, 4);
    let mut disk = Disk::new();
    let mut manifest: ManifestFile = (0, meta.serialize());

    let mut writer = SimpleDiskTopicWriter::new(meta.clone(), None);
    for m in [b"m0\n", b"m1\n", b"m2\n"] {
        append_one(&mut writer, &mut disk, m);
    }
    flush(&mut writer, &mut manifest, 1);

    // The fourth message lands in a fresh file named after its offset,
    // but stays invisible until the next flush.
    append_one(&mut writer, &mut disk, b"m3\n");
    assert_eq!(disk.get("./root/foo/1/3.txt").unwrap(), &b"m3\n".to_vec());

    let mut reader = SimpleDiskTopicReader::new(meta.clone(), 0, 0);
    assert_eq!(read_at(&mut reader, &disk, &manifest, 3, 2), None);

    flush(&mut writer, &mut manifest, 3);
    let msg = read_at(&mut reader, &disk, &manifest, 3, 4).unwrap();
    assert_eq!(msg.value(), &b"m3\n".to_vec());
}

#[test]
fn reader_refresh_rate_limit() {
    let topic = Topic::new("foo".to_owned(), "./root");
    let meta = TopicMetaData::new(topic, 3, None, 4);
    let mut disk = Disk::new();
    let mut manifest: ManifestFile = (0, meta.serialize());

    // Reader constructed at t=0 with the watermark absent and a refresh
    // interval of one second.
    let mut reader = SimpleDiskTopicReader::new(meta.clone(), 0, 1000);

    // A write and flush at t=100 milliseconds...
    let mut writer = SimpleDiskTopicWriter::new(meta.clone(), None);
    append_one(&mut writer, &mut disk, b"hello\n");
    flush(&mut writer, &mut manifest, 100);

    // ...is not seen by a read at t=200: the refresh interval has not elapsed.
    assert_eq!(read_at(&mut reader, &disk, &manifest, 0, 200), None);

    // A read at t=1200 does observe it.
    let msg = read_at(&mut reader, &disk, &manifest, 0, 1200).unwrap();
    assert_eq!(msg.value(), &b"hello\n".to_vec());
}

#[test]
fn pre_flush_reads_see_nothing() {
    let topic = Topic::new("foo".to_owned(), "./root");
    let meta = TopicMetaData::new(topic, 3, None, 4);
    let mut disk = Disk::new();
    let manifest: ManifestFile = (0, meta.serialize());

    let mut writer = SimpleDiskTopicWriter::new(meta.clone(), None);
    for m in [b"m0\n", b"m1\n"] {
        append_one(&mut writer, &mut disk, m);
    }

    let mut reader = SimpleDiskTopicReader::new(meta.clone(), 0, 0);
    for i in 0..4usize {
        assert_eq!(read_at(&mut reader, &disk, &manifest, i, 2), None);
    }
}

#[test]
fn truncated_file_is_corrupt() {
    let content = b"a\n".to_vec();
    assert_eq!(read_message_from_content(&content, 1, 1), Err(ReadError::Corrupt));
    let empty = Vec::new();
    assert_eq!(read_message_from_content(&empty, 0, 0), Err(ReadError::Corrupt));
}

#[test]
fn writer_cursor_hint_restores_offset() {
    let topic = Topic::new("foo".to_owned(), "./root");
    let meta = TopicMetaData::new(topic, 3, None, 4);

    let writer = SimpleDiskTopicWriter::new(meta.clone(), Some("7"));
    assert_eq!(writer.append_path(), offset_to_file_path(&meta, &7));

    // An unreadable cursor falls back to offset zero.
    let writer = SimpleDiskTopicWriter::new(meta.clone(), Some("7x"));
    assert_eq!(writer.append_path(), offset_to_file_path(&meta, &0));
    let writer = SimpleDiskTopicWriter::new(meta, None);
    assert_eq!(writer.append_path(), offset_to_file_path(
        &TopicMetaData::new(Topic::new("foo".to_owned(), "./root"), 3, None, 4),
        &0,
    ));
}

#[test]
fn admin_handler_routes_lifecycle_commands() {
    let admin = SimpleAdminConnectionHandler::new();
    assert_eq!(
        admin.handle_command(Command::from(b"#foo\n".to_vec())),
        AdminAction::Create(b"foo".to_vec())
    );
    assert_eq!(
        admin.handle_command(Command::from(b"!foo\n".to_vec())),
        AdminAction::Delete(b"foo".to_vec())
    );
    assert_eq!(admin.handle_command(Command::from(b">data\n".to_vec())), AdminAction::Reject);
    assert_eq!(admin.handle_command(Command::from(b"garbage".to_vec())), AdminAction::Reject);
}

#[test]
fn publisher_handler_requires_selection() {
    let mut publisher = SimplePublisherConnectionHandler::new();
    assert_eq!(
        publisher.handle_command(Command::from(b">hello\n".to_vec())),
        PublisherAction::RejectUnselected
    );
    assert_eq!(
        publisher.handle_command(Command::from(b"@foo\n".to_vec())),
        PublisherAction::Select(b"foo".to_vec())
    );
    publisher.confirm_selected();
    match publisher.handle_command(Command::from(b">hello\n".to_vec())) {
        PublisherAction::Publish(msg) => assert_eq!(msg.value(), &b"hello\n".to_vec()),
        other => panic!("expected a publish, got {:?}", other),
    }
    assert_eq!(
        publisher.handle_command(Command::from(b"<\n".to_vec())),
        PublisherAction::Reject
    );
}

#[test]
fn subscriber_handler_tracks_the_cursor() {
    let mut subscriber = SimpleSubscriberConnectionHandler::new();
    assert_eq!(
        subscriber.handle_command(Command::from(b"<\n".to_vec())),
        SubscriberAction::RejectUnselected
    );
    assert_eq!(
        subscriber.handle_command(Command::from(b"@foo\n".to_vec())),
        SubscriberAction::Select(b"foo".to_vec())
    );
    subscriber.confirm_selected();
    assert_eq!(
        subscriber.handle_command(Command::from(b"<\n".to_vec())),
        SubscriberAction::Read(0)
    );
    subscriber.advance();
    assert_eq!(
        subscriber.handle_command(Command::from(b"<\n".to_vec())),
        SubscriberAction::Read(1)
    );
    assert_eq!(
        subscriber.handle_command(Command::from(b"$1001\n".to_vec())),
        SubscriberAction::OffsetSet
    );
    assert_eq!(
        subscriber.handle_command(Command::from(b"<\n".to_vec())),
        SubscriberAction::Read(1001)
    );
    assert_eq!(
        subscriber.handle_command(Command::from(b">data\n".to_vec())),
        SubscriberAction::Reject
    );
}

#[test]
fn watermark_never_goes_back() {
    let topic = Topic::new("foo".to_owned(), "./root");
    let meta = TopicMetaData::new(topic, 3, None, 4);
    let mut disk = Disk::new();
    let mut manifest: ManifestFile = (0, meta.serialize());

    let mut writer = SimpleDiskTopicWriter::new(meta, None);
    let mut seen: Vec<Option<usize>> = Vec::new();

    // A flush before any write publishes no watermark.
    flush(&mut writer, &mut manifest, 1);
    seen.push(*TopicMetaData::deserialize(&manifest.1).unwrap().last_flushed_offset());

    append_one(&mut writer, &mut disk, b"m0\n");
    flush(&mut writer, &mut manifest, 2);
    seen.push(*TopicMetaData::deserialize(&manifest.1).unwrap().last_flushed_offset());

    append_one(&mut writer, &mut disk, b"m1\n");
    append_one(&mut writer, &mut disk, b"m2\n");
    flush(&mut writer, &mut manifest, 3);
    flush(&mut writer, &mut manifest, 4);
    seen.push(*TopicMetaData::deserialize(&manifest.1).unwrap().last_flushed_offset());

    assert_eq!(seen, vec![None, Some(0), Some(2)]);
    for pair in seen.windows(2) {
        match (pair[0], pair[1]) {
            (None, _) => {}
            (Some(a), Some(b)) => assert!(a <= b),
            (Some(_), None) => panic!("the watermark went back"),
        }
    }
}

//! Core data model: messages, topic identity, and the topic manifest.
//!
//! A topic's identity carries its derived on-disk paths as plain strings.
//! The manifest (`TopicMetaData`) is the durable descriptor of a topic; its
//! `last_flushed_offset` watermark is the sole authority for what readers
//! may see.

use vstd::prelude::*;

verus! {

/// Mathematical record of a topic identity.
#[verifier::ext_equal]
pub ghost struct TopicSpec {
    pub name: Seq<char>,
    pub path: Seq<char>,
    pub metadata_path: Seq<char>,
}

/// Mathematical record of a topic manifest.
#[verifier::ext_equal]
pub ghost struct MetaSpec {
    pub topic: TopicSpec,
    pub num_of_msg_per_file: int,
    pub last_flushed_offset: Option<int>,
    pub num_of_segments: int,
}

impl MetaSpec {
    /// A valid manifest: segment capacity and directory fan-out are positive.
    pub open spec fn wf(self) -> bool {
        &&& 1 <= self.num_of_msg_per_file <= usize::MAX
        &&& 1 <= self.num_of_segments <= usize::MAX
        &&& match self.last_flushed_offset {
            Some(k) => 0 <= k <= usize::MAX,
            None => true,
        }
    }
}

/// One message: opaque bytes (terminated by a newline, by the producer's
/// contract) and the offset a reader materialized it at, if any.
#[derive(Debug, PartialEq)]
pub struct Message {
    value: Vec<u8>,
    offset: Option<usize>,
}

impl Message {
    pub fn new(value: Vec<u8>, offset: Option<usize>) -> (r: Self)
        ensures
            r.bytes() == value@,
            r.spec_offset() == offset,
    {
        Self { value, offset }
    }

    /// Constructs a message straight from its bytes, with no offset.
    pub fn from(value: Vec<u8>) -> (r: Self)
        ensures
            r.bytes() == value@,
            r.spec_offset() is None,
    {
        Message::new(value, None)
    }

    pub fn value(&self) -> (r: &Vec<u8>)
        ensures
            r@ == self.bytes(),
    {
        &self.value
    }

    pub fn offset(&self) -> (r: Option<usize>)
        ensures
            r == self.spec_offset(),
    {
        match self.offset {
            Some(offset) => Some(offset),
            None => None,
        }
    }

    pub fn set_offset(&mut self, offset: usize)
        ensures
            final(self).spec_offset() == Some(offset),
            final(self).bytes() == old(self).bytes(),
    {
        self.offset = Some(offset);
    }

    /// The message bytes, as a sequence.
    pub closed spec fn bytes(self) -> Seq<u8> {
        self.value@
    }

    /// The offset field, for contracts.
    pub closed spec fn spec_offset(self) -> Option<usize> {
        self.offset
    }
}

impl Clone for Message {
    fn clone(&self) -> (r: Self)
        ensures
            r.bytes() == self.bytes(),
            r.spec_offset() == self.spec_offset(),
    {
        let r = Message { value: self.value.clone(), offset: self.offset };
        proof {
            assert(r.bytes() =~= self.bytes());
        }
        r
    }
}

/// A topic identity: a name and the derived paths of its directory and
/// manifest file. Immutable for the life of the topic.
#[derive(Debug, PartialEq)]
pub struct Topic {
    name: String,
    path: String,
    metadata_path: String,
}

/// The file name of every topic manifest.
pub open spec fn metadata_file_name() -> Seq<char> {
    "metadata.toml"@
}

/// Two path components joined by the path separator.
pub open spec fn path_join(a: Seq<char>, b: Seq<char>) -> Seq<char> {
    a + seq!['/'] + b
}

impl View for Topic {
    type V = TopicSpec;

    closed spec fn view(&self) -> TopicSpec {
        TopicSpec { name: self.name@, path: self.path@, metadata_path: self.metadata_path@ }
    }
}

impl Topic {
    /// Derives the topic's paths under `root_path`; touches no disk.
    pub fn new(name: String, root_path: &str) -> (r: Self)
        ensures
            r@.name == name@,
            r@.path == path_join(root_path@, name@),
            r@.metadata_path == path_join(r@.path, metadata_file_name()),
    {
        let mut path = String::from_str(root_path);
        path.append("/");
        path.append(name.as_str());
        let mut metadata_path = path.clone();
        metadata_path.append("/");
        metadata_path.append("metadata.toml");
        proof {
            reveal_strlit("/");
            assert(path@ =~= path_join(root_path@, name@));
            assert(metadata_path@ =~= path_join(path@, metadata_file_name()));
        }
        Self { name, path, metadata_path }
    }

    /// Reassembles an identity from stored fields, as the manifest codec
    /// reads them back; derives nothing.
    pub(crate) fn from_parts(name: String, path: String, metadata_path: String) -> (r: Self)
        ensures
            r@ == (TopicSpec { name: name@, path: path@, metadata_path: metadata_path@ }),
    {
        Self { name, path, metadata_path }
    }

    pub fn name(&self) -> (r: &str)
        ensures
            r@ == self@.name,
    {
        self.name.as_str()
    }

    pub fn path(&self) -> (r: &str)
        ensures
            r@ == self@.path,
    {
        self.path.as_str()
    }

    pub fn metadata_path(&self) -> (r: &str)
        ensures
            r@ == self@.metadata_path,
    {
        self.metadata_path.as_str()
    }
}

impl Clone for Topic {
    fn clone(&self) -> (r: Self)
        ensures
            r@ == self@,
    {
        Topic {
            name: self.name.clone(),
            path: self.path.clone(),
            metadata_path: self.metadata_path.clone(),
        }
    }
}

/// A topic paired with a read offset.
#[derive(Debug, PartialEq)]
pub struct TopicWithOffset {
    topic: Topic,
    offset: usize,
}

impl TopicWithOffset {
    pub fn new(topic: Topic, offset: usize) -> (r: Self)
        ensures
            r.spec_topic() == topic@,
            r.spec_offset() == offset,
    {
        Self { topic, offset }
    }

    pub fn offset(&self) -> (r: &usize)
        ensures
            *r == self.spec_offset(),
    {
        &self.offset
    }

    pub closed spec fn spec_offset(self) -> usize {
        self.offset
    }

    pub closed spec fn spec_topic(self) -> TopicSpec {
        self.topic@
    }
}

impl Clone for TopicWithOffset {
    fn clone(&self) -> (r: Self)
        ensures
            r.spec_topic() == self.spec_topic(),
            r.spec_offset() == self.spec_offset(),
    {
        TopicWithOffset { topic: self.topic.clone(), offset: self.offset }
    }
}

/// The topic manifest: identity, layout parameters fixed at creation, and
/// the flushed-offset watermark.
#[derive(Debug, PartialEq)]
pub struct TopicMetaData {
    topic: Topic,
    num_of_msg_per_file: usize,
    last_flushed_offset: Option<usize>,
    num_of_segments: usize,
}

impl View for TopicMetaData {
    type V = MetaSpec;

    closed spec fn view(&self) -> MetaSpec {
        MetaSpec {
            topic: self.topic@,
            num_of_msg_per_file: self.num_of_msg_per_file as int,
            last_flushed_offset: match self.last_flushed_offset {
                Some(k) => Some(k as int),
                None => None,
            },
            num_of_segments: self.num_of_segments as int,
        }
    }
}

impl Clone for TopicMetaData {
    fn clone(&self) -> (r: Self)
        ensures
            r@ == self@,
    {
        TopicMetaData {
            topic: self.topic.clone(),
            num_of_msg_per_file: self.num_of_msg_per_file,
            last_flushed_offset: self.last_flushed_offset,
            num_of_segments: self.num_of_segments,
        }
    }
}

impl TopicMetaData {
    pub fn new(
        topic: Topic,
        num_of_msg_per_file: usize,
        last_flushed_offset: Option<usize>,
        num_of_segments: usize,
    ) -> (r: Self)
        requires
            num_of_msg_per_file >= 1,
            num_of_segments >= 1,
        ensures
            r@.topic == topic@,
            r@.num_of_msg_per_file == num_of_msg_per_file as int,
            r@.last_flushed_offset == match last_flushed_offset {
                Some(k) => Some(k as int),
                None => None::<int>,
            },
            r@.num_of_segments == num_of_segments as int,
            r@.wf(),
    {
        Self { topic, num_of_msg_per_file, last_flushed_offset, num_of_segments }
    }

    /// A manifest with the default layout: 32 messages per file, 64 segment
    /// directories, and nothing flushed yet.
    pub fn new_with_few_defaults(topic: Topic) -> (r: Self)
        ensures
            r@.topic == topic@,
            r@.num_of_msg_per_file == 32,
            r@.last_flushed_offset is None,
            r@.num_of_segments == 64,
            r@.wf(),
    {
        Self { topic, num_of_msg_per_file: 32, last_flushed_offset: None, num_of_segments: 64 }
    }

    pub fn topic(&self) -> (r: &Topic)
        ensures
            r@ == self@.topic,
    {
        &self.topic
    }

    pub fn num_of_msg_per_file(&self) -> (r: &usize)
        ensures
            *r == self@.num_of_msg_per_file,
    {
        &self.num_of_msg_per_file
    }

    pub fn last_flushed_offset(&self) -> (r: &Option<usize>)
        ensures
            self@.last_flushed_offset == match *r {
                Some(k) => Some(k as int),
                None => None::<int>,
            },
    {
        &self.last_flushed_offset
    }

    /// Only the topic writer's flush routine may move the watermark; readers
    /// hold deserialized snapshots and never call this.
    pub(crate) fn set_last_flushed_offset(&mut self, new_offset: Option<usize>)
        ensures
            final(self)@ == (MetaSpec {
                last_flushed_offset: match new_offset {
                    Some(k) => Some(k as int),
                    None => None::<int>,
                },
                ..old(self)@
            }),
    {
        self.last_flushed_offset = new_offset;
    }

    pub fn num_of_segments(&self) -> (r: &usize)
        ensures
            *r == self@.num_of_segments,
    {
        &self.num_of_segments
    }
}

} // verus!

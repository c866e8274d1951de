//! The topic creator: the exact plan for materializing a new topic's
//! directory tree and initial manifest.
//!
//! Creating a topic is: make the topic directory, make one child directory
//! per segment named `0` through `num_of_segments - 1`, and write the
//! manifest text to the metadata path. The plan computes every path and
//! the manifest bytes; the embedding process executes it (re-creating an
//! existing directory is a no-op there).

use vstd::prelude::*;

use crate::manifest::manifest_text;
use crate::num::{dec_digits, usize_to_string};
use crate::types::{path_join, TopicMetaData};

verus! {

/// Everything a topic's creation touches on disk.
pub struct CreateTopicPlan {
    /// The topic's own directory.
    pub topic_dir: String,
    /// The segment directories, in creation order.
    pub segment_dirs: Vec<String>,
    /// Where the manifest goes.
    pub metadata_path: String,
    /// The manifest text to write there.
    pub manifest: String,
}

/// Materializes topics on disk, through plans.
pub struct SimpleDiskTopicCreator;

impl SimpleDiskTopicCreator {
    pub fn new() -> (r: Self) {
        SimpleDiskTopicCreator
    }

    /// The plan for creating the topic that `metadata` describes.
    pub fn create_topic_plan(&self, metadata: &TopicMetaData) -> (r: CreateTopicPlan)
        requires
            metadata@.wf(),
        ensures
            r.topic_dir@ == metadata@.topic.path,
            r.metadata_path@ == metadata@.topic.metadata_path,
            r.manifest@ == manifest_text(metadata@),
            r.segment_dirs@.len() == metadata@.num_of_segments,
            forall|i: int| 0 <= i < r.segment_dirs@.len() ==> #[trigger] r.segment_dirs@[i]@
                == path_join(metadata@.topic.path, dec_digits(i as nat)),
    {
        let topic_dir = String::from_str(metadata.topic().path());
        let metadata_path = String::from_str(metadata.topic().metadata_path());
        let manifest = metadata.serialize();
        let num_of_segments = *metadata.num_of_segments();
        let mut segment_dirs: Vec<String> = Vec::new();
        let mut i: usize = 0;
        while i < num_of_segments
            invariant
                0 <= i <= num_of_segments,
                num_of_segments == metadata@.num_of_segments,
                segment_dirs@.len() == i,
                forall|j: int| 0 <= j < i ==> #[trigger] segment_dirs@[j]@ == path_join(
                    metadata@.topic.path,
                    dec_digits(j as nat),
                ),
            decreases num_of_segments - i,
        {
            let mut dir = String::from_str(metadata.topic().path());
            dir.append("/");
            dir.append(usize_to_string(i).as_str());
            proof {
                reveal_strlit("/");
                assert(dir@ =~= path_join(metadata@.topic.path, dec_digits(i as nat)));
            }
            segment_dirs.push(dir);
            i = i + 1;
        }
        CreateTopicPlan { topic_dir, segment_dirs, metadata_path, manifest }
    }
}

} // verus!

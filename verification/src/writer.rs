//! The topic writer: appends messages to the current segment file, rolls
//! to a fresh file at the segment boundary, and publishes the flushed
//! watermark through the manifest.
//!
//! The writer is the state machine alone; the embedding process performs
//! the file appends and the manifest rewrite. One write is: append the
//! message's bytes to `append_path()`, and on success call `write()`. One
//! flush is: persist `flush_payload()` over the manifest file, and on
//! success call `flush_topic_metadata()`. A failed append or rewrite
//! leaves the state untouched, so a retry is safe.

use vstd::prelude::*;

use crate::manifest::manifest_text;
use crate::num::parse_dec_spec;
use crate::topic::{file_number_of, offset_to_file_path, path_chars};
use crate::types::{MetaSpec, TopicMetaData};

verus! {

/// Ordering on watermarks: absent sits below every flushed offset.
pub open spec fn wm_le(a: Option<int>, b: Option<int>) -> bool {
    match a {
        None => true,
        Some(x) => match b {
            None => false,
            Some(y) => x <= y,
        },
    }
}

/// The single owning writer of one topic.
pub struct SimpleDiskTopicWriter {
    data_insertion_file_path: String,
    writer_offset: usize,
    topic_metadata: TopicMetaData,
}

impl SimpleDiskTopicWriter {
    /// The next offset this writer will assign.
    pub closed spec fn spec_offset(self) -> usize {
        self.writer_offset
    }

    /// The writer's owned manifest copy.
    pub closed spec fn spec_meta(self) -> MetaSpec {
        self.topic_metadata@
    }

    /// The path of the segment file the next message goes to.
    pub closed spec fn spec_path(self) -> Seq<char> {
        self.data_insertion_file_path@
    }

    /// Well-formed writer: a valid manifest, and the insertion path is the
    /// one the offset mapping gives for the next offset.
    pub open spec fn wf(self) -> bool {
        &&& self.spec_meta().wf()
        &&& self.spec_path() == path_chars(self.spec_meta(), self.spec_offset() as int)
    }

    /// The watermark never reaches the next offset: what was flushed was
    /// assigned earlier.
    pub open spec fn wm_consistent(self) -> bool {
        match self.spec_meta().last_flushed_offset {
            None => true,
            Some(k) => 0 <= k < self.spec_offset(),
        }
    }

    /// The watermark a flush at this state publishes: one before the next
    /// offset, or absent when nothing was written yet.
    pub open spec fn flush_wm(self) -> Option<int> {
        if self.spec_offset() == 0 {
            None
        } else {
            Some(self.spec_offset() - 1)
        }
    }

    /// The manifest as a flush at this state leaves it.
    pub open spec fn flushed_meta(self) -> MetaSpec {
        MetaSpec { last_flushed_offset: self.flush_wm(), ..self.spec_meta() }
    }

    /// Builds a writer from its manifest and the content of the optional
    /// writer-cursor file: a plain decimal restores the next offset, a
    /// missing or unreadable cursor starts at zero. The cursor is a
    /// writer-private hint, not the durability contract readers see.
    pub fn new(topic_metadata: TopicMetaData, cursor_file: Option<&str>) -> (w: Self)
        requires
            topic_metadata@.wf(),
        ensures
            w.spec_meta() == topic_metadata@,
            w.spec_offset() as int == (match cursor_file {
                Some(c) => match parse_dec_spec(c@) {
                    Some(v) => v as int,
                    None => 0,
                },
                None => 0,
            }),
            w.wf(),
    {
        let writer_offset: usize = match cursor_file {
            Some(c) => match crate::num::parse_dec_str(c) {
                Some(v) => v,
                None => 0,
            },
            None => 0,
        };
        let data_insertion_file_path = offset_to_file_path(&topic_metadata, &writer_offset);
        Self { data_insertion_file_path, writer_offset, topic_metadata }
    }

    /// The next offset this writer will assign.
    pub fn writer_offset(&self) -> (r: usize)
        ensures
            r == self.spec_offset(),
    {
        self.writer_offset
    }

    /// The writer's owned manifest copy.
    pub fn topic_metadata(&self) -> (r: &TopicMetaData)
        ensures
            r@ == self.spec_meta(),
    {
        &self.topic_metadata
    }

    /// Where the next message's bytes must be appended.
    pub fn append_path(&self) -> (r: String)
        requires
            self.wf(),
        ensures
            r@ == path_chars(self.spec_meta(), self.spec_offset() as int),
    {
        self.data_insertion_file_path.clone()
    }

    /// Records one successful append: assigns the next offset and, when
    /// the new offset starts a fresh segment file, moves the insertion
    /// path there. Called only after the bytes reached `append_path()`;
    /// on a failed append nothing is called and the state is unchanged.
    pub fn write(&mut self)
        requires
            old(self).wf(),
            old(self).spec_offset() < usize::MAX,
        ensures
            final(self).spec_meta() == old(self).spec_meta(),
            final(self).spec_offset() == old(self).spec_offset() + 1,
            final(self).wf(),
            old(self).wm_consistent() ==> final(self).wm_consistent(),
    {
        self.writer_offset = self.writer_offset + 1;
        if self.writer_offset % *self.topic_metadata.num_of_msg_per_file() == 0 {
            self.data_insertion_file_path = offset_to_file_path(
                &self.topic_metadata,
                &self.writer_offset,
            );
        } else {
            proof {
                let n = self.topic_metadata@.num_of_msg_per_file;
                let o = old(self).spec_offset() as int;
                assert(o / n == (o + 1) / n) by (nonlinear_arith)
                    requires
                        n >= 1,
                        o >= 0,
                        (o + 1) % n != 0,
                ;
                assert(file_number_of(self.topic_metadata@, o) == file_number_of(
                    self.topic_metadata@,
                    o + 1,
                ));
            }
        }
    }

    /// The manifest text a flush at this state persists: the current
    /// manifest with the watermark advanced to cover every written offset.
    pub fn flush_payload(&self) -> (r: String)
        ensures
            r@ == manifest_text(self.flushed_meta()),
    {
        let mut m = self.topic_metadata.clone();
        let new_offset = if self.writer_offset == 0 {
            None
        } else {
            Some(self.writer_offset - 1)
        };
        m.set_last_flushed_offset(new_offset);
        proof {
            assert(m@ =~= self.flushed_meta());
        }
        m.serialize()
    }

    /// Records one successful manifest rewrite: moves the owned manifest's
    /// watermark to what `flush_payload()` persisted. Across any sequence
    /// of writes and flushes the watermark never goes back.
    pub fn flush_topic_metadata(&mut self)
        ensures
            final(self).spec_meta() == old(self).flushed_meta(),
            final(self).spec_offset() == old(self).spec_offset(),
            final(self).spec_path() == old(self).spec_path(),
            old(self).wf() ==> final(self).wf(),
            final(self).wm_consistent(),
            old(self).wm_consistent() ==> wm_le(
                old(self).spec_meta().last_flushed_offset,
                final(self).spec_meta().last_flushed_offset,
            ),
    {
        let new_offset = if self.writer_offset == 0 {
            None
        } else {
            Some(self.writer_offset - 1)
        };
        self.topic_metadata.set_last_flushed_offset(new_offset);
        proof {
            assert(final(self).spec_meta() =~= old(self).flushed_meta());
        }
    }
}

/// One step of the writer, as the manifest and offset see it.
pub ghost enum WriterOp {
    Write,
    Flush,
}

/// The part of the writer state the watermark law speaks of.
#[verifier::ext_equal]
pub ghost struct WriterSt {
    pub wm: Option<int>,
    pub offset: int,
}

/// The watermark stays below the next offset.
pub open spec fn st_inv(s: WriterSt) -> bool {
    match s.wm {
        None => true,
        Some(k) => 0 <= k < s.offset,
    }
}

/// What one operation does: a write assigns the next offset, a flush
/// publishes everything written so far.
pub open spec fn apply_op(s: WriterSt, op: WriterOp) -> WriterSt {
    match op {
        WriterOp::Write => WriterSt { offset: s.offset + 1, ..s },
        WriterOp::Flush => WriterSt {
            wm: if s.offset == 0 {
                None
            } else {
                Some(s.offset - 1)
            },
            ..s
        },
    }
}

/// A whole run of operations, applied in order.
pub open spec fn apply_ops(s: WriterSt, ops: Seq<WriterOp>) -> WriterSt
    decreases ops.len(),
{
    if ops.len() == 0 {
        s
    } else {
        apply_ops(apply_op(s, ops.first()), ops.drop_first())
    }
}

/// Watermark monotonicity: across any sequence of writes and flushes,
/// starting from a consistent state with a non-negative offset, the
/// watermark never decreases and the state stays consistent.
pub proof fn lemma_watermark_monotone(s: WriterSt, ops: Seq<WriterOp>)
    requires
        st_inv(s),
        s.offset >= 0,
    ensures
        st_inv(apply_ops(s, ops)),
        apply_ops(s, ops).offset >= 0,
        wm_le(s.wm, apply_ops(s, ops).wm),
    decreases ops.len(),
{
    if ops.len() > 0 {
        let s1 = apply_op(s, ops.first());
        lemma_watermark_monotone(s1, ops.drop_first());
    }
}

} // verus!

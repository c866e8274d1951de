//! The topic reader: translates a requested offset into a segment file and
//! line, trailing the manifest's flushed watermark.
//!
//! The reader is the state machine alone; the embedding process stats and
//! reads files. One read is: ask `should_refresh` whether the manifest
//! view is due for a refresh at the current wall clock; if so, hand the
//! manifest file's modification time and text to
//! `update_topics_metadata_info_if_changed` (a failed refresh keeps the
//! cached view); then `locate` the offset, and when it is durable, read
//! the file and let `read_message_from_content` pick the line.

use vstd::prelude::*;

use crate::manifest::{parse_manifest_spec, ManifestError};
use crate::topic::{line_index_of, offset_to_file_path, path_chars};
use crate::types::{Message, MetaSpec, TopicMetaData};

verus! {

/// What a read can report besides a message: the offset should be on disk
/// but its file or line is missing. The durability invariant was violated;
/// this is never masked.
#[derive(Debug, PartialEq)]
pub enum ReadError {
    Corrupt,
}

/// Splits off the first line of a byte string (excluding its newline) and
/// the rest after the newline; nothing when no newline is left.
pub open spec fn take_line_b(s: Seq<u8>) -> Option<(Seq<u8>, Seq<u8>)>
    decreases s.len(),
{
    if s.len() == 0 {
        None
    } else if s.first() == 10u8 {
        Some((Seq::<u8>::empty(), s.drop_first()))
    } else {
        match take_line_b(s.drop_first()) {
            Some((l, r)) => Some((seq![s.first()] + l, r)),
            None => None,
        }
    }
}

/// The `i`-th message held in a segment file's bytes: the `i`-th line with
/// its newline put back. Nothing when the file has too few lines.
pub open spec fn nth_msg(c: Seq<u8>, i: int) -> Option<Seq<u8>>
    decreases i + 1,
{
    if i < 0 {
        None
    } else {
        match take_line_b(c) {
            Some((l, r)) => if i == 0 {
                Some(l.push(10u8))
            } else {
                nth_msg(r, i - 1)
            },
            None => None,
        }
    }
}

/// Splitting at the first newline byte, located at index `k`.
pub proof fn lemma_take_line_b_at(t: Seq<u8>, k: int)
    requires
        0 <= k < t.len(),
        t[k] == 10u8,
        forall|i: int| 0 <= i < k ==> #[trigger] t[i] != 10u8,
    ensures
        take_line_b(t) == Some((t.take(k), t.skip(k + 1))),
    decreases k,
{
    if k == 0 {
        assert(t.take(0) =~= Seq::<u8>::empty());
        assert(t.skip(1) =~= t.drop_first());
    } else {
        assert(t.first() != 10u8);
        let u = t.drop_first();
        assert(u[k - 1] == 10u8);
        assert(forall|i: int| 0 <= i < k - 1 ==> #[trigger] u[i] == t[i + 1] && u[i] != 10u8);
        lemma_take_line_b_at(u, k - 1);
        assert(seq![t.first()] + u.take(k - 1) =~= t.take(k));
        assert(u.skip(k) =~= t.skip(k + 1));
    }
}

/// Nothing splits off when the bytes hold no newline.
pub proof fn lemma_take_line_b_none(t: Seq<u8>)
    requires
        forall|i: int| 0 <= i < t.len() ==> #[trigger] t[i] != 10u8,
    ensures
        take_line_b(t) is None,
    decreases t.len(),
{
    if t.len() > 0 {
        assert(forall|i: int| 0 <= i < t.drop_first().len() ==> #[trigger] t.drop_first()[i]
            == t[i + 1]);
        lemma_take_line_b_none(t.drop_first());
    }
}

/// The first newline byte at or after `from`, if any.
fn find_nl_vec(v: &Vec<u8>, from: usize) -> (r: Option<usize>)
    requires
        from <= v@.len(),
    ensures
        (match r {
            Some(j) => from <= j < v@.len() && v@[j as int] == 10u8 && (forall|i: int|
                from <= i < j ==> #[trigger] v@[i] != 10u8),
            None => forall|i: int| from <= i < v@.len() ==> #[trigger] v@[i] != 10u8,
        }),
{
    let n = v.len();
    let mut j = from;
    while j < n
        invariant
            from <= j <= n,
            n == v@.len(),
            forall|i: int| from <= i < j ==> #[trigger] v@[i] != 10u8,
        decreases n - j,
    {
        if v[j] == 10u8 {
            return Some(j);
        }
        j = j + 1;
    }
    None
}

/// Copies the byte range `[from, to)` of `v`.
fn copy_range(v: &Vec<u8>, from: usize, to: usize) -> (r: Vec<u8>)
    requires
        from <= to <= v@.len(),
    ensures
        r@ == v@.subrange(from as int, to as int),
{
    let mut r: Vec<u8> = Vec::new();
    let mut i = from;
    while i < to
        invariant
            from <= i <= to <= v@.len(),
            r@ == v@.subrange(from as int, i as int),
        decreases to - i,
    {
        r.push(v[i]);
        proof {
            assert(v@.subrange(from as int, i + 1) =~= v@.subrange(from as int, i as int).push(
                v@[i as int],
            ));
        }
        i = i + 1;
    }
    r
}

/// Picks the message at `line_index` out of a segment file's bytes and
/// stamps it with the offset it was requested at. A file with too few
/// lines violates the durability invariant and is reported as corrupt.
pub fn read_message_from_content(content: &Vec<u8>, line_index: usize, offset: usize) -> (r: Result<
    Message,
    ReadError,
>)
    ensures
        (match r {
            Ok(msg) => nth_msg(content@, line_index as int) == Some(msg.bytes())
                && msg.spec_offset() == Some(offset),
            Err(_) => nth_msg(content@, line_index as int) is None,
        }),
{
    let n = content.len();
    let mut pos: usize = 0;
    let mut k: usize = 0;
    proof {
        assert(content@.skip(0) =~= content@);
    }
    while k < line_index
        invariant
            0 <= pos <= n,
            n == content@.len(),
            k <= line_index,
            nth_msg(content@, line_index as int) == nth_msg(
                content@.skip(pos as int),
                line_index - k,
            ),
        decreases line_index - k,
    {
        match find_nl_vec(content, pos) {
            Some(j) => {
                proof {
                    let t = content@.skip(pos as int);
                    assert(forall|i: int| 0 <= i < t.len() ==> #[trigger] t[i] == content@[pos + i]);
                    assert(t[j - pos] == 10u8);
                    lemma_take_line_b_at(t, j - pos);
                    assert(t.skip(j - pos + 1) =~= content@.skip(j + 1));
                }
                pos = j + 1;
                k = k + 1;
            },
            None => {
                proof {
                    let t = content@.skip(pos as int);
                    assert(forall|i: int| 0 <= i < t.len() ==> #[trigger] t[i] == content@[pos + i]);
                    lemma_take_line_b_none(t);
                }
                return Err(ReadError::Corrupt);
            },
        }
    }
    match find_nl_vec(content, pos) {
        Some(j) => {
            let bytes = copy_range(content, pos, j + 1);
            proof {
                let t = content@.skip(pos as int);
                assert(forall|i: int| 0 <= i < t.len() ==> #[trigger] t[i] == content@[pos + i]);
                assert(t[j - pos] == 10u8);
                lemma_take_line_b_at(t, j - pos);
                assert(t.take(j - pos) =~= content@.subrange(pos as int, j as int));
                assert(content@.subrange(pos as int, j as int).push(10u8) =~= content@.subrange(
                    pos as int,
                    j + 1,
                ));
            }
            Ok(Message::new(bytes, Some(offset)))
        },
        None => {
            proof {
                let t = content@.skip(pos as int);
                assert(forall|i: int| 0 <= i < t.len() ==> #[trigger] t[i] == content@[pos + i]);
                lemma_take_line_b_none(t);
            }
            Err(ReadError::Corrupt)
        },
    }
}

/// A reader over one topic: an owned manifest snapshot, the modification
/// time it was read at, and a rate limit on manifest refreshes. Times are
/// plain counts of the embedding's clock unit (milliseconds, say).
pub struct SimpleDiskTopicReader {
    topic_metadata: TopicMetaData,
    last_updated: u64,
    update_interval: u64,
    min_time_for_next_update: u64,
    last_flushed_offset: Option<usize>,
}

/// A reader that would serve from an in-memory cache of segment files;
/// the broker reads through `SimpleDiskTopicReader`.
pub struct CachedDiskTopicReader {}

impl SimpleDiskTopicReader {
    /// The manifest snapshot this reader trusts.
    pub closed spec fn spec_meta(self) -> MetaSpec {
        self.topic_metadata@
    }

    pub closed spec fn spec_last_updated(self) -> u64 {
        self.last_updated
    }

    pub closed spec fn spec_interval(self) -> u64 {
        self.update_interval
    }

    pub closed spec fn spec_min_time(self) -> u64 {
        self.min_time_for_next_update
    }

    /// The cached watermark: the highest offset this reader will serve.
    pub closed spec fn spec_wm(self) -> Option<usize> {
        self.last_flushed_offset
    }

    /// Well-formed reader: a valid manifest, the cached watermark agrees
    /// with the snapshot, and the refresh gate sits one interval past the
    /// last update.
    pub open spec fn wf(self) -> bool {
        &&& self.spec_meta().wf()
        &&& (match self.spec_wm() {
            Some(k) => self.spec_meta().last_flushed_offset == Some(k as int),
            None => self.spec_meta().last_flushed_offset is None,
        })
        &&& self.spec_min_time() == self.spec_last_updated() + self.spec_interval()
    }

    /// Builds a reader on a manifest snapshot read at `last_updated`, to
    /// be refreshed at most once per `update_interval`.
    pub fn new(topic_metadata: TopicMetaData, last_updated: u64, update_interval: u64) -> (r: Self)
        requires
            topic_metadata@.wf(),
            last_updated + update_interval <= u64::MAX,
        ensures
            r.spec_meta() == topic_metadata@,
            r.spec_last_updated() == last_updated,
            r.spec_interval() == update_interval,
            r.spec_min_time() == last_updated + update_interval,
            r.wf(),
    {
        let last_flushed_offset = *topic_metadata.last_flushed_offset();
        Self {
            topic_metadata,
            last_updated,
            update_interval,
            min_time_for_next_update: last_updated + update_interval,
            last_flushed_offset,
        }
    }

    /// The manifest snapshot this reader trusts.
    pub fn topic_metadata(&self) -> (r: &TopicMetaData)
        ensures
            r@ == self.spec_meta(),
    {
        &self.topic_metadata
    }

    /// The refresh rate limit this reader was built with.
    pub fn update_interval(&self) -> (r: u64)
        ensures
            r == self.spec_interval(),
    {
        self.update_interval
    }

    /// Whether a read at `offset`, at wall clock `now`, should attempt a
    /// manifest refresh: only when the cached view cannot serve the offset
    /// and the rate-limit gate has passed.
    pub fn should_refresh(&self, offset: usize, now: u64) -> (r: bool)
        ensures
            r == ((self.spec_wm() is None || offset > self.spec_wm()->0) && now
                > self.spec_min_time()),
    {
        let stale = match self.last_flushed_offset {
            None => true,
            Some(k) => offset > k,
        };
        stale && now > self.min_time_for_next_update
    }

    /// Takes the manifest file's modification time and text and refreshes
    /// the snapshot, when the file is no older than the cached view. A
    /// text that does not parse leaves the view unchanged and is reported.
    pub fn update_topics_metadata_info_if_changed(&mut self, mtime: u64, manifest: &str) -> (r:
        Result<(), ManifestError>)
        requires
            old(self).wf(),
            mtime + old(self).spec_interval() <= u64::MAX,
        ensures
            final(self).spec_interval() == old(self).spec_interval(),
            final(self).wf(),
            mtime < old(self).spec_last_updated() ==> *final(self) == *old(self) && r is Ok,
            mtime >= old(self).spec_last_updated() ==> (match parse_manifest_spec(manifest@) {
                Some(mv) => r is Ok && final(self).spec_meta() == mv && final(self).spec_last_updated()
                    == mtime && final(self).spec_min_time() == mtime + old(self).spec_interval(),
                None => r is Err && *final(self) == *old(self),
            }),
    {
        if mtime >= self.last_updated {
            match TopicMetaData::deserialize(manifest) {
                Ok(m) => {
                    self.last_flushed_offset = *m.last_flushed_offset();
                    self.topic_metadata = m;
                    self.last_updated = mtime;
                    self.min_time_for_next_update = mtime + self.update_interval;
                },
                Err(e) => {
                    return Err(e);
                },
            }
        }
        Ok(())
    }

    /// Resolves a requested offset against the cached watermark: the path
    /// and line index to read when the offset is durable, nothing when it
    /// is not yet visible.
    pub fn locate(&self, offset: usize) -> (r: Option<(String, usize)>)
        requires
            self.wf(),
        ensures
            (match r {
                Some(pl) => self.spec_wm() matches Some(k) && offset <= k && pl.0@ == path_chars(
                    self.spec_meta(),
                    offset as int,
                ) && pl.1 == line_index_of(self.spec_meta(), offset as int),
                None => self.spec_wm() is None || offset > self.spec_wm()->0,
            }),
    {
        match self.last_flushed_offset {
            None => None,
            Some(k) => {
                if offset > k {
                    None
                } else {
                    let path = offset_to_file_path(&self.topic_metadata, &offset);
                    let line = offset % *self.topic_metadata.num_of_msg_per_file();
                    Some((path, line))
                }
            },
        }
    }
}

} // verus!

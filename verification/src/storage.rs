//! The storage model: what a run of the writer leaves on disk, and what a
//! reader then finds there.
//!
//! The disk is modelled as a map from file path to file bytes; an append
//! extends one file. A fresh writer appends message `j` to the file the
//! offset mapping gives for offset `j`. The laws here close the loop: the
//! file of every block holds exactly its messages in order, and a reader
//! over the flushed watermark returns message `i` for every written
//! offset `i` — and nothing for the offset past the end.

use vstd::prelude::*;

use crate::reader::{lemma_take_line_b_at, nth_msg};
use crate::topic::{file_number_of, lemma_distinct_paths, line_index_of, path_chars};
use crate::types::MetaSpec;

verus! {

/// A message as the framing admits it: its own newline terminator at the
/// end and nowhere else.
pub open spec fn proper_msg(m: Seq<u8>) -> bool {
    &&& m.len() >= 1
    &&& m.last() == 10u8
    &&& forall|i: int| 0 <= i < m.len() - 1 ==> #[trigger] m[i] != 10u8
}

pub open spec fn all_proper(msgs: Seq<Seq<u8>>) -> bool {
    forall|j: int| 0 <= j < msgs.len() ==> proper_msg(#[trigger] msgs[j])
}

/// The bytes of several messages, in order.
pub open spec fn concat_msgs(ms: Seq<Seq<u8>>) -> Seq<u8>
    decreases ms.len(),
{
    if ms.len() == 0 {
        Seq::empty()
    } else {
        ms.first() + concat_msgs(ms.drop_first())
    }
}

proof fn lemma_concat_push(ms: Seq<Seq<u8>>, m: Seq<u8>)
    ensures
        concat_msgs(ms.push(m)) == concat_msgs(ms) + m,
    decreases ms.len(),
{
    if ms.len() == 0 {
        assert(ms.push(m).len() == 1);
        assert(ms.push(m).first() == m);
        assert(ms.push(m).drop_first() =~= Seq::<Seq<u8>>::empty());
        assert(concat_msgs(ms.push(m)) == m + concat_msgs(Seq::<Seq<u8>>::empty()));
        assert(concat_msgs(ms.push(m)) =~= m);
        assert(concat_msgs(ms) + m =~= m);
    } else {
        assert(ms.push(m).first() == ms.first());
        assert(ms.push(m).drop_first() =~= ms.drop_first().push(m));
        lemma_concat_push(ms.drop_first(), m);
        assert(concat_msgs(ms.push(m)) == ms.first() + concat_msgs(ms.drop_first().push(m)));
        assert(concat_msgs(ms.push(m)) =~= concat_msgs(ms) + m);
    }
}

/// The messages that land in file number `f`.
pub open spec fn msgs_in_file(meta: MetaSpec, msgs: Seq<Seq<u8>>, f: int) -> Seq<Seq<u8>> {
    let n = meta.num_of_msg_per_file;
    msgs.subrange(
        f * n,
        if msgs.len() <= (f + 1) * n {
            msgs.len() as int
        } else {
            (f + 1) * n
        },
    )
}

/// What file number `f` holds after a fresh topic took `msgs`.
pub open spec fn file_content(meta: MetaSpec, msgs: Seq<Seq<u8>>, f: int) -> Seq<u8> {
    concat_msgs(msgs_in_file(meta, msgs, f))
}

/// The path of file number `f`.
pub open spec fn block_path(meta: MetaSpec, f: int) -> Seq<char> {
    path_chars(meta, f * meta.num_of_msg_per_file)
}

/// One append: the bytes go to the end of the file at `p`, which springs
/// into being empty when absent.
pub open spec fn disk_append(
    d: Map<Seq<char>, Seq<u8>>,
    p: Seq<char>,
    bytes: Seq<u8>,
) -> Map<Seq<char>, Seq<u8>> {
    d.insert(
        p,
        (if d.contains_key(p) {
            d[p]
        } else {
            Seq::empty()
        }) + bytes,
    )
}

/// The disk after a fresh writer appended `msgs` in order: message `j`
/// went to the file of offset `j`.
pub open spec fn disk_after_writes(meta: MetaSpec, msgs: Seq<Seq<u8>>) -> Map<Seq<char>, Seq<u8>>
    decreases msgs.len(),
{
    if msgs.len() == 0 {
        Map::empty()
    } else {
        disk_append(
            disk_after_writes(meta, msgs.drop_last()),
            path_chars(meta, msgs.len() - 1),
            msgs.last(),
        )
    }
}

/// What a read yields from a disk snapshot under a watermark.
pub ghost enum ReadResult {
    /// The offset is not durably visible: the reader answers "no data".
    NotVisible,
    /// The message's bytes.
    Value(Seq<u8>),
    /// The offset should be on disk but its file or line is missing.
    Corrupt,
}

/// The reader's view of one offset: nothing past the watermark; below it,
/// the line of the mapped file.
pub open spec fn read_spec(
    meta: MetaSpec,
    wm: Option<int>,
    disk: Map<Seq<char>, Seq<u8>>,
    offset: int,
) -> ReadResult {
    match wm {
        None => ReadResult::NotVisible,
        Some(k) => if offset > k {
            ReadResult::NotVisible
        } else {
            let p = path_chars(meta, offset);
            if !disk.contains_key(p) {
                ReadResult::Corrupt
            } else {
                match nth_msg(disk[p], line_index_of(meta, offset)) {
                    Some(b) => ReadResult::Value(b),
                    None => ReadResult::Corrupt,
                }
            }
        },
    }
}

/// Two offsets of one file number map to one path.
proof fn lemma_same_block_same_path(meta: MetaSpec, a: int, b: int)
    requires
        file_number_of(meta, a) == file_number_of(meta, b),
    ensures
        path_chars(meta, a) == path_chars(meta, b),
{
}

/// After a run from a fresh topic, the file of every block that received
/// a message holds exactly its messages, and no other block's file exists.
proof fn lemma_disk_content(meta: MetaSpec, msgs: Seq<Seq<u8>>)
    requires
        meta.wf(),
    ensures
        forall|f: int|
            0 <= f && f * meta.num_of_msg_per_file < msgs.len() ==> disk_after_writes(
                meta,
                msgs,
            ).contains_key(#[trigger] block_path(meta, f)) && disk_after_writes(meta, msgs)[
                block_path(meta, f)] == file_content(meta, msgs, f),
        forall|f: int|
            0 <= f && f * meta.num_of_msg_per_file >= msgs.len() ==> !disk_after_writes(
                meta,
                msgs,
            ).contains_key(#[trigger] block_path(meta, f)),
    decreases msgs.len(),
{
    let n = meta.num_of_msg_per_file;
    let len = msgs.len() as int;
    if len == 0 {
    } else {
        let msgs0 = msgs.drop_last();
        lemma_disk_content(meta, msgs0);
        let ll = len - 1;
        let fl = ll / n;
        let disk0 = disk_after_writes(meta, msgs0);
        let disk = disk_after_writes(meta, msgs);
        assert(fl * n <= ll < (fl + 1) * n && 0 <= fl) by (nonlinear_arith)
            requires
                n >= 1,
                0 <= ll,
                fl == ll / n,
        ;
        assert((fl * n) / n == fl) by (nonlinear_arith)
            requires
                n >= 1,
                0 <= fl,
        ;
        assert(file_number_of(meta, fl * n) == fl);
        assert(file_number_of(meta, ll) == fl);
        lemma_same_block_same_path(meta, ll, fl * n);
        assert(disk == disk_append(disk0, block_path(meta, fl), msgs.last()));

        assert forall|f: int| 0 <= f && f * n < len implies disk.contains_key(
            #[trigger] block_path(meta, f),
        ) && disk[block_path(meta, f)] == file_content(meta, msgs, f) by {
            assert((f * n) / n == f) by (nonlinear_arith)
                requires
                    n >= 1,
                    0 <= f,
            ;
            assert(file_number_of(meta, f * n) == f);
            if f == fl {
                if fl * n == ll {
                    // The last message opened this file.
                    assert(!disk0.contains_key(block_path(meta, fl)));
                    assert(disk[block_path(meta, fl)] == Seq::<u8>::empty() + msgs.last());
                    assert(Seq::<u8>::empty() + msgs.last() =~= msgs.last());
                    assert(msgs_in_file(meta, msgs, fl) =~= seq![msgs.last()]);
                    assert(seq![msgs.last()].drop_first() =~= Seq::<Seq<u8>>::empty());
                    assert(concat_msgs(seq![msgs.last()]) == msgs.last() + concat_msgs(
                        Seq::<Seq<u8>>::empty(),
                    ));
                    assert(concat_msgs(seq![msgs.last()]) =~= msgs.last());
                } else {
                    // The last message extended this file.
                    assert(fl * n < ll);
                    assert(disk0.contains_key(block_path(meta, fl)));
                    assert(disk0[block_path(meta, fl)] == file_content(meta, msgs0, fl));
                    assert(disk[block_path(meta, fl)] == file_content(meta, msgs0, fl)
                        + msgs.last());
                    assert(msgs_in_file(meta, msgs0, fl) =~= msgs.subrange(fl * n, ll));
                    assert(msgs_in_file(meta, msgs, fl) =~= msgs.subrange(fl * n, ll).push(
                        msgs.last(),
                    ));
                    lemma_concat_push(msgs.subrange(fl * n, ll), msgs.last());
                }
            } else {
                // An untouched earlier block.
                assert(f * n != ll) by (nonlinear_arith)
                    requires
                        n >= 1,
                        0 <= f,
                        f != fl,
                        fl == ll / n,
                        (f * n) / n == f,
                ;
                assert(f * n < ll);
                assert(f < fl) by (nonlinear_arith)
                    requires
                        n >= 1,
                        0 <= f,
                        f != fl,
                        f * n < ll,
                        fl == ll / n,
                ;
                lemma_distinct_paths(meta, f * n, fl * n);
                assert(disk.contains_key(block_path(meta, f)));
                assert(disk[block_path(meta, f)] == disk0[block_path(meta, f)]);
                assert((f + 1) * n <= fl * n) by (nonlinear_arith)
                    requires
                        n >= 1,
                        f < fl,
                ;
                assert((f + 1) * n <= ll);
                assert(0 <= f * n && f * n + n == (f + 1) * n) by (nonlinear_arith)
                    requires
                        n >= 1,
                        0 <= f,
                ;
                assert(msgs_in_file(meta, msgs, f) == msgs.subrange(f * n, (f + 1) * n));
                assert(msgs_in_file(meta, msgs0, f) == msgs0.subrange(f * n, (f + 1) * n)) by {
                    if msgs0.len() <= (f + 1) * n {
                        assert(ll == (f + 1) * n);
                    }
                }
                assert(forall|j: int| 0 <= j < ll ==> #[trigger] msgs0[j] == msgs[j]);
                assert(msgs.subrange(f * n, (f + 1) * n) =~= msgs0.subrange(f * n, (f + 1) * n));
            }
        }
        assert forall|f: int| 0 <= f && f * n >= len implies !disk.contains_key(
            #[trigger] block_path(meta, f),
        ) by {
            assert((f * n) / n == f) by (nonlinear_arith)
                requires
                    n >= 1,
                    0 <= f,
            ;
            assert(file_number_of(meta, f * n) == f);
            assert(f != fl);
            lemma_distinct_paths(meta, f * n, fl * n);
            assert(!disk0.contains_key(block_path(meta, f)));
        }
    }
}

/// The `i`-th message of a file of proper messages is that message.
proof fn lemma_nth_msg_of_concat(ms: Seq<Seq<u8>>, i: int)
    requires
        forall|j: int| 0 <= j < ms.len() ==> proper_msg(#[trigger] ms[j]),
        0 <= i < ms.len(),
    ensures
        nth_msg(concat_msgs(ms), i) == Some(ms[i]),
    decreases i,
{
    let c = concat_msgs(ms);
    let m0 = ms.first();
    assert(proper_msg(m0));
    let rest = concat_msgs(ms.drop_first());
    assert(c == m0 + rest);
    assert(c[m0.len() - 1] == m0.last());
    assert(forall|k: int| 0 <= k < m0.len() - 1 ==> #[trigger] c[k] == m0[k]);
    lemma_take_line_b_at(c, m0.len() - 1);
    assert(c.take(m0.len() - 1) =~= m0.drop_last());
    assert(c.skip(m0.len() as int) =~= rest);
    if i == 0 {
        assert(m0.drop_last().push(10u8) =~= m0);
    } else {
        assert(forall|j: int| 0 <= j < ms.drop_first().len() ==> #[trigger] ms.drop_first()[j]
            == ms[j + 1]);
        lemma_nth_msg_of_concat(ms.drop_first(), i - 1);
        assert(nth_msg(c, i) == nth_msg(rest, i - 1));
    }
}

/// Write/read round trip: a fresh topic takes `msgs`; after a flush the
/// watermark stands at the last offset, and a reader over that disk
/// returns message `i` for every written offset `i` — and no data for the
/// offset one past the end.
pub proof fn lemma_write_read_round_trip(meta: MetaSpec, msgs: Seq<Seq<u8>>, i: int)
    requires
        meta.wf(),
        all_proper(msgs),
        1 <= msgs.len() <= usize::MAX,
        0 <= i < msgs.len(),
    ensures
        read_spec(meta, Some(msgs.len() - 1), disk_after_writes(meta, msgs), i)
            == ReadResult::Value(msgs[i]),
        read_spec(meta, Some(msgs.len() - 1), disk_after_writes(meta, msgs), msgs.len() as int)
            == ReadResult::NotVisible,
    decreases msgs.len(),
{
    let n = meta.num_of_msg_per_file;
    let len = msgs.len() as int;
    let f = i / n;
    lemma_disk_content(meta, msgs);
    assert(f * n <= i < (f + 1) * n && 0 <= f && i % n == i - f * n) by (nonlinear_arith)
        requires
            n >= 1,
            0 <= i,
            f == i / n,
    ;
    assert((f * n) / n == f) by (nonlinear_arith)
        requires
            n >= 1,
            0 <= f,
    ;
    assert(file_number_of(meta, f * n) == f);
    lemma_same_block_same_path(meta, i, f * n);
    let disk = disk_after_writes(meta, msgs);
    assert(disk.contains_key(block_path(meta, f)));
    assert(disk[block_path(meta, f)] == file_content(meta, msgs, f));
    let ms = msgs_in_file(meta, msgs, f);
    assert(forall|j: int| 0 <= j < ms.len() ==> #[trigger] ms[j] == msgs[f * n + j]);
    assert(forall|j: int| 0 <= j < ms.len() ==> proper_msg(#[trigger] ms[j]));
    assert(0 <= i - f * n < ms.len());
    lemma_nth_msg_of_concat(ms, i - f * n);
    assert(ms[i - f * n] == msgs[i]);
    assert(line_index_of(meta, i) == i % n);
}

/// Pre-flush invisibility: while the manifest's watermark is absent — as
/// it is on a fresh topic before the first flush — a reader returns no
/// data for any offset, whatever is already on disk.
pub proof fn lemma_pre_flush_invisibility(
    meta: MetaSpec,
    disk: Map<Seq<char>, Seq<u8>>,
    offset: int,
)
    ensures
        read_spec(meta, None, disk, offset) == ReadResult::NotVisible,
{
}

} // verus!

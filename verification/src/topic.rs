//! The offset-to-file mapping: the pure function that gives the engine
//! O(1) random-access reads.
//!
//! An offset `o` under a manifest with `N = num_of_msg_per_file` and
//! `S = num_of_segments` lands in file number `o / N`; the file sits in
//! segment directory `(o / N) % S` and is named after its first offset,
//! `(o / N) * N`, with a `.txt` suffix. Each file holds one message per line.

use vstd::prelude::*;

use crate::num::{all_digits, dec_digits, is_digit, lemma_dec_digits_injective,
    lemma_dec_digits_shape, usize_to_string};
use crate::types::{MetaSpec, TopicMetaData};

verus! {

/// Which file (by number) holds `offset`.
pub open spec fn file_number_of(meta: MetaSpec, offset: int) -> int {
    offset / meta.num_of_msg_per_file
}

/// Which line of its file holds `offset`.
pub open spec fn line_index_of(meta: MetaSpec, offset: int) -> int {
    offset % meta.num_of_msg_per_file
}

/// Which segment directory holds the file of `offset`.
pub open spec fn segment_dir_of(meta: MetaSpec, offset: int) -> int {
    file_number_of(meta, offset) % meta.num_of_segments
}

/// The name of the file that holds `offset`: its first offset, then `.txt`.
pub open spec fn file_name_chars(meta: MetaSpec, offset: int) -> Seq<char> {
    dec_digits((file_number_of(meta, offset) * meta.num_of_msg_per_file) as nat) + ".txt"@
}

/// The full path of the file that holds `offset`.
pub open spec fn path_chars(meta: MetaSpec, offset: int) -> Seq<char> {
    meta.topic.path + seq!['/'] + dec_digits(segment_dir_of(meta, offset) as nat) + seq!['/']
        + file_name_chars(meta, offset)
}

/// Maps an offset to the path of the segment file that holds it. Pure: no
/// I/O, no failure mode, deterministic in its arguments.
pub fn offset_to_file_path(topic_metadata: &TopicMetaData, offset: &usize) -> (r: String)
    requires
        topic_metadata@.wf(),
    ensures
        r@ == path_chars(topic_metadata@, *offset as int),
{
    let num_of_msg_per_file = *topic_metadata.num_of_msg_per_file();
    let file_number = *offset / num_of_msg_per_file;
    proof {
        assert(file_number * num_of_msg_per_file <= *offset) by (nonlinear_arith)
            requires
                num_of_msg_per_file >= 1,
                file_number == *offset / num_of_msg_per_file,
                *offset >= 0,
        ;
    }
    let file_dir = usize_to_string(file_number % *topic_metadata.num_of_segments());
    let file_name = usize_to_string(file_number * num_of_msg_per_file);

    let mut r = String::from_str(topic_metadata.topic().path());
    r.append("/");
    r.append(file_dir.as_str());
    r.append("/");
    r.append(file_name.as_str());
    r.append(".txt");
    proof {
        reveal_strlit("/");
        assert(r@ =~= path_chars(topic_metadata@, *offset as int));
    }
    r
}

/// Splitting at a separator is unambiguous when neither left part holds the
/// separator: equal joined strings have equal parts.
proof fn lemma_sep_split_unique(a: Seq<char>, x: Seq<char>, b: Seq<char>, y: Seq<char>)
    requires
        forall|i: int| 0 <= i < a.len() ==> #[trigger] a[i] != '/',
        forall|i: int| 0 <= i < b.len() ==> #[trigger] b[i] != '/',
        a + seq!['/'] + x == b + seq!['/'] + y,
    ensures
        a == b,
        x == y,
{
    let l = a + seq!['/'] + x;
    let r = b + seq!['/'] + y;
    if a.len() < b.len() {
        assert(l[a.len() as int] == '/');
        assert(r[a.len() as int] == b[a.len() as int]);
        assert(false);
    } else if b.len() < a.len() {
        assert(r[b.len() as int] == '/');
        assert(l[b.len() as int] == a[b.len() as int]);
        assert(false);
    } else {
        assert(a.len() == b.len());
        assert(l.len() == r.len());
        assert(x.len() == y.len());
        assert forall|i: int| 0 <= i < a.len() implies a[i] == b[i] by {
            assert(l[i] == a[i]);
            assert(r[i] == b[i]);
        }
        assert(a =~= b);
        assert forall|i: int| 0 <= i < x.len() implies x[i] == y[i] by {
            assert(l[a.len() + 1 + i] == x[i]);
            assert(r[b.len() + 1 + i] == y[i]);
        }
        assert(x =~= y);
    }
}

/// Digit strings never hold the path separator.
proof fn lemma_digits_no_sep(s: Seq<char>)
    requires
        all_digits(s),
    ensures
        forall|i: int| 0 <= i < s.len() ==> #[trigger] s[i] != '/',
{
    assert forall|i: int| 0 <= i < s.len() implies #[trigger] s[i] != '/' by {
        assert(is_digit(s[i]));
    }
}

/// Offsets in different files get different file names: the mapping never
/// aliases two files, whatever directories they stripe into.
pub proof fn lemma_distinct_file_names(meta: MetaSpec, a: int, b: int)
    requires
        meta.wf(),
        0 <= a,
        0 <= b,
        file_number_of(meta, a) != file_number_of(meta, b),
    ensures
        file_name_chars(meta, a) != file_name_chars(meta, b),
{
    let n = meta.num_of_msg_per_file;
    let fa = file_number_of(meta, a);
    let fb = file_number_of(meta, b);
    assert(0 <= fa && 0 <= fb) by (nonlinear_arith)
        requires
            n >= 1,
            0 <= a,
            0 <= b,
            fa == a / n,
            fb == b / n,
    ;
    assert(fa * n != fb * n) by (nonlinear_arith)
        requires
            n >= 1,
            fa != fb,
    ;
    if file_name_chars(meta, a) == file_name_chars(meta, b) {
        let da = dec_digits((fa * n) as nat);
        let db = dec_digits((fb * n) as nat);
        assert(file_name_chars(meta, a) == da + ".txt"@);
        assert(file_name_chars(meta, b) == db + ".txt"@);
        assert(da.len() + ".txt"@.len() == db.len() + ".txt"@.len());
        assert forall|i: int| 0 <= i < da.len() implies da[i] == db[i] by {
            assert((da + ".txt"@)[i] == da[i]);
            assert((db + ".txt"@)[i] == db[i]);
        }
        assert(da =~= db);
        lemma_dec_digits_injective((fa * n) as nat, (fb * n) as nat);
        assert(false);
    }
}

/// Offsets in different files get different full paths, even when their
/// files stripe into the same segment directory.
pub proof fn lemma_distinct_paths(meta: MetaSpec, a: int, b: int)
    requires
        meta.wf(),
        0 <= a,
        0 <= b,
        file_number_of(meta, a) != file_number_of(meta, b),
    ensures
        path_chars(meta, a) != path_chars(meta, b),
{
    let base = meta.topic.path;
    let da = dec_digits(segment_dir_of(meta, a) as nat);
    let db = dec_digits(segment_dir_of(meta, b) as nat);
    let na = file_name_chars(meta, a);
    let nb = file_name_chars(meta, b);
    if path_chars(meta, a) == path_chars(meta, b) {
        // Strip the common topic directory prefix.
        let ta = da + seq!['/'] + na;
        let tb = db + seq!['/'] + nb;
        assert(path_chars(meta, a) =~= (base + seq!['/']) + ta);
        assert(path_chars(meta, b) =~= (base + seq!['/']) + tb);
        assert forall|i: int| 0 <= i < ta.len() implies ta[i] == tb[i] by {
            assert(((base + seq!['/']) + ta)[base.len() + 1 + i] == ta[i]);
            assert(((base + seq!['/']) + tb)[base.len() + 1 + i] == tb[i]);
        }
        assert(ta.len() == tb.len());
        assert(ta =~= tb);
        lemma_dec_digits_shape(segment_dir_of(meta, a) as nat);
        lemma_dec_digits_shape(segment_dir_of(meta, b) as nat);
        lemma_digits_no_sep(da);
        lemma_digits_no_sep(db);
        lemma_sep_split_unique(da, na, db, nb);
        lemma_distinct_file_names(meta, a, b);
        assert(false);
    }
}

/// The offset mapping is total and deterministic: on a valid manifest every
/// offset has exactly one path, and offsets of different file numbers are
/// kept apart by file name alone.
pub proof fn lemma_offset_mapping_total_deterministic(meta: MetaSpec, a: int, b: int)
    requires
        meta.wf(),
        0 <= a,
        0 <= b,
    ensures
        a == b ==> path_chars(meta, a) == path_chars(meta, b),
        file_number_of(meta, a) != file_number_of(meta, b) ==> file_name_chars(meta, a)
            != file_name_chars(meta, b),
{
    if file_number_of(meta, a) != file_number_of(meta, b) {
        lemma_distinct_file_names(meta, a, b);
    }
}

/// After `N` messages the next offset rolls into a fresh file, named after
/// its first offset `N`.
pub proof fn lemma_segment_rollover(meta: MetaSpec, i: int)
    requires
        meta.wf(),
        0 <= i < meta.num_of_msg_per_file,
    ensures
        path_chars(meta, i) != path_chars(meta, meta.num_of_msg_per_file),
        file_name_chars(meta, meta.num_of_msg_per_file) == dec_digits(
            meta.num_of_msg_per_file as nat,
        ) + ".txt"@,
{
    let n = meta.num_of_msg_per_file;
    assert(i / n == 0 && n / n == 1 && (n / n) * n == n) by (nonlinear_arith)
        requires
            n >= 1,
            0 <= i < n,
    ;
    lemma_distinct_paths(meta, i, n);
}

} // verus!

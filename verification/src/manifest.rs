//! The manifest codec: the text form of `TopicMetaData` that is written to
//! and read back from a topic's `metadata.toml`.
//!
//! The form is a small TOML document with a fixed shape: the three numeric
//! fields first (the watermark line is omitted when nothing is flushed),
//! then a `[topic]` table with the three identity strings in basic quoted
//! form. `serialize` emits exactly this shape; `deserialize` accepts it and
//! reports anything else as corrupt. The manifest file is the sole
//! authority for the flushed watermark, so both directions carry exact
//! contracts and a proved round trip.

use vstd::prelude::*;

use crate::num::{all_digits, dec_digits, dec_val, is_digit, lemma_dec_digits_shape,
    lemma_dec_val_of_digits, parse_dec_spec, parse_dec_str, usize_to_string};
use crate::types::{MetaSpec, Topic, TopicMetaData, TopicSpec};

verus! {

/// Text that may stand inside a quoted manifest string: no control
/// characters (so no newlines) and no delete character.
pub open spec fn clean_text(s: Seq<char>) -> bool {
    forall|i: int| 0 <= i < s.len() ==> 32 <= (#[trigger] s[i]) as u32 && s[i] as u32 != 127
}

/// A manifest whose strings can stand in the text form.
pub open spec fn serializable(m: MetaSpec) -> bool {
    &&& clean_text(m.topic.name)
    &&& clean_text(m.topic.path)
    &&& clean_text(m.topic.metadata_path)
}

/// How one character is written inside a quoted string: quote and
/// backslash get a backslash escape, everything else stands as itself.
pub open spec fn esc_char(c: char) -> Seq<char> {
    if c == '"' {
        seq!['\\', '"']
    } else if c == '\\' {
        seq!['\\', '\\']
    } else {
        seq![c]
    }
}

/// The escaped form of a whole string.
pub open spec fn esc(s: Seq<char>) -> Seq<char>
    decreases s.len(),
{
    if s.len() == 0 {
        Seq::empty()
    } else {
        esc_char(s.first()) + esc(s.drop_first())
    }
}

/// Undoing the escaping: fails on a bare quote, a bare trailing backslash,
/// or a backslash before anything but a quote or backslash.
pub open spec fn unesc(s: Seq<char>) -> Option<Seq<char>>
    decreases s.len(),
{
    if s.len() == 0 {
        Some(Seq::empty())
    } else if s.first() == '\\' {
        if s.len() >= 2 && (s[1] == '"' || s[1] == '\\') {
            match unesc(s.skip(2)) {
                Some(r) => Some(seq![s[1]] + r),
                None => None,
            }
        } else {
            None
        }
    } else if s.first() == '"' {
        None
    } else {
        match unesc(s.drop_first()) {
            Some(r) => Some(seq![s.first()] + r),
            None => None,
        }
    }
}

/// Escaping distributes over appending one character.
proof fn lemma_esc_push(s: Seq<char>, c: char)
    ensures
        esc(s.push(c)) == esc(s) + esc_char(c),
    decreases s.len(),
{
    if s.len() == 0 {
        assert(s.push(c).len() == 1);
        assert(s.push(c).first() == c);
        assert(s.push(c).drop_first() =~= Seq::<char>::empty());
        assert(esc(s.push(c)) == esc_char(c) + esc(Seq::<char>::empty()));
        assert(esc(s.push(c)) =~= esc_char(c));
        assert(esc(s) + esc_char(c) =~= esc_char(c));
    } else {
        assert(s.push(c).len() == s.len() + 1);
        assert(s.push(c).first() == s.first());
        assert(s.push(c).drop_first() =~= s.drop_first().push(c));
        lemma_esc_push(s.drop_first(), c);
        assert(esc(s.push(c)) == esc_char(s.first()) + esc(s.drop_first().push(c)));
        assert(esc(s.push(c)) =~= esc(s) + esc_char(c));
    }
}

/// Unescaping inverts escaping, for every string.
pub proof fn lemma_unesc_of_esc(s: Seq<char>)
    ensures
        unesc(esc(s)) == Some(s),
    decreases s.len(),
{
    if s.len() == 0 {
    } else {
        lemma_unesc_of_esc(s.drop_first());
        let e = esc(s);
        let c = s.first();
        assert(e == esc_char(c) + esc(s.drop_first()));
        if c == '"' || c == '\\' {
            assert(e.len() >= 2);
            assert(e.first() == '\\');
            assert(e[1] == c);
            assert(e.skip(2) =~= esc(s.drop_first()));
            assert(unesc(e) == Some(seq![c] + s.drop_first()));
            assert(seq![c] + s.drop_first() =~= s);
        } else {
            assert(e.first() == c);
            assert(e.drop_first() =~= esc(s.drop_first()));
            assert(unesc(e) == Some(seq![c] + s.drop_first()));
            assert(seq![c] + s.drop_first() =~= s);
        }
    }
}

/// A key/value line body for a numeric field.
pub open spec fn kv_num(key: Seq<char>, v: int) -> Seq<char> {
    key + " = "@ + dec_digits(v as nat)
}

/// A key/value line body for a quoted string field.
pub open spec fn kv_str(key: Seq<char>, v: Seq<char>) -> Seq<char> {
    key + " = \""@ + esc(v) + "\""@
}

/// A body turned into a full line.
pub open spec fn text_line(body: Seq<char>) -> Seq<char> {
    body + seq!['\n']
}

/// The canonical text form of a manifest. The watermark line is omitted
/// when nothing has been flushed.
pub open spec fn manifest_text(m: MetaSpec) -> Seq<char> {
    text_line(kv_num("num_of_msg_per_file"@, m.num_of_msg_per_file)) + (match m
        .last_flushed_offset {
        Some(k) => text_line(kv_num("last_flushed_offset"@, k)),
        None => Seq::<char>::empty(),
    }) + text_line(kv_num("num_of_segments"@, m.num_of_segments)) + text_line(Seq::<char>::empty())
        + text_line("[topic]"@) + text_line(kv_str("name"@, m.topic.name)) + text_line(
        kv_str("path"@, m.topic.path),
    ) + text_line(kv_str("metadata_path"@, m.topic.metadata_path))
}

/// Splits off the first line: the text before the first newline and the
/// rest after it. Nothing when the text holds no newline at all.
pub open spec fn take_line(s: Seq<char>) -> Option<(Seq<char>, Seq<char>)>
    decreases s.len(),
{
    if s.len() == 0 {
        None
    } else if s.first() == '\n' {
        Some((Seq::<char>::empty(), s.drop_first()))
    } else {
        match take_line(s.drop_first()) {
            Some((l, r)) => Some((seq![s.first()] + l, r)),
            None => None,
        }
    }
}

/// Splitting at the first newline, located at index `k`.
proof fn lemma_take_line_at(t: Seq<char>, k: int)
    requires
        0 <= k < t.len(),
        t[k] == '\n',
        forall|i: int| 0 <= i < k ==> #[trigger] t[i] != '\n',
    ensures
        take_line(t) == Some((t.take(k), t.skip(k + 1))),
    decreases k,
{
    if k == 0 {
        assert(t.take(0) =~= Seq::<char>::empty());
        assert(t.skip(1) =~= t.drop_first());
    } else {
        assert(t.first() != '\n');
        let u = t.drop_first();
        assert(u[k - 1] == '\n');
        assert(forall|i: int| 0 <= i < k - 1 ==> #[trigger] u[i] == t[i + 1] && u[i] != '\n');
        lemma_take_line_at(u, k - 1);
        assert(seq![t.first()] + u.take(k - 1) =~= t.take(k));
        assert(u.skip(k) =~= t.skip(k + 1));
    }
}

/// A line body followed by a newline and the rest splits exactly there.
proof fn lemma_take_line_concat(l: Seq<char>, rest: Seq<char>)
    requires
        forall|i: int| 0 <= i < l.len() ==> #[trigger] l[i] != '\n',
    ensures
        take_line(l + seq!['\n'] + rest) == Some((l, rest)),
{
    let t = l + seq!['\n'] + rest;
    assert(t[l.len() as int] == '\n');
    assert(forall|i: int| 0 <= i < l.len() ==> #[trigger] t[i] == l[i]);
    lemma_take_line_at(t, l.len() as int);
    assert(t.take(l.len() as int) =~= l);
    assert(t.skip(l.len() as int + 1) =~= rest);
}

/// Removes `p` from the front of `s`, when `s` starts with it.
pub open spec fn strip_prefix(s: Seq<char>, p: Seq<char>) -> Option<Seq<char>> {
    if p.len() <= s.len() && s.take(p.len() as int) == p {
        Some(s.skip(p.len() as int))
    } else {
        None
    }
}

/// What a `key = <decimal>` line yields: the value, written canonically
/// (no sign, no leading zeros) — exactly as `serialize` writes it.
pub open spec fn parse_num_line(l: Seq<char>, key: Seq<char>) -> Option<usize> {
    match strip_prefix(l, key + " = "@) {
        Some(d) => match parse_dec_spec(d) {
            Some(v) => if d == dec_digits(v as nat) {
                Some(v)
            } else {
                None
            },
            None => None,
        },
        None => None,
    }
}

/// What a `key = "<escaped>"` line yields.
pub open spec fn parse_str_line(l: Seq<char>, key: Seq<char>) -> Option<Seq<char>> {
    match strip_prefix(l, key + " = \""@) {
        Some(r) => if r.len() >= 1 && r.last() == '"' {
            unesc(r.drop_last())
        } else {
            None
        },
        None => None,
    }
}

/// The `[topic]` block: a blank line, the header, and the three quoted
/// identity strings; nothing may follow.
pub open spec fn parse_topic_block(s: Seq<char>, n: usize, lfo: Option<usize>, sgs: usize) -> Option<
    MetaSpec,
> {
    match take_line(s) {
        Some((lb, s1)) => if lb.len() != 0 {
            None
        } else {
            match take_line(s1) {
                Some((lh, s2)) => if lh != "[topic]"@ {
                    None
                } else {
                    match take_line(s2) {
                        Some((ln, s3)) => match parse_str_line(ln, "name"@) {
                            Some(name) => match take_line(s3) {
                                Some((lp, s4)) => match parse_str_line(lp, "path"@) {
                                    Some(path) => match take_line(s4) {
                                        Some((lm, s5)) => match parse_str_line(
                                            lm,
                                            "metadata_path"@,
                                        ) {
                                            Some(mpath) => if s5.len() == 0 && n >= 1 && sgs
                                                >= 1 {
                                                Some(
                                                    MetaSpec {
                                                        topic: TopicSpec {
                                                            name: name,
                                                            path: path,
                                                            metadata_path: mpath,
                                                        },
                                                        num_of_msg_per_file: n as int,
                                                        last_flushed_offset: match lfo {
                                                            Some(k) => Some(k as int),
                                                            None => None,
                                                        },
                                                        num_of_segments: sgs as int,
                                                    },
                                                )
                                            } else {
                                                None
                                            },
                                            None => None,
                                        },
                                        None => None,
                                    },
                                    None => None,
                                },
                                None => None,
                            },
                            None => None,
                        },
                        None => None,
                    }
                },
                None => None,
            }
        },
        None => None,
    }
}

/// The `num_of_segments` line, given as an already-taken line.
pub open spec fn parse_seg_given(l: Seq<char>, rest: Seq<char>, n: usize, lfo: Option<usize>) -> Option<
    MetaSpec,
> {
    match parse_num_line(l, "num_of_segments"@) {
        Some(sgs) => parse_topic_block(rest, n, lfo, sgs),
        None => None,
    }
}

/// After the first line: an optional watermark line, then the rest.
pub open spec fn parse_after_capacity(s: Seq<char>, n: usize) -> Option<MetaSpec> {
    match take_line(s) {
        Some((l1, s2)) => match parse_num_line(l1, "last_flushed_offset"@) {
            Some(k) => match take_line(s2) {
                Some((l2, s3)) => parse_seg_given(l2, s3, n, Some(k)),
                None => None,
            },
            None => parse_seg_given(l1, s2, n, None),
        },
        None => None,
    }
}

/// What a manifest text parses to: the unique manifest of this shape, or
/// nothing when the text is corrupt.
pub open spec fn parse_manifest_spec(s: Seq<char>) -> Option<MetaSpec> {
    match take_line(s) {
        Some((l0, s1)) => match parse_num_line(l0, "num_of_msg_per_file"@) {
            Some(n) => parse_after_capacity(s1, n),
            None => None,
        },
        None => None,
    }
}

/// What reading a manifest can report: the text does not have the
/// manifest's shape.
#[derive(Debug, PartialEq)]
pub enum ManifestError {
    Corrupt,
}

/// The escaped form of a string.
fn escape_str(s: &str) -> (r: String)
    ensures
        r@ == esc(s@),
{
    let len = s.unicode_len();
    let mut r = String::new();
    let mut i: usize = 0;
    while i < len
        invariant
            0 <= i <= len,
            len == s@.len(),
            r@ == esc(s@.take(i as int)),
        decreases len - i,
    {
        let c = s.get_char(i);
        if c == '"' {
            r.append("\\\"");
        } else if c == '\\' {
            r.append("\\\\");
        } else {
            let piece = s.substring_char(i, i + 1);
            r.append(piece);
        }
        proof {
            reveal_strlit("\\\"");
            reveal_strlit("\\\\");
            lemma_esc_push(s@.take(i as int), s@[i as int]);
            assert(s@.take(i + 1) =~= s@.take(i as int).push(s@[i as int]));
            assert(s@.subrange(i as int, i + 1) =~= seq![s@[i as int]]);
            assert(r@ =~= esc(s@.take(i + 1)));
        }
        i = i + 1;
    }
    proof {
        assert(s@.take(len as int) =~= s@);
    }
    r
}

/// Undoes the escaping; fails exactly where `unesc` does.
fn unescape_str(l: &str) -> (r: Option<String>)
    ensures
        (match r {
            Some(v) => unesc(l@) == Some(v@),
            None => unesc(l@) is None,
        }),
{
    let len = l.unicode_len();
    let mut res = String::new();
    let mut i: usize = 0;
    proof {
        assert(l@.skip(0) =~= l@);
        assert forall|y: Seq<char>| true implies #[trigger] (res@ + y) == y by {
            assert(res@ + y =~= y);
        }
    }
    while i < len
        invariant
            0 <= i <= len,
            len == l@.len(),
            unesc(l@) == (match unesc(l@.skip(i as int)) {
                Some(y) => Some(res@ + y),
                None => None::<Seq<char>>,
            }),
        decreases len - i,
    {
        let ghost t = l@.skip(i as int);
        proof {
            assert(t.len() == len - i);
            assert(t.first() == l@[i as int]);
        }
        let c = l.get_char(i);
        if c == '\\' {
            if i + 1 >= len {
                proof {
                    assert(unesc(t) is None);
                }
                return None;
            }
            let c2 = l.get_char(i + 1);
            proof {
                assert(t[1] == l@[i + 1]);
            }
            if !(c2 == '"' || c2 == '\\') {
                proof {
                    assert(unesc(t) is None);
                }
                return None;
            }
            let piece = l.substring_char(i + 1, i + 2);
            let ghost res0 = res@;
            res.append(piece);
            proof {
                assert(t.skip(2) =~= l@.skip(i + 2));
                assert(piece@ =~= seq![l@[i + 1]]);
                assert(unesc(t) == (match unesc(l@.skip(i + 2)) {
                    Some(y) => Some(seq![l@[i + 1]] + y),
                    None => None::<Seq<char>>,
                }));
                assert forall|y: Seq<char>| true implies #[trigger] (res@ + y) == res0 + (seq![
                    l@[i + 1],
                ] + y) by {
                    assert(res@ + y =~= res0 + (seq![l@[i + 1]] + y));
                }
            }
            i = i + 2;
        } else if c == '"' {
            proof {
                assert(unesc(t) is None);
            }
            return None;
        } else {
            let piece = l.substring_char(i, i + 1);
            let ghost res0 = res@;
            res.append(piece);
            proof {
                assert(t.drop_first() =~= l@.skip(i + 1));
                assert(piece@ =~= seq![l@[i as int]]);
                assert(unesc(t) == (match unesc(l@.skip(i + 1)) {
                    Some(y) => Some(seq![l@[i as int]] + y),
                    None => None::<Seq<char>>,
                }));
                assert forall|y: Seq<char>| true implies #[trigger] (res@ + y) == res0 + (seq![
                    l@[i as int],
                ] + y) by {
                    assert(res@ + y =~= res0 + (seq![l@[i as int]] + y));
                }
            }
            i = i + 1;
        }
    }
    proof {
        assert(l@.skip(len as int) =~= Seq::<char>::empty());
        assert(unesc(l@) == Some(res@ + Seq::<char>::empty()));
        assert(res@ + Seq::<char>::empty() =~= res@);
    }
    Some(res)
}

/// The escaped form of clean text stays free of newlines.
pub proof fn lemma_esc_clean(s: Seq<char>)
    requires
        clean_text(s),
    ensures
        forall|i: int| 0 <= i < esc(s).len() ==> 32 <= (#[trigger] esc(s)[i]) as u32,
    decreases s.len(),
{
    if s.len() > 0 {
        assert(clean_text(s.drop_first())) by {
            assert(forall|i: int| 0 <= i < s.drop_first().len() ==> #[trigger] s.drop_first()[i]
                == s[i + 1]);
        }
        lemma_esc_clean(s.drop_first());
        let e = esc(s);
        let h = esc_char(s.first());
        assert(32 <= s[0] as u32);
        assert forall|i: int| 0 <= i < e.len() implies 32 <= (#[trigger] e[i]) as u32 by {
            if i < h.len() {
                assert(e[i] == h[i]);
            } else {
                assert(e[i] == esc(s.drop_first())[i - h.len()]);
            }
        }
    }
}

} // verus!

verus! {

/// Nothing splits off when the text holds no newline.
proof fn lemma_take_line_none(t: Seq<char>)
    requires
        forall|i: int| 0 <= i < t.len() ==> #[trigger] t[i] != '\n',
    ensures
        take_line(t) is None,
    decreases t.len(),
{
    if t.len() > 0 {
        assert(forall|i: int| 0 <= i < t.drop_first().len() ==> #[trigger] t.drop_first()[i]
            == t[i + 1]);
        lemma_take_line_none(t.drop_first());
    }
}

/// The first newline at or after `pos`, if any.
fn find_newline(s: &str, len: usize, pos: usize) -> (r: Option<usize>)
    requires
        len == s@.len(),
        pos <= len,
    ensures
        (match r {
            Some(j) => pos <= j < len && s@[j as int] == '\n' && (forall|i: int|
                pos <= i < j ==> #[trigger] s@[i] != '\n'),
            None => forall|i: int| pos <= i < len ==> #[trigger] s@[i] != '\n',
        }),
{
    let mut j = pos;
    while j < len
        invariant
            pos <= j <= len,
            len == s@.len(),
            forall|i: int| pos <= i < j ==> #[trigger] s@[i] != '\n',
        decreases len - j,
    {
        if s.get_char(j) == '\n' {
            return Some(j);
        }
        j = j + 1;
    }
    None
}

/// Splits off the line that starts at `pos`: the line's text and the
/// position just past its newline.
fn next_line<'a>(s: &'a str, len: usize, pos: usize) -> (r: Option<(&'a str, usize)>)
    requires
        len == s@.len(),
        pos <= len,
    ensures
        (match r {
            Some(p) => take_line(s@.skip(pos as int)) == Some((p.0@, s@.skip(p.1 as int)))
                && pos < p.1 <= len,
            None => take_line(s@.skip(pos as int)) is None,
        }),
{
    let ghost t = s@.skip(pos as int);
    match find_newline(s, len, pos) {
        Some(j) => {
            let line = s.substring_char(pos, j);
            proof {
                assert(t.len() == len - pos);
                assert(forall|i: int| 0 <= i < t.len() ==> #[trigger] t[i] == s@[pos + i]);
                assert(t[j - pos] == '\n');
                lemma_take_line_at(t, j - pos);
                assert(t.take(j - pos) =~= line@);
                assert(t.skip(j - pos + 1) =~= s@.skip(j + 1));
            }
            Some((line, j + 1))
        },
        None => {
            proof {
                assert(forall|i: int| 0 <= i < t.len() ==> #[trigger] t[i] == s@[pos + i]);
                lemma_take_line_none(t);
            }
            None
        },
    }
}

/// Removes `p` from the front of `l`, when `l` starts with it.
fn strip_prefix_str<'a>(l: &'a str, p: &str) -> (r: Option<&'a str>)
    ensures
        (match r {
            Some(t) => strip_prefix(l@, p@) == Some(t@),
            None => strip_prefix(l@, p@) is None,
        }),
{
    let llen = l.unicode_len();
    let plen = p.unicode_len();
    if plen > llen {
        return None;
    }
    let mut i: usize = 0;
    while i < plen
        invariant
            0 <= i <= plen <= llen,
            llen == l@.len(),
            plen == p@.len(),
            forall|k: int| 0 <= k < i ==> #[trigger] l@[k] == p@[k],
        decreases plen - i,
    {
        if l.get_char(i) != p.get_char(i) {
            proof {
                assert(l@.take(plen as int)[i as int] != p@[i as int]);
            }
            return None;
        }
        i = i + 1;
    }
    proof {
        assert(l@.take(plen as int) =~= p@);
    }
    let rest = l.substring_char(plen, llen);
    proof {
        assert(rest@ =~= l@.skip(plen as int));
    }
    Some(rest)
}

/// Reads a `key = <decimal>` line.
fn parse_num_field(l: &str, key: &str) -> (r: Option<usize>)
    ensures
        r == parse_num_line(l@, key@),
{
    let mut p = String::from_str(key);
    p.append(" = ");
    match strip_prefix_str(l, p.as_str()) {
        Some(d) => match parse_dec_str(d) {
            Some(v) => {
                let rendered = usize_to_string(v);
                if String::from_str(d) == rendered {
                    Some(v)
                } else {
                    None
                }
            },
            None => None,
        },
        None => None,
    }
}

/// Reads a `key = "<escaped>"` line.
fn parse_str_field(l: &str, key: &str) -> (r: Option<String>)
    ensures
        (match r {
            Some(v) => parse_str_line(l@, key@) == Some(v@),
            None => parse_str_line(l@, key@) is None,
        }),
{
    let mut p = String::from_str(key);
    p.append(" = \"");
    match strip_prefix_str(l, p.as_str()) {
        Some(rest) => {
            let rlen = rest.unicode_len();
            if rlen == 0 {
                return None;
            }
            if rest.get_char(rlen - 1) != '"' {
                return None;
            }
            let inner = rest.substring_char(0, rlen - 1);
            proof {
                assert(inner@ =~= rest@.drop_last());
            }
            unescape_str(inner)
        },
        None => None,
    }
}

impl TopicMetaData {
    /// Writes the manifest in its canonical text form.
    pub fn serialize(&self) -> (r: String)
        ensures
            r@ == manifest_text(self@),
    {
        let mut r = String::new();
        r.append("num_of_msg_per_file = ");
        r.append(usize_to_string(*self.num_of_msg_per_file()).as_str());
        r.append("\n");
        proof {
            reveal_strlit("num_of_msg_per_file = ");
            reveal_strlit("num_of_msg_per_file");
            reveal_strlit(" = ");
            reveal_strlit("\n");
            assert(r@ =~= text_line(kv_num("num_of_msg_per_file"@, self@.num_of_msg_per_file)));
        }
        let ghost done1 = r@;
        match *self.last_flushed_offset() {
            Some(k) => {
                r.append("last_flushed_offset = ");
                r.append(usize_to_string(k).as_str());
                r.append("\n");
                proof {
                    reveal_strlit("last_flushed_offset = ");
                    reveal_strlit("last_flushed_offset");
                    reveal_strlit(" = ");
                    reveal_strlit("\n");
                    assert(r@ =~= done1 + text_line(
                        kv_num("last_flushed_offset"@, self@.last_flushed_offset->0),
                    ));
                }
            },
            None => {},
        }
        let ghost done2 = r@;
        r.append("num_of_segments = ");
        r.append(usize_to_string(*self.num_of_segments()).as_str());
        r.append("\n\n[topic]\nname = \"");
        r.append(escape_str(self.topic().name()).as_str());
        r.append("\"\npath = \"");
        r.append(escape_str(self.topic().path()).as_str());
        r.append("\"\nmetadata_path = \"");
        r.append(escape_str(self.topic().metadata_path()).as_str());
        r.append("\"\n");
        proof {
            reveal_strlit("num_of_segments = ");
            reveal_strlit("num_of_segments");
            reveal_strlit(" = ");
            reveal_strlit("\n\n[topic]\nname = \"");
            reveal_strlit("[topic]");
            reveal_strlit("name");
            reveal_strlit("path");
            reveal_strlit("metadata_path");
            reveal_strlit(" = \"");
            reveal_strlit("\"\npath = \"");
            reveal_strlit("\"\nmetadata_path = \"");
            reveal_strlit("\"\n");
            reveal_strlit("\"");
            reveal_strlit("\n");
            assert(r@ =~= done2 + text_line(kv_num("num_of_segments"@, self@.num_of_segments))
                + text_line(Seq::<char>::empty()) + text_line("[topic]"@) + text_line(
                kv_str("name"@, self@.topic.name),
            ) + text_line(kv_str("path"@, self@.topic.path)) + text_line(
                kv_str("metadata_path"@, self@.topic.metadata_path),
            ));
            assert(r@ =~= manifest_text(self@));
        }
        r
    }

    /// Reads a manifest back from its text form; anything that is not the
    /// canonical shape is corrupt.
    pub fn deserialize(s: &str) -> (r: Result<TopicMetaData, ManifestError>)
        ensures
            (match r {
                Ok(m) => parse_manifest_spec(s@) == Some(m@) && m@.wf(),
                Err(_) => parse_manifest_spec(s@) is None,
            }),
    {
        let len = s.unicode_len();
        proof {
            assert(s@.skip(0) =~= s@);
        }
        let (l0, p1) = match next_line(s, len, 0) {
            Some(x) => x,
            None => {
                return Err(ManifestError::Corrupt);
            },
        };
        let n = match parse_num_field(l0, "num_of_msg_per_file") {
            Some(n) => n,
            None => {
                return Err(ManifestError::Corrupt);
            },
        };
        let (l1, p2) = match next_line(s, len, p1) {
            Some(x) => x,
            None => {
                return Err(ManifestError::Corrupt);
            },
        };
        let (lfo, lseg, pseg) = match parse_num_field(l1, "last_flushed_offset") {
            Some(k) => {
                match next_line(s, len, p2) {
                    Some((l2, p3)) => (Some(k), l2, p3),
                    None => {
                        return Err(ManifestError::Corrupt);
                    },
                }
            },
            None => (None, l1, p2),
        };
        let sgs = match parse_num_field(lseg, "num_of_segments") {
            Some(v) => v,
            None => {
                return Err(ManifestError::Corrupt);
            },
        };
        let (lb, p4) = match next_line(s, len, pseg) {
            Some(x) => x,
            None => {
                return Err(ManifestError::Corrupt);
            },
        };
        if lb.unicode_len() != 0 {
            return Err(ManifestError::Corrupt);
        }
        let (lh, p5) = match next_line(s, len, p4) {
            Some(x) => x,
            None => {
                return Err(ManifestError::Corrupt);
            },
        };
        let is_header = match strip_prefix_str(lh, "[topic]") {
            Some(t) => t.unicode_len() == 0,
            None => false,
        };
        proof {
            reveal_strlit("[topic]");
        }
        if !is_header {
            proof {
                if lh@ == "[topic]"@ {
                    assert(lh@.take("[topic]"@.len() as int) =~= "[topic]"@);
                    assert(lh@.skip("[topic]"@.len() as int) =~= Seq::<char>::empty());
                }
            }
            return Err(ManifestError::Corrupt);
        }
        proof {
            assert(lh@.take("[topic]"@.len() as int) == "[topic]"@);
            assert(lh@.skip("[topic]"@.len() as int).len() == 0);
            assert(lh@ =~= "[topic]"@);
        }
        let (ln, p6) = match next_line(s, len, p5) {
            Some(x) => x,
            None => {
                return Err(ManifestError::Corrupt);
            },
        };
        let name = match parse_str_field(ln, "name") {
            Some(v) => v,
            None => {
                return Err(ManifestError::Corrupt);
            },
        };
        let (lp, p7) = match next_line(s, len, p6) {
            Some(x) => x,
            None => {
                return Err(ManifestError::Corrupt);
            },
        };
        let path = match parse_str_field(lp, "path") {
            Some(v) => v,
            None => {
                return Err(ManifestError::Corrupt);
            },
        };
        let (lm, p8) = match next_line(s, len, p7) {
            Some(x) => x,
            None => {
                return Err(ManifestError::Corrupt);
            },
        };
        let mpath = match parse_str_field(lm, "metadata_path") {
            Some(v) => v,
            None => {
                return Err(ManifestError::Corrupt);
            },
        };
        if p8 != len {
            proof {
                assert(s@.skip(p8 as int).len() != 0);
            }
            return Err(ManifestError::Corrupt);
        }
        proof {
            assert(s@.skip(p8 as int).len() == 0);
        }
        if n < 1 || sgs < 1 {
            return Err(ManifestError::Corrupt);
        }
        let topic = Topic::from_parts(name, path, mpath);
        let m = TopicMetaData::new(topic, n, lfo, sgs);
        proof {
            assert(parse_manifest_spec(s@) == Some(m@));
        }
        Ok(m)
    }
}

} // verus!

verus! {

/// Text with no newline: it fits on one manifest line.
pub open spec fn no_nl(s: Seq<char>) -> bool {
    forall|i: int| 0 <= i < s.len() ==> #[trigger] s[i] != '\n'
}

/// A numeric line in the canonical text splits off whole and reads back
/// its value.
proof fn lemma_kv_num_line(key: Seq<char>, v: int, rest: Seq<char>)
    requires
        no_nl(key),
        0 <= v <= usize::MAX,
    ensures
        take_line(text_line(kv_num(key, v)) + rest) == Some((kv_num(key, v), rest)),
        parse_num_line(kv_num(key, v), key) == Some(v as usize),
{
    reveal_strlit(" = ");
    lemma_dec_digits_shape(v as nat);
    lemma_dec_val_of_digits(v as nat);
    let d = dec_digits(v as nat);
    let p = key + " = "@;
    let body = kv_num(key, v);
    assert(" = "@.len() == 3);
    assert forall|i: int| 0 <= i < body.len() implies #[trigger] body[i] != '\n' by {
        if i < key.len() {
            assert(body[i] == key[i]);
        } else if i < p.len() {
            assert(body[i] == " = "@[i - key.len()]);
        } else {
            assert(body[i] == d[i - p.len()]);
            assert(is_digit(d[i - p.len()]));
        }
    }
    assert(text_line(body) + rest =~= body + seq!['\n'] + rest);
    lemma_take_line_concat(body, rest);
    assert(body.take(p.len() as int) =~= p);
    assert(body.skip(p.len() as int) =~= d);
    assert(all_digits(d) && d.len() >= 1);
    assert(dec_val(d) == v as nat);
}

/// A quoted-string line in the canonical text splits off whole and reads
/// back its unescaped value.
proof fn lemma_kv_str_line(key: Seq<char>, v: Seq<char>, rest: Seq<char>)
    requires
        no_nl(key),
        clean_text(v),
    ensures
        take_line(text_line(kv_str(key, v)) + rest) == Some((kv_str(key, v), rest)),
        parse_str_line(kv_str(key, v), key) == Some(v),
{
    reveal_strlit(" = \"");
    reveal_strlit("\"");
    lemma_esc_clean(v);
    lemma_unesc_of_esc(v);
    let e = esc(v);
    let p = key + " = \""@;
    let body = kv_str(key, v);
    assert(" = \""@.len() == 4);
    assert("\""@.len() == 1);
    assert forall|i: int| 0 <= i < body.len() implies #[trigger] body[i] != '\n' by {
        if i < key.len() {
            assert(body[i] == key[i]);
        } else if i < p.len() {
            assert(body[i] == " = \""@[i - key.len()]);
        } else if i < p.len() + e.len() {
            assert(body[i] == e[i - p.len()]);
            assert(32 <= e[i - p.len()] as u32);
        } else {
            assert(body[i] == "\""@[i - p.len() - e.len()]);
        }
    }
    assert(text_line(body) + rest =~= body + seq!['\n'] + rest);
    lemma_take_line_concat(body, rest);
    assert(body.take(p.len() as int) =~= p);
    let r = body.skip(p.len() as int);
    assert(r =~= e + "\""@);
    assert(r.len() >= 1);
    assert(r.last() == '"');
    assert(r.drop_last() =~= e);
}

/// Reading the canonical text back yields the manifest it was written
/// from: the codec round-trips.
#[verifier::rlimit(100)]
pub proof fn lemma_manifest_round_trip(m: MetaSpec)
    requires
        m.wf(),
        serializable(m),
    ensures
        parse_manifest_spec(manifest_text(m)) == Some(m),
{
    reveal_strlit("num_of_msg_per_file");
    reveal_strlit("last_flushed_offset");
    reveal_strlit("num_of_segments");
    reveal_strlit("name");
    reveal_strlit("path");
    reveal_strlit("metadata_path");
    reveal_strlit("[topic]");
    assert(no_nl("num_of_msg_per_file"@));
    assert(no_nl("last_flushed_offset"@));
    assert(no_nl("num_of_segments"@));
    assert(no_nl("name"@));
    assert(no_nl("path"@));
    assert(no_nl("metadata_path"@));
    assert(no_nl("[topic]"@));

    let bn = kv_num("num_of_msg_per_file"@, m.num_of_msg_per_file);
    let bs = kv_num("num_of_segments"@, m.num_of_segments);
    let b5 = kv_str("name"@, m.topic.name);
    let b6 = kv_str("path"@, m.topic.path);
    let b7 = kv_str("metadata_path"@, m.topic.metadata_path);
    let t7 = text_line(b7);
    let t6 = text_line(b6) + t7;
    let t5 = text_line(b5) + t6;
    let t4 = text_line("[topic]"@) + t5;
    let t3 = text_line(Seq::<char>::empty()) + t4;
    let t2 = text_line(bs) + t3;

    // The num_of_segments line can never read as a watermark line.
    assert(parse_num_line(bs, "last_flushed_offset"@) is None) by {
        let p = "last_flushed_offset"@ + " = "@;
        if p.len() <= bs.len() && bs.take(p.len() as int) == p {
            assert(bs.take(p.len() as int)[0] == bs[0]);
            assert(bs[0] == "num_of_segments"@[0]);
            assert(p[0] == "last_flushed_offset"@[0]);
            assert(false);
        }
    }

    // The shared tail: num_of_segments line, blank line, [topic] header,
    // and the three identity strings.
    lemma_kv_num_line("num_of_segments"@, m.num_of_segments, t3);
    assert(Seq::<char>::empty() + seq!['\n'] + t4 =~= text_line(Seq::<char>::empty()) + t4);
    lemma_take_line_concat(Seq::<char>::empty(), t4);
    assert(take_line(t3) == Some((Seq::<char>::empty(), t4)));
    assert("[topic]"@ + seq!['\n'] + t5 =~= text_line("[topic]"@) + t5);
    lemma_take_line_concat("[topic]"@, t5);
    assert(take_line(t4) == Some(("[topic]"@, t5)));
    lemma_kv_str_line("name"@, m.topic.name, t6);
    lemma_kv_str_line("path"@, m.topic.path, t7);
    assert(t7 =~= text_line(b7) + Seq::<char>::empty());
    lemma_kv_str_line("metadata_path"@, m.topic.metadata_path, Seq::<char>::empty());

    let n = m.num_of_msg_per_file as usize;
    let sgs = m.num_of_segments as usize;
    let built = parse_topic_block(t3, n, match m.last_flushed_offset {
        Some(k) => Some(k as usize),
        None => None,
    }, sgs);
    assert(parse_seg_given(bs, t3, n, match m.last_flushed_offset {
        Some(k) => Some(k as usize),
        None => None,
    }) == built);
    match built {
        Some(mm) => {
            assert(mm =~= m);
        },
        None => {
            assert(false);
        },
    }

    match m.last_flushed_offset {
        Some(k) => {
            let bl = kv_num("last_flushed_offset"@, k);
            let t1 = text_line(bl) + t2;
            assert(manifest_text(m) =~= text_line(bn) + t1);
            lemma_kv_num_line("num_of_msg_per_file"@, m.num_of_msg_per_file, t1);
            lemma_kv_num_line("last_flushed_offset"@, k, t2);
            assert(parse_after_capacity(t1, n) == Some(m));
        },
        None => {
            let t1 = t2;
            assert(manifest_text(m) =~= text_line(bn) + t1);
            lemma_kv_num_line("num_of_msg_per_file"@, m.num_of_msg_per_file, t1);
            assert(parse_after_capacity(t1, n) == Some(m));
        },
    }
}

} // verus!

verus! {

/// The manifest text determines the manifest: two well-formed manifests
/// with one text form are one manifest. The file on disk is therefore an
/// unambiguous authority.
pub proof fn lemma_manifest_text_injective(a: MetaSpec, b: MetaSpec)
    requires
        a.wf(),
        serializable(a),
        b.wf(),
        serializable(b),
        manifest_text(a) == manifest_text(b),
    ensures
        a == b,
{
    lemma_manifest_round_trip(a);
    lemma_manifest_round_trip(b);
}

} // verus!

verus! {

/// Inverting a successful split: the text was the line, a newline, and
/// the rest.
proof fn lemma_take_line_inv(t: Seq<char>, l: Seq<char>, r: Seq<char>)
    requires
        take_line(t) == Some((l, r)),
    ensures
        t == l + seq!['\n'] + r,
        no_nl(l),
    decreases t.len(),
{
    if t.first() == '\n' {
        assert(t =~= Seq::<char>::empty() + seq!['\n'] + t.drop_first());
    } else {
        match take_line(t.drop_first()) {
            Some((l1, r1)) => {
                lemma_take_line_inv(t.drop_first(), l1, r1);
                assert(l == seq![t.first()] + l1);
                assert(t =~= seq![t.first()] + t.drop_first());
                assert(t =~= (seq![t.first()] + l1) + seq!['\n'] + r1);
                assert forall|i: int| 0 <= i < l.len() implies #[trigger] l[i] != '\n' by {
                    if i > 0 {
                        assert(l[i] == l1[i - 1]);
                    }
                }
            },
            None => {
                assert(false);
            },
        }
    }
}

/// Inverting a successful unescape: the input was the escaped form.
proof fn lemma_unesc_inv(x: Seq<char>, v: Seq<char>)
    requires
        unesc(x) == Some(v),
    ensures
        esc(v) == x,
    decreases x.len(),
{
    if x.len() == 0 {
    } else if x.first() == '\\' {
        match unesc(x.skip(2)) {
            Some(v1) => {
                lemma_unesc_inv(x.skip(2), v1);
                assert(v == seq![x[1]] + v1);
                assert(v.first() == x[1]);
                assert(v.drop_first() =~= v1);
                assert(esc_char(x[1]) =~= seq!['\\', x[1]]);
                assert(esc(v) == esc_char(x[1]) + esc(v1));
                assert(esc(v) =~= x);
            },
            None => {
                assert(false);
            },
        }
    } else {
        match unesc(x.drop_first()) {
            Some(v1) => {
                lemma_unesc_inv(x.drop_first(), v1);
                assert(v == seq![x.first()] + v1);
                assert(v.first() == x.first());
                assert(v.drop_first() =~= v1);
                assert(esc(v) == esc_char(x.first()) + esc(v1));
                assert(esc(v) =~= x);
            },
            None => {
                assert(false);
            },
        }
    }
}

/// Inverting a successful numeric line: the line was the canonical form.
proof fn lemma_parse_num_line_inv(l: Seq<char>, key: Seq<char>, v: usize)
    requires
        parse_num_line(l, key) == Some(v),
    ensures
        l == kv_num(key, v as int),
{
    let p = key + " = "@;
    match strip_prefix(l, p) {
        Some(d) => {
            assert(l =~= l.take(p.len() as int) + l.skip(p.len() as int));
            assert(d == dec_digits(v as nat));
            assert(l =~= p + dec_digits(v as nat));
        },
        None => {
            assert(false);
        },
    }
}

/// Inverting a successful string line: the line was the quoted escaped
/// form.
proof fn lemma_parse_str_line_inv(l: Seq<char>, key: Seq<char>, v: Seq<char>)
    requires
        parse_str_line(l, key) == Some(v),
    ensures
        l == kv_str(key, v),
{
    let p = key + " = \""@;
    match strip_prefix(l, p) {
        Some(rest) => {
            assert(l =~= l.take(p.len() as int) + l.skip(p.len() as int));
            assert(rest.len() >= 1 && rest.last() == '"');
            lemma_unesc_inv(rest.drop_last(), v);
            assert(rest =~= esc(v) + "\""@) by {
                reveal_strlit("\"");
                assert(rest =~= rest.drop_last().push(rest.last()));
                assert(esc(v) + "\""@ =~= esc(v).push('"'));
            }
            assert(l =~= p + (esc(v) + "\""@));
        },
        None => {
            assert(false);
        },
    }
}

/// A successful parse pins the text: what parsed is the one canonical
/// form of its manifest. With the round trip, `deserialize` accepts
/// exactly the canonical manifest texts.
#[verifier::rlimit(100)]
pub proof fn lemma_manifest_parse_sound(s: Seq<char>, m: MetaSpec)
    requires
        parse_manifest_spec(s) == Some(m),
    ensures
        s == manifest_text(m),
        m.wf(),
{
    match take_line(s) {
        Some((l0, s1)) => {
            lemma_take_line_inv(s, l0, s1);
            match parse_num_line(l0, "num_of_msg_per_file"@) {
                Some(n) => {
                    lemma_parse_num_line_inv(l0, "num_of_msg_per_file"@, n);
                    match take_line(s1) {
                        Some((l1, s2)) => {
                            lemma_take_line_inv(s1, l1, s2);
                            match parse_num_line(l1, "last_flushed_offset"@) {
                                Some(k) => {
                                    lemma_parse_num_line_inv(l1, "last_flushed_offset"@, k);
                                    match take_line(s2) {
                                        Some((l2, s3)) => {
                                            lemma_take_line_inv(s2, l2, s3);
                                            assert(s =~= text_line(l0) + text_line(l1)
                                                + text_line(l2) + s3);
                                            lemma_sound_from_seg(
                                                s, l0, l1, l2, s3, n, Some(k), m,
                                            );
                                        },
                                        None => {
                                            assert(false);
                                        },
                                    }
                                },
                                None => {
                                    assert(s =~= text_line(l0) + text_line(l1) + s2);
                                    lemma_sound_from_seg(s, l0, l1, l1, s2, n, None, m);
                                },
                            }
                        },
                        None => {
                            assert(false);
                        },
                    }
                },
                None => {
                    assert(false);
                },
            }
        },
        None => {
            assert(false);
        },
    }
}

/// The tail of the soundness proof, from the `num_of_segments` line on.
/// With no watermark, `lfo_line` is the segment line itself.
#[verifier::rlimit(100)]
proof fn lemma_sound_from_seg(
    s: Seq<char>,
    l0: Seq<char>,
    lfo_line: Seq<char>,
    lseg: Seq<char>,
    srest: Seq<char>,
    n: usize,
    lfo: Option<usize>,
    m: MetaSpec,
)
    requires
        parse_seg_given(lseg, srest, n, lfo) == Some(m),
        l0 == kv_num("num_of_msg_per_file"@, n as int),
        (match lfo {
            Some(k) => lfo_line == kv_num("last_flushed_offset"@, k as int) && s == text_line(l0)
                + text_line(lfo_line) + text_line(lseg) + srest,
            None => lfo_line == lseg && s == text_line(l0) + text_line(lseg) + srest,
        }),
    ensures
        s == manifest_text(m),
        m.wf(),
{
    match parse_num_line(lseg, "num_of_segments"@) {
        Some(sgs) => {
            lemma_parse_num_line_inv(lseg, "num_of_segments"@, sgs);
            match take_line(srest) {
                Some((lb, s4)) => {
                    lemma_take_line_inv(srest, lb, s4);
                    assert(lb.len() == 0);
                    assert(lb =~= Seq::<char>::empty());
                    match take_line(s4) {
                        Some((lh, s5)) => {
                            lemma_take_line_inv(s4, lh, s5);
                            assert(lh == "[topic]"@);
                            match take_line(s5) {
                                Some((ln, s6)) => {
                                    lemma_take_line_inv(s5, ln, s6);
                                    match parse_str_line(ln, "name"@) {
                                        Some(name) => {
                                            lemma_parse_str_line_inv(ln, "name"@, name);
                                            match take_line(s6) {
                                                Some((lp, s7)) => {
                                                    lemma_take_line_inv(s6, lp, s7);
                                                    match parse_str_line(lp, "path"@) {
                                                        Some(path) => {
                                                            lemma_parse_str_line_inv(
                                                                lp, "path"@, path,
                                                            );
                                                            match take_line(s7) {
                                                                Some((lm, s8)) => {
                                                                    lemma_take_line_inv(
                                                                        s7, lm, s8,
                                                                    );
                                                                    match parse_str_line(
                                                                        lm,
                                                                        "metadata_path"@,
                                                                    ) {
                                                                        Some(mpath) => {
                                                                            lemma_parse_str_line_inv(
                                                                                lm,
                                                                                "metadata_path"@,
                                                                                mpath,
                                                                            );
                                                                            assert(s8.len() == 0);
                                                                            assert(s8
                                                                                =~= Seq::<
                                                                                char,
                                                                            >::empty());
                                                                            assert(s
                                                                                =~= manifest_text(
                                                                                m,
                                                                            ));
                                                                        },
                                                                        None => {
                                                                            assert(false);
                                                                        },
                                                                    }
                                                                },
                                                                None => {
                                                                    assert(false);
                                                                },
                                                            }
                                                        },
                                                        None => {
                                                            assert(false);
                                                        },
                                                    }
                                                },
                                                None => {
                                                    assert(false);
                                                },
                                            }
                                        },
                                        None => {
                                            assert(false);
                                        },
                                    }
                                },
                                None => {
                                    assert(false);
                                },
                            }
                        },
                        None => {
                            assert(false);
                        },
                    }
                },
                None => {
                    assert(false);
                },
            }
        },
        None => {
            assert(false);
        },
    }
}

} // verus!

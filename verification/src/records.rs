//! The text format of intermediate and final outputs: one record per line,
//! a key and a value separated by the first space.

use vstd::prelude::*;
use crate::text::{chars_of, push_chars, substring_of};

verus! {

/// A record as characters: its key and its value.
pub type RecordView = (Seq<char>, Seq<char>);

/// The line that holds one record.
pub open spec fn encode_record(r: RecordView) -> Seq<char> {
    r.0 + seq![' '] + r.1 + seq!['\n']
}

/// The text that holds the records `rs`, in order.
pub open spec fn encode_records(rs: Seq<RecordView>) -> Seq<char>
    decreases rs.len(),
{
    if rs.len() == 0 {
        Seq::empty()
    } else {
        encode_records(rs.drop_last()) + encode_record(rs.last())
    }
}

/// The position of the first `c` in `s`, or the length of `s` if there is none.
pub open spec fn find_char(s: Seq<char>, c: char) -> nat
    decreases s.len(),
{
    if s.len() == 0 {
        0
    } else if s[0] == c {
        0
    } else {
        1 + find_char(s.drop_first(), c)
    }
}

/// A line without the carriage return that ends it, if one does.
pub open spec fn strip_cr(l: Seq<char>) -> Seq<char> {
    if l.len() > 0 && l.last() == '\r' {
        l.drop_last()
    } else {
        l
    }
}

/// The lines of `s`: pieces ended by a line feed, each without that line
/// feed and without a carriage return just before it, then the rest of
/// `s` if it is not empty.
pub open spec fn lines(s: Seq<char>) -> Seq<Seq<char>>
    decreases s.len(),
{
    if s.len() == 0 {
        Seq::empty()
    } else {
        let i = find_char(s, '\n');
        if i < s.len() {
            seq![strip_cr(s.take(i as int))] + lines(s.skip(i + 1int))
        } else {
            seq![s]
        }
    }
}

/// The record a line holds: the text before its first space and the text
/// after it; a line without a space holds none.
pub open spec fn decode_record(l: Seq<char>) -> Option<RecordView> {
    let i = find_char(l, ' ');
    if i < l.len() {
        Some((l.take(i as int), l.skip(i + 1int)))
    } else {
        None
    }
}

/// The records that the lines of `ls` hold, in order.
pub open spec fn decode_lines(ls: Seq<Seq<char>>) -> Seq<RecordView>
    decreases ls.len(),
{
    if ls.len() == 0 {
        Seq::empty()
    } else {
        match decode_record(ls[0]) {
            Some(r) => seq![r] + decode_lines(ls.drop_first()),
            None => decode_lines(ls.drop_first()),
        }
    }
}

/// The records that the text `s` holds.
pub open spec fn decode_records(s: Seq<char>) -> Seq<RecordView> {
    decode_lines(lines(s))
}

/// The characters of a list of string pairs.
pub open spec fn records_view(rs: Seq<(String, String)>) -> Seq<RecordView> {
    rs.map_values(|r: (String, String)| (r.0@, r.1@))
}

/// `find_char` is the first position that holds `c`.
pub proof fn lemma_find_char(s: Seq<char>, c: char, j: int)
    requires
        0 <= j <= s.len(),
        forall|k: int| 0 <= k < j ==> s[k] != c,
        j == s.len() || s[j] == c,
    ensures
        find_char(s, c) == j,
    decreases j,
{
    if j > 0 {
        lemma_find_char(s.drop_first(), c, j - 1);
    }
}

/// A record that its line gives back: the key holds no space and no line
/// feed, the value no line feed, and the value does not end with a carriage
/// return.
pub open spec fn record_is_plain(r: RecordView) -> bool {
    &&& forall|k: int| 0 <= k < r.0.len() ==> r.0[k] != ' ' && r.0[k] != '\n'
    &&& forall|k: int| 0 <= k < r.1.len() ==> r.1[k] != '\n'
    &&& !(r.1.len() > 0 && r.1.last() == '\r')
}

proof fn lemma_encode_records_front(rs: Seq<RecordView>)
    requires
        rs.len() > 0,
    ensures
        encode_records(rs) == encode_record(rs[0]) + encode_records(rs.drop_first()),
    decreases rs.len(),
{
    if rs.len() == 1 {
        assert(rs.drop_last() =~= Seq::<RecordView>::empty());
        assert(rs.drop_first() =~= Seq::<RecordView>::empty());
        assert(encode_records(rs.drop_last()) =~= Seq::<char>::empty());
        assert(rs.last() == rs[0]);
        assert(encode_records(rs) =~= Seq::<char>::empty() + encode_record(rs[0]));
        assert(encode_records(rs) =~= encode_record(rs[0]) + Seq::<char>::empty());
    } else {
        lemma_encode_records_front(rs.drop_last());
        assert(rs.drop_first().drop_last() =~= rs.drop_last().drop_first());
        assert(rs.drop_first().last() == rs.last());
        assert(rs.drop_last()[0] == rs[0]);
        assert(encode_records(rs) =~= encode_record(rs[0]) + encode_records(rs.drop_first()));
    }
}

proof fn lemma_lines_record(r: RecordView, rest: Seq<char>)
    requires
        record_is_plain(r),
    ensures
        lines(encode_record(r) + rest) == seq![r.0 + seq![' '] + r.1] + lines(rest),
{
    let s = encode_record(r) + rest;
    let line = r.0 + seq![' '] + r.1;
    let i = line.len() as int;
    assert forall|k: int| 0 <= k < i implies s[k] != '\n' by {
        if k < r.0.len() {
            assert(s[k] == r.0[k]);
        } else if k == r.0.len() {
            assert(s[k] == ' ');
        } else {
            assert(s[k] == r.1[k - r.0.len() - 1]);
        }
    }
    assert(s[i] == '\n');
    lemma_find_char(s, '\n', i);
    assert(s.take(i) =~= line);
    assert(s.skip(i + 1) =~= rest);
    if line.len() > 0 && line.last() == '\r' {
        if r.1.len() > 0 {
            assert(line.last() == r.1.last());
        } else {
            assert(line.last() == ' ');
        }
    }
    assert(strip_cr(line) == line);
}

proof fn lemma_decode_record(r: RecordView)
    requires
        record_is_plain(r),
    ensures
        decode_record(r.0 + seq![' '] + r.1) == Some(r),
{
    let line = r.0 + seq![' '] + r.1;
    let i = r.0.len() as int;
    assert forall|k: int| 0 <= k < i implies line[k] != ' ' by {
        assert(line[k] == r.0[k]);
    }
    lemma_find_char(line, ' ', i);
    assert(line.take(i) =~= r.0);
    assert(line.skip(i + 1) =~= r.1);
}

/// What is written is read back: the records that the text of `rs` holds
/// are `rs`, when each record is plain (see [`record_is_plain`]).
pub proof fn lemma_records_round_trip(rs: Seq<RecordView>)
    requires
        forall|i: int| 0 <= i < rs.len() ==> record_is_plain(#[trigger] rs[i]),
    ensures
        decode_records(encode_records(rs)) == rs,
    decreases rs.len(),
{
    if rs.len() == 0 {
        assert(encode_records(rs) =~= Seq::<char>::empty());
        assert(lines(Seq::<char>::empty()) =~= Seq::<Seq<char>>::empty());
        assert(rs =~= Seq::<RecordView>::empty());
    } else {
        let r = rs[0];
        let tail = rs.drop_first();
        assert forall|i: int| 0 <= i < tail.len() implies record_is_plain(#[trigger] tail[i]) by {
            assert(tail[i] == rs[i + 1]);
        }
        lemma_records_round_trip(tail);
        lemma_encode_records_front(rs);
        let line = r.0 + seq![' '] + r.1;
        let rest = lines(encode_records(tail));
        lemma_lines_record(r, encode_records(tail));
        lemma_decode_record(r);
        let ls = seq![line] + rest;
        assert(ls[0] == line);
        assert(ls.drop_first() =~= rest);
        assert(decode_lines(ls) == seq![r] + decode_lines(rest));
        assert(seq![r] + tail =~= rs);
    }
}

/// The text that holds the records `records`, each on a line of its own:
/// the key, a space, the value, a line feed.
pub fn format_records(records: &Vec<(String, String)>) -> (s: String)
    ensures
        s@ == encode_records(records_view(records@)),
{
    let mut out: Vec<char> = Vec::new();
    for i in 0..records.len()
        invariant
            out@ == encode_records(records_view(records@).take(i as int)),
    {
        let ghost before = out@;
        push_chars(&mut out, records[i].0.as_str());
        out.push(' ');
        push_chars(&mut out, records[i].1.as_str());
        out.push('\n');
        proof {
            let rv = records_view(records@);
            assert(rv.take(i + 1).drop_last() =~= rv.take(i as int));
            assert(out@ =~= before + encode_record(rv[i as int]));
        }
    }
    assert(records_view(records@).take(records@.len() as int) =~= records_view(records@));
    crate::text::string_of(&out)
}

/// The records that the text `content` holds: each line (see [`lines`])
/// that contains a space gives the text before its first space as key and
/// the text after it as value; lines without a space are skipped.
pub fn parse_records(content: &str) -> (records: Vec<(String, String)>)
    ensures
        records_view(records@) == decode_records(content@),
{
    let cs = chars_of(content);
    let n = cs.len();
    let mut out: Vec<(String, String)> = Vec::new();
    let mut pos: usize = 0;
    assert(cs@.skip(0) =~= cs@);
    while pos < n
        invariant
            cs@ == content@,
            n == cs@.len(),
            pos <= n,
            decode_records(cs@) == records_view(out@) + decode_lines(lines(cs@.skip(pos as int))),
        decreases n - pos,
    {
        let ghost t = cs@.skip(pos as int);
        let mut e: usize = pos;
        while e < n && cs[e] != '\n'
            invariant
                pos <= e <= n,
                n == cs@.len(),
                forall|k: int| pos <= k < e ==> cs@[k] != '\n',
            decreases n - e,
        {
            e = e + 1;
        }
        proof {
            lemma_find_char(t, '\n', (e - pos) as int);
        }
        let mut end = e;
        if e < n && e > pos && cs[e - 1] == '\r' {
            end = e - 1;
        }
        let ghost line = if e < n { strip_cr(t.take((e - pos) as int)) } else { t };
        assert(line =~= cs@.subrange(pos as int, end as int));
        let mut sp: usize = pos;
        while sp < end && cs[sp] != ' '
            invariant
                pos <= sp <= end,
                end <= n,
                n == cs@.len(),
                forall|k: int| pos <= k < sp ==> cs@[k] != ' ',
            decreases end - sp,
        {
            sp = sp + 1;
        }
        proof {
            lemma_find_char(line, ' ', (sp - pos) as int);
        }
        let ghost before = out@;
        if sp < end {
            let key = substring_of(&cs, pos, sp);
            let value = substring_of(&cs, sp + 1, end);
            out.push((key, value));
            proof {
                assert(key@ =~= line.take((sp - pos) as int));
                assert(value@ =~= line.skip((sp - pos) + 1int));
                assert(records_view(out@) =~= records_view(before) + seq![(key@, value@)]);
            }
        } else {
            assert(records_view(out@) =~= records_view(before));
        }
        proof {
            if e < n {
                assert(t.skip((e - pos) + 1int) =~= cs@.skip(e + 1int));
                let rest = lines(cs@.skip(e + 1int));
                assert(lines(t) =~= seq![line] + rest);
                assert((seq![line] + rest).drop_first() =~= rest);
            } else {
                assert(lines(t) =~= seq![line]);
                assert(seq![line].drop_first() =~= Seq::<Seq<char>>::empty());
                assert(cs@.skip(n as int) =~= Seq::<char>::empty());
            }
        }
        if e < n {
            pos = e + 1;
        } else {
            pos = n;
        }
    }
    assert(cs@.skip(n as int) =~= Seq::<char>::empty());
    assert(records_view(out@) + decode_lines(lines(Seq::<char>::empty())) =~= records_view(out@));
    out
}

} // verus!

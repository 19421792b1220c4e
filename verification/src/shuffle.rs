//! How records move from map tasks to reduce tasks: a map task splits its
//! output by the hash of each key, a reduce task groups what it reads by key.

use vstd::prelude::*;
use crate::hashing::{ihash, key_hash};
use crate::records::{decode_records, encode_record, encode_records, parse_records, records_view, RecordView};
use std::collections::HashMap;
use crate::text::{push_chars, string_of};

verus! {

broadcast use vstd::seq_lib::group_seq_properties;

/// The reduce task, among `n`, that gets the records with key `key`.
pub open spec fn reducer_of(key: Seq<char>, n: u32) -> u32 {
    (key_hash(key) % (n as u64)) as u32
}

/// The records of `rs` that go to reduce task `i`, in order.
pub open spec fn bucket(rs: Seq<RecordView>, n: u32, i: int) -> Seq<RecordView> {
    rs.filter(|r: RecordView| reducer_of(r.0, n) == i)
}

/// The reduce tasks that get at least one record of `rs`, in the order of
/// their first record, each once.
pub open spec fn reducers_used(rs: Seq<RecordView>, n: u32) -> Seq<u32> {
    rs.map_values(|r: RecordView| reducer_of(r.0, n)).remove_duplicates(Seq::empty())
}

/// Splits the output of a map task among `num_reduce` reduce tasks: the
/// text (see [`crate::records::format_records`]) of the records for each
/// reduce task, in the order of `records`, and the reduce tasks that get at
/// least one record, in the order of their first record.
pub fn partition_records(records: &Vec<(String, String)>, num_reduce: u32) -> (r: (Vec<String>, Vec<u32>))
    requires
        num_reduce > 0 || records@.len() == 0,
    ensures
        r.0@.len() == num_reduce,
        forall|i: int| 0 <= i < num_reduce ==>
            (#[trigger] r.0@[i])@ == encode_records(bucket(records_view(records@), num_reduce, i)),
        r.1@ == reducers_used(records_view(records@), num_reduce),
{
    let ghost rv = records_view(records@);
    let mut bufs: Vec<Vec<char>> = Vec::new();
    for i in 0..num_reduce
        invariant
            bufs@.len() == i,
            forall|k: int| 0 <= k < i ==> (#[trigger] bufs@[k])@ == Seq::<char>::empty(),
    {
        bufs.push(Vec::new());
    }
    let mut used: Vec<u32> = Vec::new();
    for j in 0..records.len()
        invariant
            rv == records_view(records@),
            num_reduce > 0 || records@.len() == 0,
            bufs@.len() == num_reduce,
            forall|k: int| 0 <= k < num_reduce ==>
                (#[trigger] bufs@[k])@ == encode_records(bucket(rv.take(j as int), num_reduce, k)),
            used@ == rv.take(j as int).map_values(|r: RecordView| reducer_of(r.0, num_reduce)).remove_duplicates(Seq::empty()),
    {
        let key = records[j].0.as_str();
        let h = ihash(key);
        let idx: u32 = (h % (num_reduce as u64)) as u32;
        let ghost old_used = used@;
        let ghost idxs = rv.take(j as int).map_values(|r: RecordView| reducer_of(r.0, num_reduce));
        let mut seen = false;
        for q in 0..used.len()
            invariant
                seen == (exists|p: int| 0 <= p < q && used@[p] == idx),
        {
            if used[q] == idx {
                seen = true;
            }
        }
        if !seen {
            used.push(idx);
        }
        proof {
            let rec = rv[j as int];
            assert(rec.0 == records@[j as int].0@);
            assert(rv.take(j + 1) =~= rv.take(j as int).push(rec));
            assert(rv.take(j + 1).map_values(|r: RecordView| reducer_of(r.0, num_reduce)) =~= idxs + seq![idx]);
            idxs.lemma_remove_duplicates_properties(Seq::empty());
            idxs.lemma_remove_duplicates_append(idx, Seq::empty());
            assert(idxs + Seq::<u32>::empty() =~= idxs);
            if seen {
                let p = choose|p: int| 0 <= p < old_used.len() && old_used[p] == idx;
                assert(old_used.contains(idx));
            } else {
                assert(!old_used.contains(idx));
                assert(used@ =~= old_used + seq![idx]);
            }
        }
        let ghost old_bufs = bufs@;
        let ghost before = bufs@[idx as int]@;
        push_chars(&mut bufs[idx as usize], key);
        bufs[idx as usize].push(' ');
        push_chars(&mut bufs[idx as usize], records[j].1.as_str());
        bufs[idx as usize].push('\n');
        proof {
            let rec = rv[j as int];
            assert(bufs@[idx as int]@ =~= before + encode_record(rec));
            assert forall|k: int| 0 <= k < num_reduce implies
                (#[trigger] bufs@[k])@ == encode_records(bucket(rv.take(j + 1), num_reduce, k)) by {
                let pred = |r: RecordView| reducer_of(r.0, num_reduce) == k;
                rv.take(j as int).lemma_filter_push(rec, pred);
                assert(rv.take(j + 1) =~= rv.take(j as int).push(rec));
                if k == idx {
                    let b = bucket(rv.take(j as int), num_reduce, k);
                    assert(b.push(rec).drop_last() =~= b);
                } else {
                    assert(bufs@[k] == old_bufs[k]);
                }
            }
        }
    }
    let mut out: Vec<String> = Vec::new();
    for i in 0..bufs.len()
        invariant
            bufs@.len() == num_reduce,
            out@.len() == i,
            forall|k: int| 0 <= k < i ==> (#[trigger] out@[k])@ == bufs@[k]@,
    {
        out.push(string_of(&bufs[i]));
    }
    assert(rv.take(records@.len() as int) =~= rv);
    (out, used)
}

/// The key of a record.
pub open spec fn key_of() -> spec_fn(RecordView) -> Seq<char> {
    |r: RecordView| r.0
}

/// The value of a record.
pub open spec fn value_of() -> spec_fn(RecordView) -> Seq<char> {
    |r: RecordView| r.1
}

/// Whether a record has key `k`.
pub open spec fn has_key(k: Seq<char>) -> spec_fn(RecordView) -> bool {
    |r: RecordView| r.0 == k
}

/// The distinct keys of `rs`, in the order of their first record.
pub open spec fn group_keys(rs: Seq<RecordView>) -> Seq<Seq<char>> {
    rs.map_values(key_of()).remove_duplicates(Seq::empty())
}

/// The values of the records of `rs` with key `k`, in order.
pub open spec fn values_of(rs: Seq<RecordView>, k: Seq<char>) -> Seq<Seq<char>> {
    rs.filter(has_key(k)).map_values(value_of())
}

/// The group of key `k` in `rs`: the key and its values.
pub open spec fn group_of(rs: Seq<RecordView>) -> spec_fn(Seq<char>) -> (Seq<char>, Seq<Seq<char>>) {
    |k: Seq<char>| (k, values_of(rs, k))
}

/// The records of `rs` grouped by key: each distinct key, in the order of
/// its first record, with all its values, in order.
pub open spec fn group_by_key(rs: Seq<RecordView>) -> Seq<(Seq<char>, Seq<Seq<char>>)> {
    group_keys(rs).map_values(group_of(rs))
}

/// The characters of a list of strings.
pub open spec fn strings_view(vs: Seq<String>) -> Seq<Seq<char>> {
    vs.map_values(|v: String| v@)
}

/// The characters of a list of groups.
pub open spec fn groups_view(gs: Seq<(String, Vec<String>)>) -> Seq<(Seq<char>, Seq<Seq<char>>)> {
    gs.map_values(|g: (String, Vec<String>)| (g.0@, strings_view(g.1@)))
}

pub(crate) proof fn lemma_group_step(rs: Seq<RecordView>, rec: RecordView)
    ensures
        group_keys(rs.push(rec)) == if group_keys(rs).contains(rec.0) {
            group_keys(rs)
        } else {
            group_keys(rs).push(rec.0)
        },
        forall|k: Seq<char>| #[trigger] values_of(rs.push(rec), k) == if k == rec.0 {
            values_of(rs, k).push(rec.1)
        } else {
            values_of(rs, k)
        },
{
    let raw = rs.map_values(key_of());
    assert(rs.push(rec).map_values(key_of()) =~= raw + seq![rec.0]);
    raw.lemma_remove_duplicates_properties(Seq::empty());
    raw.lemma_remove_duplicates_append(rec.0, Seq::empty());
    assert(raw + Seq::<Seq<char>>::empty() =~= raw);
    assert forall|k: Seq<char>| #[trigger] values_of(rs.push(rec), k) == if k == rec.0 {
        values_of(rs, k).push(rec.1)
    } else {
        values_of(rs, k)
    } by {
        rs.lemma_filter_push(rec, has_key(k));
        if k == rec.0 {
            assert(rs.filter(has_key(k)).push(rec).map_values(value_of())
                =~= rs.filter(has_key(k)).map_values(value_of()).push(rec.1));
        }
    }
}

proof fn lemma_values_absent(rs: Seq<RecordView>, k: Seq<char>)
    requires
        !group_keys(rs).contains(k),
    ensures
        values_of(rs, k) == Seq::<Seq<char>>::empty(),
{
    let raw = rs.map_values(key_of());
    raw.lemma_remove_duplicates_properties(Seq::empty());
    let fl = rs.filter(has_key(k));
    if fl.len() > 0 {
        rs.lemma_filter_pred(has_key(k), 0);
        assert(fl.contains(fl[0]));
        rs.lemma_filter_contains_rev(has_key(k), fl[0]);
        let i = choose|i: int| 0 <= i < rs.len() && rs[i] == fl[0];
        assert(raw[i] == k);
        assert((raw + Seq::<Seq<char>>::empty())[i] == k);
        assert(false);
    }
    assert(fl.map_values(value_of()) =~= Seq::<Seq<char>>::empty());
}

/// The records `records` grouped by key (see [`group_by_key`]).
pub fn group_records(records: &Vec<(String, String)>) -> (groups: Vec<(String, Vec<String>)>)
    ensures
        groups_view(groups@) == group_by_key(records_view(records@)),
{
    let ghost rv = records_view(records@);
    let mut groups: Vec<(String, Vec<String>)> = Vec::new();
    let mut index: HashMap<u64, Vec<usize>> = HashMap::new();
    proof {
        let e = Seq::<Seq<char>>::empty();
        assert(rv.take(0).map_values(key_of()) =~= e);
        assert(e.remove_duplicates(e) == e);
        assert(groups_view(groups@) =~= group_by_key(rv.take(0)));
    }
    for j in 0..records.len()
        invariant
            rv == records_view(records@),
            groups_view(groups@) == group_by_key(rv.take(j as int)),
            group_keys(rv.take(j as int)).no_duplicates(),
            forall|h: u64, p: int| index@.contains_key(h) && 0 <= p < index@[h]@.len() ==> {
                &&& #[trigger] index@[h]@[p] < groups@.len()
                &&& key_hash(groups@[index@[h]@[p] as int].0@) == h
            },
            forall|g: int| 0 <= g < groups@.len() ==> {
                &&& index@.contains_key(key_hash((#[trigger] groups@[g]).0@))
                &&& index@[key_hash(groups@[g].0@)]@.contains(g as usize)
            },
    {
        let key = &records[j].0;
        let value = &records[j].1;
        let ghost rec = rv[j as int];
        let ghost old_groups = groups@;
        let ghost old_index = index@;
        let ghost keys = group_keys(rv.take(j as int));
        let ghost gv = groups_view(old_groups);
        proof {
            assert(rec == (key@, value@));
            assert(rv.take(j + 1) =~= rv.take(j as int).push(rec));
            lemma_group_step(rv.take(j as int), rec);
            assert(gv.len() == keys.len());
            assert forall|x: int| 0 <= x < keys.len() implies #[trigger] keys[x] == old_groups[x].0@ by {
                assert(gv[x] == group_by_key(rv.take(j as int))[x]);
            }
        }
        let h = ihash(key.as_str());
        let mut found: Option<usize> = None;
        match index.get(&h) {
            Some(list) => {
                for q in 0..list.len()
                    invariant
                        index@ == old_index,
                        groups@ == old_groups,
                        index@.contains_key(h),
                        list@ == index@[h]@,
                        forall|p: int| 0 <= p < index@[h]@.len() ==> {
                            &&& #[trigger] index@[h]@[p] < groups@.len()
                            &&& key_hash(groups@[index@[h]@[p] as int].0@) == h
                        },
                        match found {
                            Some(g) => g < groups@.len() && groups@[g as int].0@ == key@,
                            None => forall|p: int| 0 <= p < q ==> groups@[list@[p] as int].0@ != key@,
                        },
                {
                    if found.is_none() {
                        let g = list[q];
                        assert(list@[q as int] == index@[h]@[q as int]);
                        if groups[g].0 == *key {
                            found = Some(g);
                        }
                    }
                }
                proof {
                    if found is None {
                        assert forall|p: int| 0 <= p < old_index[h]@.len() implies
                            old_groups[#[trigger] old_index[h]@[p] as int].0@ != key@ by {
                            assert(list@[p] == old_index[h]@[p]);
                        }
                    }
                }
            },
            None => {
                assert(!old_index.contains_key(h));
            },
        }
        match found {
            Some(g) => {
                proof {
                    assert(keys[g as int] == key@);
                    assert(keys.contains(key@));
                }
                let ghost old_vals = groups@[g as int].1@;
                groups[g].1.push(value.clone());
                proof {
                    assert(strings_view(groups@[g as int].1@) =~= strings_view(old_vals).push(value@));
                    assert forall|x: int| 0 <= x < groups@.len() implies
                        #[trigger] groups_view(groups@)[x] == group_by_key(rv.take(j + 1))[x] by {
                        if x != g {
                            assert(groups@[x] == old_groups[x]);
                            assert(keys[x] != key@);
                            assert(gv[x] == group_by_key(rv.take(j as int))[x]);
                        } else {
                            assert(gv[x] == group_by_key(rv.take(j as int))[x]);
                        }
                    }
                    assert(groups_view(groups@) =~= group_by_key(rv.take(j + 1)));
                    assert forall|x: int| 0 <= x < groups@.len() implies
                        #[trigger] groups@[x].0 == old_groups[x].0 by {
                        if x != g {
                            assert(groups@[x] == old_groups[x]);
                        }
                    }
                }
            },
            None => {
                proof {
                    if keys.contains(key@) {
                        let g0 = choose|g0: int| 0 <= g0 < keys.len() && keys[g0] == key@;
                        assert(old_groups[g0].0@ == key@);
                        assert(g0 < groups.len());
                        assert((g0 as usize) as int == g0);
                        assert(index@[h]@.contains(g0 as usize));
                        let p = choose|p: int| 0 <= p < index@[h]@.len() && index@[h]@[p] == g0 as usize;
                        assert(old_groups[old_index[h]@[p] as int].0@ != key@);
                        assert(false);
                    }
                    lemma_values_absent(rv.take(j as int), key@);
                    assert(keys.push(key@).no_duplicates());
                }
                let g = groups.len();
                let mut vs: Vec<String> = Vec::new();
                vs.push(value.clone());
                groups.push((key.clone(), vs));
                let taken = index.remove(&h);
                let ghost prev: Seq<usize> = match &taken {
                    Some(l) => l@,
                    None => Seq::empty(),
                };
                let mut list: Vec<usize> = match taken {
                    Some(l) => l,
                    None => Vec::new(),
                };
                list.push(g);
                index.insert(h, list);
                proof {
                    assert(old_index.contains_key(h) ==> prev == old_index[h]@);
                    assert(index@[h]@ == prev.push(g));
                    assert forall|x: int| 0 <= x < groups@.len() implies
                        #[trigger] groups_view(groups@)[x] == group_by_key(rv.take(j + 1))[x] by {
                        if x < g {
                            assert(groups@[x] == old_groups[x]);
                            assert(keys[x] != key@);
                            assert(gv[x] == group_by_key(rv.take(j as int))[x]);
                        } else {
                            assert(strings_view(groups@[x].1@) =~= seq![value@]);
                            assert(Seq::<Seq<char>>::empty().push(value@) =~= seq![value@]);
                        }
                    }
                    assert(groups_view(groups@) =~= group_by_key(rv.take(j + 1)));
                    assert forall|h2: u64, p: int| index@.contains_key(h2) && 0 <= p < index@[h2]@.len() implies {
                        &&& #[trigger] index@[h2]@[p] < groups@.len()
                        &&& key_hash(groups@[index@[h2]@[p] as int].0@) == h2
                    } by {
                        if h2 != h {
                            assert(index@[h2] == old_index[h2]);
                            assert(old_index[h2]@[p] < old_groups.len());
                        } else if p < prev.len() {
                            assert(index@[h2]@[p] == old_index[h2]@[p]);
                            assert(old_index[h2]@[p] < old_groups.len());
                        }
                    }
                    assert forall|x: int| 0 <= x < groups@.len() implies {
                        &&& index@.contains_key(key_hash((#[trigger] groups@[x]).0@))
                        &&& index@[key_hash(groups@[x].0@)]@.contains(x as usize)
                    } by {
                        if x < g {
                            assert(groups@[x] == old_groups[x]);
                            let h2 = key_hash(old_groups[x].0@);
                            assert(old_index.contains_key(h2));
                            assert(old_index[h2]@.contains(x as usize));
                            if h2 == h {
                                let p = choose|p: int| 0 <= p < old_index[h2]@.len() && old_index[h2]@[p] == x as usize;
                                assert(index@[h]@[p] == x as usize);
                            } else {
                                assert(index@[h2] == old_index[h2]);
                            }
                        } else {
                            assert(index@[h]@[prev.len() as int] == g);
                        }
                    }
                }
            },
        }
    }
    assert(rv.take(records@.len() as int) =~= rv);
    groups
}

/// The records of the texts `texts`, text after text.
pub open spec fn decode_all(texts: Seq<Seq<char>>) -> Seq<RecordView>
    decreases texts.len(),
{
    if texts.len() == 0 {
        Seq::empty()
    } else {
        decode_all(texts.drop_last()) + decode_records(texts.last())
    }
}

/// The input of a reduce task: the records of the map outputs `texts`, in
/// order, grouped by key (see [`group_by_key`]).
pub fn shuffle(texts: &Vec<String>) -> (groups: Vec<(String, Vec<String>)>)
    ensures
        groups_view(groups@) == group_by_key(decode_all(strings_view(texts@))),
{
    let mut all: Vec<(String, String)> = Vec::new();
    for i in 0..texts.len()
        invariant
            records_view(all@) == decode_all(strings_view(texts@).take(i as int)),
    {
        let ghost before = all@;
        let mut part = parse_records(texts[i].as_str());
        let ghost part_v = part@;
        all.append(&mut part);
        proof {
            let sv = strings_view(texts@);
            assert(sv.take(i + 1).drop_last() =~= sv.take(i as int));
            assert(records_view(all@) =~= records_view(before) + records_view(part_v));
        }
    }
    assert(strings_view(texts@).take(texts@.len() as int) =~= strings_view(texts@));
    group_records(&all)
}

} // verus!

//! Where outputs are written: the file names of map and reduce outputs.

use vstd::prelude::*;
use crate::task::{TaskId, WorkerId};
use crate::text::string_of;

verus! {

/// The character of decimal digit `d`.
pub open spec fn digit_char(d: nat) -> char {
    if d == 0 { '0' } else if d == 1 { '1' } else if d == 2 { '2' } else if d == 3 { '3' }
    else if d == 4 { '4' } else if d == 5 { '5' } else if d == 6 { '6' } else if d == 7 { '7' }
    else if d == 8 { '8' } else { '9' }
}

/// The decimal digits of `n`, without leading zeros.
pub open spec fn decimal(n: nat) -> Seq<char>
    decreases n,
{
    if n < 10 {
        seq![digit_char(n)]
    } else {
        decimal(n / 10).push(digit_char(n % 10))
    }
}

/// The directory prefix of every output file, `./out/mr-`.
pub open spec fn output_prefix() -> Seq<char> {
    seq!['.', '/', 'o', 'u', 't', '/', 'm', 'r', '-']
}

/// The file a map task writes for reduce task `reduce_idx`:
/// `./out/mr-{reduce_idx}-{task_id}-{worker_id}`.
pub open spec fn intermediate_name(reduce_idx: u32, task_id: TaskId, worker_id: WorkerId) -> Seq<char> {
    output_prefix() + decimal(reduce_idx as nat) + seq!['-'] + decimal(task_id as nat) + seq!['-']
        + decimal(worker_id as nat)
}

/// The file a reduce task writes: `./out/mr-{task_id}-{worker_id}`.
pub open spec fn reduce_output_name(task_id: TaskId, worker_id: WorkerId) -> Seq<char> {
    output_prefix() + decimal(task_id as nat) + seq!['-'] + decimal(worker_id as nat)
}

/// A decimal rendering holds digits only.
proof fn lemma_decimal_digits(n: nat)
    ensures
        decimal(n).len() >= 1,
        n >= 10 ==> decimal(n).len() >= 2,
        forall|i: int| 0 <= i < decimal(n).len() ==> #[trigger] decimal(n)[i] != '-',
    decreases n,
{
    if n >= 10 {
        lemma_decimal_digits(n / 10);
        assert forall|i: int| 0 <= i < decimal(n).len() implies #[trigger] decimal(n)[i] != '-' by {
            if i < decimal(n).len() - 1 {
                assert(decimal(n)[i] == decimal(n / 10)[i]);
            }
        }
    }
}

proof fn lemma_digit_char_injective(x: nat, y: nat)
    requires
        x < 10,
        y < 10,
        digit_char(x) == digit_char(y),
    ensures
        x == y,
{
    assert(digit_char(0) == '0' && digit_char(1) == '1' && digit_char(2) == '2' && digit_char(3) == '3'
        && digit_char(4) == '4' && digit_char(5) == '5' && digit_char(6) == '6' && digit_char(7) == '7'
        && digit_char(8) == '8' && digit_char(9) == '9');
}

/// Different numbers have different decimal renderings.
proof fn lemma_decimal_injective(a: nat, b: nat)
    requires
        decimal(a) == decimal(b),
    ensures
        a == b,
    decreases a,
{
    lemma_decimal_digits(a);
    lemma_decimal_digits(b);
    if a < 10 && b < 10 {
        assert(decimal(a)[0] == digit_char(a));
        assert(decimal(b)[0] == digit_char(b));
        lemma_digit_char_injective(a, b);
    }
    if a >= 10 && b >= 10 {
        assert(decimal(a / 10) =~= decimal(a).drop_last());
        assert(decimal(b / 10) =~= decimal(b).drop_last());
        lemma_decimal_injective(a / 10, b / 10);
        assert(decimal(a).last() == digit_char(a % 10));
        assert(decimal(b).last() == digit_char(b % 10));
        lemma_digit_char_injective(a % 10, b % 10);
    }
}

/// Splitting at the first dash: a dash-free head, a dash, then the rest.
proof fn lemma_split_at_dash(x1: Seq<char>, y1: Seq<char>, x2: Seq<char>, y2: Seq<char>)
    requires
        forall|i: int| 0 <= i < x1.len() ==> x1[i] != '-',
        forall|i: int| 0 <= i < x2.len() ==> x2[i] != '-',
        x1 + seq!['-'] + y1 == x2 + seq!['-'] + y2,
    ensures
        x1 == x2,
        y1 == y2,
{
    let s = x1 + seq!['-'] + y1;
    if x1.len() < x2.len() {
        assert(s[x1.len() as int] == '-');
        assert((x2 + seq!['-'] + y2)[x1.len() as int] == x2[x1.len() as int]);
    } else if x2.len() < x1.len() {
        assert((x2 + seq!['-'] + y2)[x2.len() as int] == '-');
        assert(s[x2.len() as int] == x1[x2.len() as int]);
    }
    assert(x1 =~= s.take(x1.len() as int));
    assert(x2 =~= (x2 + seq!['-'] + y2).take(x2.len() as int));
    assert(y1 =~= s.skip(x1.len() + 1int));
    assert(y2 =~= (x2 + seq!['-'] + y2).skip(x2.len() + 1int));
}

/// The name of a map output after the directory prefix.
proof fn lemma_intermediate_tail(r: u32, t: TaskId, w: WorkerId)
    ensures
        intermediate_name(r, t, w).skip(output_prefix().len() as int)
            == decimal(r as nat) + seq!['-'] + (decimal(t as nat) + seq!['-'] + decimal(w as nat)),
        intermediate_name(r, t, w).take(output_prefix().len() as int) == output_prefix(),
{
    let a = decimal(r as nat);
    let b = decimal(t as nat);
    let c = decimal(w as nat);
    assert(intermediate_name(r, t, w) =~= output_prefix() + (a + seq!['-'] + (b + seq!['-'] + c)));
    assert(intermediate_name(r, t, w).skip(output_prefix().len() as int) =~= a + seq!['-'] + (b + seq!['-'] + c));
    assert(intermediate_name(r, t, w).take(output_prefix().len() as int) =~= output_prefix());
}

/// The name of a reduce output after the directory prefix.
proof fn lemma_reduce_output_tail(t: TaskId, w: WorkerId)
    ensures
        reduce_output_name(t, w).skip(output_prefix().len() as int)
            == decimal(t as nat) + seq!['-'] + decimal(w as nat),
{
    let b = decimal(t as nat);
    let c = decimal(w as nat);
    assert(reduce_output_name(t, w) =~= output_prefix() + (b + seq!['-'] + c));
    assert(reduce_output_name(t, w).skip(output_prefix().len() as int) =~= b + seq!['-'] + c);
}

/// Map outputs of different (reduce index, task, worker) triples have
/// different names.
pub proof fn lemma_intermediate_names_distinct(r1: u32, t1: TaskId, w1: WorkerId, r2: u32, t2: TaskId, w2: WorkerId)
    requires
        intermediate_name(r1, t1, w1) == intermediate_name(r2, t2, w2),
    ensures
        r1 == r2 && t1 == t2 && w1 == w2,
{
    lemma_decimal_digits(r1 as nat);
    lemma_decimal_digits(t1 as nat);
    lemma_decimal_digits(r2 as nat);
    lemma_decimal_digits(t2 as nat);
    lemma_intermediate_tail(r1, t1, w1);
    lemma_intermediate_tail(r2, t2, w2);
    let (b1, c1) = (decimal(t1 as nat), decimal(w1 as nat));
    let (b2, c2) = (decimal(t2 as nat), decimal(w2 as nat));
    lemma_split_at_dash(decimal(r1 as nat), b1 + seq!['-'] + c1, decimal(r2 as nat), b2 + seq!['-'] + c2);
    lemma_split_at_dash(b1, c1, b2, c2);
    lemma_decimal_injective(r1 as nat, r2 as nat);
    lemma_decimal_injective(t1 as nat, t2 as nat);
    lemma_decimal_injective(w1 as nat, w2 as nat);
}

/// Reduce outputs of different (task, worker) pairs have different names.
pub proof fn lemma_reduce_output_names_distinct(t1: TaskId, w1: WorkerId, t2: TaskId, w2: WorkerId)
    requires
        reduce_output_name(t1, w1) == reduce_output_name(t2, w2),
    ensures
        t1 == t2 && w1 == w2,
{
    lemma_decimal_digits(t1 as nat);
    lemma_decimal_digits(t2 as nat);
    lemma_reduce_output_tail(t1, w1);
    lemma_reduce_output_tail(t2, w2);
    lemma_split_at_dash(decimal(t1 as nat), decimal(w1 as nat), decimal(t2 as nat), decimal(w2 as nat));
    lemma_decimal_injective(t1 as nat, t2 as nat);
    lemma_decimal_injective(w1 as nat, w2 as nat);
}

/// No map output is named like a reduce output.
pub proof fn lemma_map_and_reduce_outputs_differ(r: u32, t1: TaskId, w1: WorkerId, t2: TaskId, w2: WorkerId)
    ensures
        intermediate_name(r, t1, w1) != reduce_output_name(t2, w2),
{
    if intermediate_name(r, t1, w1) == reduce_output_name(t2, w2) {
        let (a, b1, c1) = (decimal(r as nat), decimal(t1 as nat), decimal(w1 as nat));
        let (b2, c2) = (decimal(t2 as nat), decimal(w2 as nat));
        lemma_decimal_digits(r as nat);
        lemma_decimal_digits(t2 as nat);
        lemma_decimal_digits(w2 as nat);
        lemma_intermediate_tail(r, t1, w1);
        lemma_reduce_output_tail(t2, w2);
        lemma_split_at_dash(a, b1 + seq!['-'] + c1, b2, c2);
        assert((b1 + seq!['-'] + c1)[b1.len() as int] == '-');
        assert(c2[b1.len() as int] != '-');
    }
}

fn digit(d: u128) -> (c: char)
    requires
        d < 10,
    ensures
        c == digit_char(d as nat),
{
    if d == 0 { '0' } else if d == 1 { '1' } else if d == 2 { '2' } else if d == 3 { '3' }
    else if d == 4 { '4' } else if d == 5 { '5' } else if d == 6 { '6' } else if d == 7 { '7' }
    else if d == 8 { '8' } else { '9' }
}

/// Appends the decimal digits of `n` to `out`.
pub fn push_decimal(out: &mut Vec<char>, n: u128)
    ensures
        final(out)@ == old(out)@ + decimal(n as nat),
    decreases n,
{
    if n >= 10 {
        push_decimal(out, n / 10);
    }
    out.push(digit(n % 10));
    proof {
        if n >= 10 {
            assert(old(out)@ + decimal(n as nat) =~= old(out)@ + decimal((n / 10) as nat) + seq![digit_char((n % 10) as nat)]);
        }
    }
}

fn push_output_prefix(out: &mut Vec<char>)
    ensures
        final(out)@ == old(out)@ + output_prefix(),
{
    out.push('.');
    out.push('/');
    out.push('o');
    out.push('u');
    out.push('t');
    out.push('/');
    out.push('m');
    out.push('r');
    out.push('-');
    assert(final(out)@ =~= old(out)@ + output_prefix());
}

/// The file a map task writes for reduce task `reduce_idx` (see
/// [`intermediate_name`]); the reduce task reads it back under the same name.
pub fn intermediate_path(reduce_idx: u32, task_id: TaskId, worker_id: WorkerId) -> (p: String)
    ensures
        p@ == intermediate_name(reduce_idx, task_id, worker_id),
{
    let mut out: Vec<char> = Vec::new();
    push_output_prefix(&mut out);
    push_decimal(&mut out, reduce_idx as u128);
    out.push('-');
    push_decimal(&mut out, task_id);
    out.push('-');
    push_decimal(&mut out, worker_id);
    assert(out@ =~= intermediate_name(reduce_idx, task_id, worker_id));
    string_of(&out)
}

/// The file a reduce task writes (see [`reduce_output_name`]).
pub fn reduce_output_path(task_id: TaskId, worker_id: WorkerId) -> (p: String)
    ensures
        p@ == reduce_output_name(task_id, worker_id),
{
    let mut out: Vec<char> = Vec::new();
    push_output_prefix(&mut out);
    push_decimal(&mut out, task_id);
    out.push('-');
    push_decimal(&mut out, worker_id);
    assert(out@ =~= reduce_output_name(task_id, worker_id));
    string_of(&out)
}

} // verus!

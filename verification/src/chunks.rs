//! Sealed chunks of append-only files: their names, their order, and which of them go when
//! there are too many bytes.
use vstd::prelude::*;

use crate::numbers::{
    decimal, decimal_text, is_digit, law_decimal_round_trip, lemma_decimal_digits, number_in,
    parse_wide,
};
use crate::text::{
    begins_with, finishes_with, from_chars, has_prefix, has_suffix, lemma_filter_members,
    lemma_filter_step, opt_text, same_text, texts, to_chars,
};

verus! {

/// The name of the chunk that a file becomes when it is sealed at time `ts`.
pub open spec fn sealed_name(name: Seq<char>, ts: nat) -> Seq<char> {
    name + "."@ + decimal(ts)
}

/// The name of the chunk that a file becomes when it is sealed at time `ts`.
pub fn rotated_name(name: &str, ts: u128) -> (r: String)
    ensures
        r@ == sealed_name(name@, ts as nat),
{
    let mut r = name.to_owned();
    r.append(".");
    r.append(decimal_text(ts).as_str());
    r
}

/// The name to seal a file under at time `ts`, or at the next tick where that is taken.
pub fn rotation_target(name: &str, ts: u128, taken: bool) -> (r: String)
    requires
        ts < u128::MAX,
    ensures
        r@ == sealed_name(
            name@,
            if taken {
                ts as nat + 1
            } else {
                ts as nat
            },
        ),
{
    rotated_name(
        name,
        if taken {
            ts + 1
        } else {
            ts
        },
    )
}

/// `s` without the ending `.gz`.
pub open spec fn without_gz(s: Seq<char>) -> Seq<char> {
    if finishes_with(s, ".gz"@) {
        s.take(s.len() - 3)
    } else {
        s
    }
}

/// `s` without any number of endings `.gz`.
pub open spec fn without_all_gz(s: Seq<char>) -> Seq<char>
    decreases s.len(),
{
    if s.len() >= 3 && finishes_with(s, ".gz"@) {
        without_all_gz(s.take(s.len() - 3))
    } else {
        s
    }
}

/// Whether a name is that of a sealed chunk of the file `prefix`: the file's name, a dot and
/// digits, and perhaps `.gz`.
pub open spec fn is_sealed(prefix: Seq<char>, name: Seq<char>) -> bool {
    &&& begins_with(name, prefix)
    &&& name.len() > prefix.len()
    &&& name[prefix.len() as int] == '.'
    &&& all_digits(without_gz(name.skip(prefix.len() as int + 1)))
}

/// Whether a text is at least one digit, and nothing else.
pub open spec fn all_digits(s: Seq<char>) -> bool {
    s.len() > 0 && forall|i: int| 0 <= i < s.len() ==> is_digit(#[trigger] s[i])
}

/// Whether a name is that of a sealed chunk of the file `prefix`.
pub fn is_rotated_sibling(prefix: &str, name: &str) -> (r: bool)
    ensures
        r == is_sealed(prefix@, name@),
{
    if !has_prefix(name, prefix) {
        return false;
    }
    let p = to_chars(prefix);
    let v = to_chars(name);
    let n: usize = p.len();
    if v.len() <= n || v[n] != '.' {
        return false;
    }
    let rest = from_chars(&v, n + 1, v.len());
    assert(rest@ =~= name@.skip(n + 1));
    proof {
        reveal_strlit(".gz");
    }
    let gz = has_suffix(rest.as_str(), ".gz");
    let end: usize = if gz {
        v.len() - 3
    } else {
        v.len()
    };
    let ghost stem = without_gz(rest@);
    assert(stem =~= v@.subrange(n + 1, end as int));
    if end == n + 1 {
        return false;
    }
    for i in n + 1..end
        invariant
            n + 1 <= end <= v@.len(),
            stem == without_gz(name@.skip(prefix@.len() as int + 1)),
            stem == v@.subrange(n + 1, end as int),
            forall|k: int| n + 1 <= k < i ==> is_digit(#[trigger] v@[k]),
    {
        let c: char = v[i];
        if !('0' <= c && c <= '9') {
            assert(stem[i - (n + 1)] == c);
            return false;
        }
    }
    assert forall|k: int| 0 <= k < stem.len() implies is_digit(#[trigger] stem[k]) by {
        assert(stem[k] == v@[k + (n + 1)]);
    }
    true
}

/// What follows the last dot of a text; nothing where there is none.
pub open spec fn after_last_dot(s: Seq<char>) -> Seq<char>
    decreases s.len(),
{
    if s.len() == 0 {
        Seq::empty()
    } else if s.last() == '.' {
        Seq::empty()
    } else if !s.contains('.') {
        Seq::empty()
    } else {
        after_last_dot(s.drop_last()).push(s.last())
    }
}

/// What follows the last dot of `v[..to]`.
fn last_part(v: &Vec<char>, to: usize) -> (r: String)
    requires
        to <= v@.len(),
    ensures
        r@ == after_last_dot(v@.take(to as int)),
{
    let mut from: usize = to;
    while from > 0 && v[from - 1] != '.'
        invariant
            from <= to <= v@.len(),
            forall|k: int| from <= k < to ==> #[trigger] v@[k] != '.',
        decreases from,
    {
        from = from - 1;
    }
    if from == 0 {
        proof {
            lemma_no_last_dot(v@.take(to as int));
        }
        return String::new();
    }
    proof {
        lemma_after_last_dot(v@.take(to as int), from as int);
        assert(v@.take(to as int).skip(from as int) =~= v@.subrange(from as int, to as int));
    }
    from_chars(v, from, to)
}

proof fn lemma_no_last_dot(s: Seq<char>)
    requires
        forall|k: int| 0 <= k < s.len() ==> #[trigger] s[k] != '.',
    ensures
        after_last_dot(s) == Seq::<char>::empty(),
{
    if s.contains('.') {
        let k = s.index_of('.');
        assert(s[k] == '.');
    }
}

proof fn lemma_after_last_dot(s: Seq<char>, from: int)
    requires
        0 < from <= s.len(),
        s[from - 1] == '.',
        forall|k: int| from <= k < s.len() ==> #[trigger] s[k] != '.',
    ensures
        after_last_dot(s) == s.skip(from),
    decreases s.len(),
{
    if from == s.len() {
        assert(s.last() == '.');
        assert(s.skip(from) =~= Seq::<char>::empty());
    } else {
        assert(s.last() == s[s.len() - 1]);
        assert(s.contains('.')) by {
            assert(s[from - 1] == '.');
        }
        lemma_after_last_dot(s.drop_last(), from);
        assert(s.skip(from) =~= s.drop_last().skip(from).push(s.last()));
    }
}

/// The time in a chunk's name; 0 where there is none.
pub open spec fn seal_time(name: Seq<char>) -> nat {
    let last = after_last_dot(name);
    let stem = if last == "gz"@ {
        after_last_dot(without_all_gz(name))
    } else {
        last
    };
    match number_in(stem, u128::MAX as nat) {
        Ok(n) => n,
        Err(_) => 0,
    }
}

/// The time in a chunk's name; 0 where there is none.
pub fn rotated_sort_key(name: &str) -> (r: u128)
    ensures
        r == seal_time(name@),
{
    let v = to_chars(name);
    assert(v@.take(v@.len() as int) =~= v@);
    let last = last_part(&v, v.len());
    let stem = if same_text(last.as_str(), "gz") {
        let mut n: usize = v.len();
        proof {
            reveal_strlit(".gz");
            assert(".gz"@ =~= seq!['.', 'g', 'z']);
        }
        while n >= 3 && v[n - 3] == '.' && v[n - 2] == 'g' && v[n - 1] == 'z'
            invariant
                n <= v@.len(),
                v@ == name@,
                ".gz"@ == seq!['.', 'g', 'z'],
                without_all_gz(name@) == without_all_gz(v@.take(n as int)),
            decreases n,
        {
            proof {
                let s = v@.take(n as int);
                assert(s.skip(n - 3) =~= ".gz"@);
                assert(s.take(n - 3) =~= v@.take(n - 3));
            }
            n = n - 3;
        }
        proof {
            let s = v@.take(n as int);
            if n >= 3 && finishes_with(s, ".gz"@) {
                assert(s.skip(n - 3)[0] == '.');
                assert(s.skip(n - 3)[1] == 'g');
                assert(s.skip(n - 3)[2] == 'z');
            }
        }
        last_part(&v, n)
    } else {
        last
    };
    match parse_wide(stem.as_str(), u128::MAX) {
        Ok(n) => n,
        Err(_) => 0,
    }
}

/// A list in order of time with one more name put after all that are not later.
pub open spec fn inserted(q: Seq<Seq<char>>, x: Seq<char>) -> Seq<Seq<char>>
    decreases q.len(),
{
    if q.len() == 0 || seal_time(q.last()) <= seal_time(x) {
        q.push(x)
    } else {
        inserted(q.drop_last(), x).push(q.last())
    }
}

/// The names in order of time; names of the same time stay in the order of the list.
pub open spec fn by_time(list: Seq<Seq<char>>) -> Seq<Seq<char>>
    decreases list.len(),
{
    if list.len() == 0 {
        Seq::empty()
    } else {
        inserted(by_time(list.drop_last()), list.last())
    }
}

/// The sealed chunks of the file `prefix` among the given names, oldest first.
pub open spec fn sealed_chunks(prefix: Seq<char>, names: Seq<Seq<char>>) -> Seq<Seq<char>> {
    by_time(names.filter(|n: Seq<char>| is_sealed(prefix, n)))
}

/// The sealed chunks of the file `prefix` among the given names, oldest first.
pub fn list_rotated(prefix: &str, names: &[String]) -> (r: Vec<String>)
    ensures
        texts(r@) == sealed_chunks(prefix@, texts(names@)),
{
    let ghost keep = |n: Seq<char>| is_sealed(prefix@, n);
    let ghost all = texts(names@);
    let mut r: Vec<String> = Vec::new();
    assert(texts(r@) =~= by_time(all.take(0).filter(keep))) by {
        reveal(Seq::filter);
    }
    for i in 0..names.len()
        invariant
            keep == (|n: Seq<char>| is_sealed(prefix@, n)),
            all == texts(names@),
            texts(r@) == by_time(all.take(i as int).filter(keep)),
    {
        proof {
            lemma_filter_step(all, keep, i as int);
        }
        if is_rotated_sibling(prefix, names[i].as_str()) {
            let ghost f = all.take(i as int).filter(keep);
            assert(f.push(all[i as int]).drop_last() =~= f);
            insert_by_time(&mut r, names[i].clone());
        }
    }
    assert(all.take(all.len() as int) =~= all);
    r
}

fn insert_by_time(v: &mut Vec<String>, x: String)
    ensures
        texts(final(v)@) == inserted(texts(old(v)@), x@),
{
    let ghost q = texts(v@);
    let key: u128 = rotated_sort_key(x.as_str());
    let mut p: usize = v.len();
    assert(q.take(p as int) =~= q);
    assert(q.skip(p as int) =~= Seq::<Seq<char>>::empty());
    assert(inserted(q, x@) =~= inserted(q.take(p as int), x@) + q.skip(p as int));
    while p > 0 && rotated_sort_key(v[p - 1].as_str()) > key
        invariant
            p <= v@.len(),
            q == texts(v@),
            key == seal_time(x@),
            inserted(q, x@) == inserted(q.take(p as int), x@) + q.skip(p as int),
        decreases p,
    {
        proof {
            let a = q.take(p as int);
            assert(a.drop_last() =~= q.take(p - 1));
            assert(a.last() == q[p - 1]);
            assert(inserted(a, x@) == inserted(a.drop_last(), x@).push(a.last()));
            assert(inserted(a.drop_last(), x@).push(a.last()) + q.skip(p as int) =~= inserted(
                q.take(p - 1),
                x@,
            ) + q.skip(p - 1));
        }
        p = p - 1;
    }
    proof {
        let a = q.take(p as int);
        if p > 0 {
            assert(a.last() == q[p - 1]);
        }
        assert(inserted(a, x@) == a.push(x@));
        assert(q.insert(p as int, x@) =~= a.push(x@) + q.skip(p as int));
    }
    v.insert(p, x);
    assert(texts(v@) =~= q.insert(p as int, x@));
}

/// The list is in order of time.
pub open spec fn is_by_time(q: Seq<Seq<char>>) -> bool {
    forall|i: int, j: int|
        0 <= i < j < q.len() ==> seal_time(#[trigger] q[i]) <= seal_time(#[trigger] q[j])
}

/// Chunks come in order of time, and each as often as it is listed.
pub proof fn law_by_time(list: Seq<Seq<char>>)
    ensures
        is_by_time(by_time(list)),
        by_time(list).to_multiset() == list.to_multiset(),
        by_time(list).len() == list.len(),
    decreases list.len(),
{
    broadcast use vstd::seq_lib::group_to_multiset_ensures;

    if list.len() > 0 {
        law_by_time(list.drop_last());
        lemma_inserted(by_time(list.drop_last()), list.last());
        assert(list.drop_last().push(list.last()) =~= list);
    }
}

proof fn lemma_inserted(q: Seq<Seq<char>>, x: Seq<char>)
    requires
        is_by_time(q),
    ensures
        is_by_time(inserted(q, x)),
        inserted(q, x).to_multiset() == q.to_multiset().insert(x),
        inserted(q, x).len() == q.len() + 1,
        forall|i: int|
            0 <= i < q.len() + 1 ==> (#[trigger] inserted(q, x)[i] == x || q.contains(
                inserted(q, x)[i],
            )),
    decreases q.len(),
{
    broadcast use vstd::seq_lib::group_to_multiset_ensures;

    let r = inserted(q, x);
    if q.len() == 0 || seal_time(q.last()) <= seal_time(x) {
        assert forall|i: int| 0 <= i < q.len() + 1 implies (#[trigger] r[i] == x || q.contains(
            r[i],
        )) by {
            if i < q.len() {
                assert(r[i] == q[i]);
            }
        }
        assert forall|i: int, j: int| 0 <= i < j < r.len() implies seal_time(#[trigger] r[i])
            <= seal_time(#[trigger] r[j]) by {
            if j == q.len() && i < q.len() - 1 {
                assert(seal_time(q[i]) <= seal_time(q[q.len() - 1]));
            }
        }
    } else {
        let rest = q.drop_last();
        lemma_inserted(rest, x);
        let r0 = inserted(rest, x);
        assert(rest.push(q.last()) =~= q);
        assert(r0.to_multiset().insert(q.last()) =~= q.to_multiset().insert(x)) by {
            assert(r0.to_multiset() == rest.to_multiset().insert(x));
            assert(q.to_multiset() =~= rest.to_multiset().insert(q.last()));
        }
        assert forall|i: int| 0 <= i < q.len() + 1 implies (#[trigger] r[i] == x || q.contains(
            r[i],
        )) by {
            if i < r0.len() {
                assert(r[i] == r0[i]);
                if r0[i] != x {
                    let k = rest.index_of(r0[i]);
                    assert(q[k] == r0[i]);
                }
            } else {
                assert(r[i] == q[q.len() - 1]);
            }
        }
        assert forall|i: int, j: int| 0 <= i < j < r.len() implies seal_time(#[trigger] r[i])
            <= seal_time(#[trigger] r[j]) by {
            if j < r0.len() {
                assert(seal_time(r0[i]) <= seal_time(r0[j]));
            } else {
                assert(r0[i] == x || rest.contains(r0[i]));
                if r0[i] != x {
                    let k = rest.index_of(r0[i]);
                    assert(q[k] == r0[i]);
                    assert(seal_time(q[k]) <= seal_time(q[q.len() - 1]));
                }
            }
        }
    }
}

/// A file that is sealed at a time is a sealed chunk, and the time can be read off its name.
pub proof fn law_sealed_name_is_recognised(prefix: Seq<char>, ts: nat)
    requires
        ts <= u128::MAX,
    ensures
        is_sealed(prefix, sealed_name(prefix, ts)),
        seal_time(sealed_name(prefix, ts)) == ts,
{
    let name = sealed_name(prefix, ts);
    let d = decimal(ts);
    reveal_strlit(".");
    reveal_strlit(".gz");
    reveal_strlit("gz");
    assert("."@ =~= seq!['.']);
    assert(name.take(prefix.len() as int) =~= prefix);
    assert(name[prefix.len() as int] == '.');
    assert(name.skip(prefix.len() as int + 1) =~= d);
    lemma_decimal_digits(ts);
    if finishes_with(d, ".gz"@) {
        assert(d.skip(d.len() - 3)[0] == ".gz"@[0]);
        assert(d[d.len() - 3] == '.');
    }
    assert forall|k: int| prefix.len() + 1 <= k < name.len() implies #[trigger] name[k] != '.' by {
        assert(name[k] == d[k - (prefix.len() + 1)]);
    }
    lemma_after_last_dot(name, prefix.len() as int + 1);
    assert(d != "gz"@) by {
        assert(is_digit(d[0]));
        assert("gz"@[0] == 'g');
    }
    law_decimal_round_trip(ts, u128::MAX as nat);
}

/// Only sealed chunks that are there can be deleted.
pub proof fn law_only_sealed_chunks_go(prefix: Seq<char>, names: Seq<Seq<char>>, x: Seq<char>)
    requires
        sealed_chunks(prefix, names).contains(x),
    ensures
        is_sealed(prefix, x),
        names.contains(x),
        x != prefix,
{
    broadcast use vstd::seq_lib::group_to_multiset_ensures;

    let keep = |n: Seq<char>| is_sealed(prefix, n);
    let kept = names.filter(keep);
    law_by_time(kept);
    assert(by_time(kept).to_multiset().count(x) > 0);
    assert(kept.contains(x));
    lemma_filter_members(names, keep);
}

/// The live file is never one of its own sealed chunks.
pub proof fn law_live_file_is_not_sealed(prefix: Seq<char>)
    ensures
        !is_sealed(prefix, prefix),
{
}

/// Deletes the oldest chunks until what is left fits the budget.
#[derive(Clone, Debug)]
pub struct Pruner {
    budget: u64,
    queue: Vec<String>,
}

/// What a [`Pruner`] holds: the budget, and the chunks that may go, oldest first.
#[verifier::ext_equal]
pub struct PrunerView {
    pub budget: u64,
    pub queue: Seq<Seq<char>>,
}

impl View for Pruner {
    type V = PrunerView;

    closed spec fn view(&self) -> PrunerView {
        PrunerView { budget: self.budget, queue: texts(self.queue@) }
    }
}

/// The next chunk to delete, given the bytes that there are, and the pruner after it: the
/// oldest chunk that has not been named yet, as long as there are more bytes than the budget.
pub open spec fn next_chunk(p: PrunerView, total: int) -> (Option<Seq<char>>, PrunerView) {
    if total <= p.budget || p.queue.len() == 0 {
        (None, p)
    } else {
        (Some(p.queue[0]), PrunerView { queue: p.queue.drop_first(), ..p })
    }
}

/// The chunks that go in a full run, one after the other, until no next one is named. Each
/// deletion takes the chunk's size off the bytes that there are; `sizes` holds the sizes of
/// the queue.
pub open spec fn full_run(p: PrunerView, total: int, sizes: Seq<nat>) -> Seq<Seq<char>>
    decreases sizes.len(),
{
    match next_chunk(p, total) {
        (Some(chunk), after) if sizes.len() > 0 => seq![chunk] + full_run(
            after,
            total - sizes[0],
            sizes.drop_first(),
        ),
        _ => Seq::empty(),
    }
}

impl Pruner {
    /// A pruner of the sealed chunks of the file `prefix` among the given names.
    pub fn new(prefix: &str, names: &[String], budget: u64) -> (r: Self)
        ensures
            r@ == (PrunerView { budget, queue: sealed_chunks(prefix@, texts(names@)) }),
    {
        Pruner { budget, queue: list_rotated(prefix, names) }
    }

    /// The next chunk to delete, given the bytes that there are now: the oldest that has not
    /// been named yet, as long as there are more bytes than the budget.
    pub fn next(&mut self, total: u64) -> (r: Option<String>)
        ensures
            (opt_text(r), final(self)@) == next_chunk(old(self)@, total as int),
    {
        if total <= self.budget || self.queue.len() == 0 {
            return None;
        }
        let ghost q = texts(self.queue@);
        let r = self.queue.remove(0);
        assert(texts(self.queue@) =~= q.drop_first());
        Some(r)
    }
}

/// The sum of a list of sizes.
pub open spec fn sum(sizes: Seq<nat>) -> nat
    decreases sizes.len(),
{
    if sizes.len() == 0 {
        0
    } else {
        sum(sizes.drop_last()) + sizes.last()
    }
}

/// How many chunks go, oldest first, if every deletion succeeds: as many as it takes for the
/// rest to fit.
pub open spec fn prune_count(total: int, sizes: Seq<nat>, budget: nat) -> nat
    decreases sizes.len(),
{
    if total <= budget || sizes.len() == 0 {
        0
    } else {
        1 + prune_count(total - sizes[0], sizes.drop_first(), budget)
    }
}

/// A full run deletes the oldest chunks, as many as [`prune_count`] says.
pub proof fn law_full_run_takes_the_oldest(p: PrunerView, total: int, sizes: Seq<nat>)
    requires
        sizes.len() == p.queue.len(),
    ensures
        prune_count(total, sizes, p.budget as nat) <= p.queue.len(),
        full_run(p, total, sizes) == p.queue.take(
            prune_count(total, sizes, p.budget as nat) as int,
        ),
    decreases sizes.len(),
{
    if total <= p.budget || sizes.len() == 0 {
        assert(p.queue.take(0) =~= Seq::<Seq<char>>::empty());
    } else {
        let after = next_chunk(p, total).1;
        let k = prune_count(total, sizes, p.budget as nat) as int;
        law_full_run_takes_the_oldest(after, total - sizes[0], sizes.drop_first());
        assert(seq![p.queue[0]] + after.queue.take(k - 1) =~= p.queue.take(k));
    }
}

/// No more chunks go than it takes: what is left fits or no chunk is left, and before the
/// last deletion it did not fit.
pub proof fn law_prune_is_minimal(total: int, sizes: Seq<nat>, budget: nat)
    ensures
        ({
            let k = prune_count(total, sizes, budget) as int;
            &&& 0 <= k <= sizes.len()
            &&& total - sum(sizes.take(k)) <= budget || k == sizes.len()
            &&& k > 0 ==> total - sum(sizes.take(k - 1)) > budget
        }),
    decreases sizes.len(),
{
    if total <= budget || sizes.len() == 0 {
        assert(sizes.take(0) =~= Seq::<nat>::empty());
    } else {
        let rest = sizes.drop_first();
        law_prune_is_minimal(total - sizes[0], rest, budget);
        let j = prune_count(total - sizes[0], rest, budget) as int;
        lemma_sum_first(sizes, j + 1);
        if j > 0 {
            lemma_sum_first(sizes, j);
            assert(sizes.take(j).drop_first() =~= rest.take(j - 1));
        } else {
            assert(sizes.take(0) =~= Seq::<nat>::empty());
        }
        assert(sizes.take(j + 1).drop_first() =~= rest.take(j));
    }
}

/// A sum, with the first size taken apart.
proof fn lemma_sum_first(sizes: Seq<nat>, n: int)
    requires
        0 < n <= sizes.len(),
    ensures
        sum(sizes.take(n)) == sizes[0] + sum(sizes.take(n).drop_first()),
    decreases n,
{
    let s = sizes.take(n);
    if n == 1 {
        assert(s.drop_last() =~= Seq::<nat>::empty());
        assert(s.drop_first() =~= Seq::<nat>::empty());
        assert(sum(s.drop_last()) == 0);
    } else {
        lemma_sum_first(sizes, n - 1);
        assert(s.drop_last() =~= sizes.take(n - 1));
        assert(s.drop_first().drop_last() =~= sizes.take(n - 1).drop_first());
        assert(s.drop_first().last() == s.last());
    }
}

/// The sizes of a list as numbers.
pub open spec fn sizes_of(v: Seq<u64>) -> Seq<nat> {
    Seq::new(v.len(), |i: int| v[i] as nat)
}

/// The sum of file sizes, or `u64::MAX` where it is more.
pub fn total_size(sizes: &[u64]) -> (r: u64)
    ensures
        r as nat == (if sum(sizes_of(sizes@)) > u64::MAX {
            u64::MAX as nat
        } else {
            sum(sizes_of(sizes@))
        }),
{
    let ghost all = sizes_of(sizes@);
    let mut total: u64 = 0;
    assert(all.take(0) =~= Seq::<nat>::empty());
    for i in 0..sizes.len()
        invariant
            all == sizes_of(sizes@),
            total as nat == (if sum(all.take(i as int)) > u64::MAX {
                u64::MAX as nat
            } else {
                sum(all.take(i as int))
            }),
    {
        assert(all.take(i + 1).drop_last() =~= all.take(i as int));
        total = total.saturating_add(sizes[i]);
    }
    assert(all.take(all.len() as int) =~= all);
    total
}

/// A sealed chunk is the name of its file, a dot and digits, and `.gz` where it is compressed;
/// its time is the number that the digits are.
pub proof fn law_sealed_names(prefix: Seq<char>, d: Seq<char>)
    requires
        d.len() > 0,
        forall|i: int| 0 <= i < d.len() ==> is_digit(#[trigger] d[i]),
    ensures
        is_sealed(prefix, prefix + seq!['.'] + d),
        is_sealed(prefix, prefix + seq!['.'] + d + seq!['.', 'g', 'z']),
        ({
            let time = match number_in(d, u128::MAX as nat) {
                Ok(n) => n,
                Err(_) => 0,
            };
            &&& seal_time(prefix + seq!['.'] + d) == time
            &&& seal_time(prefix + seq!['.'] + d + seq!['.', 'g', 'z']) == time
        }),
{
    let plain = prefix + seq!['.'] + d;
    let gz = seq!['.', 'g', 'z'];
    let packed = plain + gz;
    reveal_strlit(".gz");
    reveal_strlit("gz");
    assert(".gz"@ =~= gz);
    assert("gz"@ =~= seq!['g', 'z']);
    let n = prefix.len() as int;
    assert(plain.take(n) =~= prefix && packed.take(n) =~= prefix);
    assert(plain[n] == '.' && packed[n] == '.');
    assert(plain.skip(n + 1) =~= d);
    assert(packed.skip(n + 1) =~= d + gz);
    assert(!finishes_with(d, gz)) by {
        if finishes_with(d, gz) {
            assert(d.skip(d.len() - 3)[0] == gz[0]);
            assert(is_digit(d[d.len() - 3]));
        }
    }
    assert((d + gz).skip(d.len() as int) =~= gz);
    assert((d + gz).take(d.len() as int) =~= d);
    assert forall|k: int| n + 1 <= k < plain.len() implies #[trigger] plain[k] != '.' by {
        assert(plain[k] == d[k - (n + 1)]);
        assert(is_digit(d[k - (n + 1)]));
    }
    lemma_after_last_dot(plain, n + 1);
    assert(d != "gz"@) by {
        assert(is_digit(d[0]));
    }
    lemma_after_last_dot(packed, plain.len() as int + 1);
    assert(packed.skip(plain.len() as int + 1) =~= "gz"@);
    assert(packed.skip(packed.len() - 3) =~= gz);
    assert(packed.take(packed.len() - 3) =~= plain);
    assert(!finishes_with(plain, gz)) by {
        if finishes_with(plain, gz) {
            let tail = plain.skip(plain.len() - 3);
            assert(tail[2] == 'z');
            assert(plain[plain.len() - 1] == 'z');
            assert(is_digit(d[d.len() - 1]));
        }
    }
    assert(without_all_gz(plain) == plain);
    assert(without_all_gz(packed) == plain);
}

/// No other name is a sealed chunk.
pub proof fn law_no_other_name_is_sealed(prefix: Seq<char>, name: Seq<char>)
    requires
        is_sealed(prefix, name),
    ensures
        exists|d: Seq<char>|
            d.len() > 0 && (forall|i: int| 0 <= i < d.len() ==> is_digit(#[trigger] d[i])) && (
            name == #[trigger] (prefix + seq!['.'] + d) || name == prefix + seq!['.'] + d + seq![
                '.',
                'g',
                'z',
            ]),
{
    reveal_strlit(".gz");
    let gz = seq!['.', 'g', 'z'];
    assert(".gz"@ =~= gz);
    let n = prefix.len() as int;
    let rest = name.skip(n + 1);
    let d = without_gz(rest);
    assert(name =~= name.take(n) + seq!['.'] + rest);
    if finishes_with(rest, gz) {
        assert(rest =~= d + gz);
        assert(name =~= prefix + seq!['.'] + d + gz);
    } else {
        assert(name == prefix + seq!['.'] + d);
    }
}

/// Every sealed chunk that is there waits to be deleted, as often as it is there, and the
/// older before the younger.
pub proof fn law_every_sealed_chunk_waits(prefix: Seq<char>, names: Seq<Seq<char>>, x: Seq<char>)
    ensures
        sealed_chunks(prefix, names).contains(x) <==> names.contains(x) && is_sealed(prefix, x),
        forall|i: int, j: int|
            0 <= i < j < sealed_chunks(prefix, names).len() ==> seal_time(
                #[trigger] sealed_chunks(prefix, names)[i],
            ) <= seal_time(#[trigger] sealed_chunks(prefix, names)[j]),
{
    broadcast use vstd::seq_lib::group_to_multiset_ensures;

    let keep = |n: Seq<char>| is_sealed(prefix, n);
    let kept = names.filter(keep);
    law_by_time(kept);
    lemma_filter_members(names, keep);
    assert(by_time(kept).to_multiset().count(x) > 0 <==> by_time(kept).contains(x));
    assert(kept.to_multiset().count(x) > 0 <==> kept.contains(x));
}

/// The next chunk goes exactly where there are more bytes than the budget and a chunk is left;
/// it is the first that waits, and the others wait on.
pub proof fn law_next_chunk(p: PrunerView, total: int)
    ensures
        ({
            let (chunk, after) = next_chunk(p, total);
            &&& chunk is Some <==> total > p.budget && p.queue.len() > 0
            &&& chunk is Some ==> p.queue == seq![chunk->0] + after.queue
            &&& chunk is None ==> after.queue == p.queue
            &&& after.budget == p.budget
        }),
{
    if total > p.budget && p.queue.len() > 0 {
        assert(p.queue =~= seq![p.queue[0]] + p.queue.drop_first());
    }
}

/// The sum of sizes is the sum of its parts.
pub proof fn law_sum(sizes: Seq<nat>, n: nat)
    ensures
        sum(Seq::empty()) == 0,
        sum(sizes.push(n)) == sum(sizes) + n,
{
    assert(sizes.push(n).drop_last() =~= sizes);
}

/// One more chunk goes behind all that are not younger than it and before all that are, so
/// that chunks of one time stay in the order in which they are listed.
pub proof fn law_chunk_goes_to_its_time(list: Seq<Seq<char>>, x: Seq<char>) -> (k: int)
    ensures
        ({
            let q = by_time(list);
            &&& 0 <= k <= q.len()
            &&& by_time(list.push(x)) == q.take(k) + seq![x] + q.skip(k)
            &&& forall|i: int| 0 <= i < k ==> seal_time(#[trigger] q[i]) <= seal_time(x)
            &&& forall|i: int| k <= i < q.len() ==> seal_time(#[trigger] q[i]) > seal_time(x)
        }),
{
    assert(list.push(x).drop_last() =~= list);
    law_by_time(list);
    lemma_place_of(by_time(list), x)
}

proof fn lemma_place_of(q: Seq<Seq<char>>, x: Seq<char>) -> (k: int)
    requires
        is_by_time(q),
    ensures
        0 <= k <= q.len(),
        inserted(q, x) == q.take(k) + seq![x] + q.skip(k),
        forall|i: int| 0 <= i < k ==> seal_time(#[trigger] q[i]) <= seal_time(x),
        forall|i: int| k <= i < q.len() ==> seal_time(#[trigger] q[i]) > seal_time(x),
    decreases q.len(),
{
    if q.len() == 0 || seal_time(q.last()) <= seal_time(x) {
        let k = q.len() as int;
        assert(inserted(q, x) =~= q.take(k) + seq![x] + q.skip(k));
        assert forall|i: int| 0 <= i < k implies seal_time(#[trigger] q[i]) <= seal_time(x) by {
            if i < k - 1 {
                assert(seal_time(q[i]) <= seal_time(q[k - 1]));
            }
        }
        k
    } else {
        let r = q.drop_last();
        let k = lemma_place_of(r, x);
        assert(inserted(q, x) =~= q.take(k) + seq![x] + q.skip(k));
        assert forall|i: int| k <= i < q.len() implies seal_time(#[trigger] q[i]) > seal_time(
            x,
        ) by {
            if i < q.len() - 1 {
                assert(r[i] == q[i]);
            }
        }
        assert forall|i: int| 0 <= i < k implies seal_time(#[trigger] q[i]) <= seal_time(x) by {
            assert(r[i] == q[i]);
        }
        k
    }
}

} // verus!

//! The work of one scan: the list of pending probes, its partition among
//! workers, and the aggregation of what the workers return.

use vstd::prelude::*;
use vstd::arithmetic::div_mod::{lemma_fundamental_div_mod, lemma_fundamental_div_mod_converse, lemma_mod_pos_bound};
use crate::result::{ScanResult, is_pending, same_target};

verus! {

/// How many ports the inclusive range `start..=end` holds.
pub open spec fn port_count(start: u16, end: u16) -> nat {
    if start <= end {
        (end - start + 1) as nat
    } else {
        0
    }
}

/// The work list of `addresses` over the ports `start..=end`: the pending
/// record of every pair, by address first and port second.
pub open spec fn is_work_list(r: Seq<ScanResult>, addresses: Seq<String>, start: u16, end: u16) -> bool {
    let c = port_count(start, end);
    &&& r.len() == addresses.len() * c
    &&& forall|k: int|
        0 <= k < r.len() ==> is_pending(#[trigger] r[k], addresses[k / c as int]@, (start + k % c as int) as u16)
}

/// Builds the pending record of every address and every port of
/// `start_port..=end_port`, by address first and port second.
pub fn build_work_list(addresses: &Vec<String>, start_port: u16, end_port: u16) -> (r: Vec<ScanResult>)
    ensures
        is_work_list(r@, addresses@, start_port, end_port),
        r@.len() == addresses@.len() * port_count(start_port, end_port),
        start_port == end_port ==> r@.len() == addresses@.len() && forall|k: int|
            0 <= k < r@.len() ==> (#[trigger] r@[k]).port == start_port && r@[k].address@ == addresses@[k]@,
{
    let ghost c = port_count(start_port, end_port) as int;
    let mut r: Vec<ScanResult> = Vec::new();
    let mut i: usize = 0;
    while i < addresses.len()
        invariant
            i <= addresses@.len(),
            c == port_count(start_port, end_port),
            r@.len() == i * c,
            forall|k: int|
                0 <= k < r@.len() ==> is_pending(#[trigger] r@[k], addresses@[k / c]@, (start_port + k % c) as u16),
        decreases addresses@.len() - i,
    {
        if start_port <= end_port {
            let mut p: u32 = start_port as u32;
            while p <= end_port as u32
                invariant
                    i < addresses@.len(),
                    start_port <= end_port,
                    c == port_count(start_port, end_port),
                    c > 0,
                    start_port <= p <= end_port as u32 + 1,
                    r@.len() == i * c + (p - start_port),
                    forall|k: int|
                        0 <= k < r@.len() ==> is_pending(#[trigger] r@[k], addresses@[k / c]@, (start_port + k % c) as u16),
                decreases end_port as u32 + 1 - p,
            {
                let ghost k = r@.len() as int;
                let item = ScanResult::initialize(addresses[i].as_str(), p as u16);
                r.push(item);
                proof {
                    lemma_fundamental_div_mod_converse(k, c, i as int, p - start_port);
                }
                p = p + 1;
            }
        }
        proof {
            assert(r@.len() == (i + 1) * c) by (nonlinear_arith)
                requires r@.len() == i * c + c;
        }
        i = i + 1;
    }
    proof {
        if start_port == end_port {
            assert forall|k: int| 0 <= k < r@.len() implies (#[trigger] r@[k]).port == start_port && r@[k].address@ == addresses@[k]@ by {
                assert(k / 1 == k);
                assert(k % 1 == 0);
            }
        }
    }
    r
}

/// How many workers share a work list of `len` items when `threads` are
/// asked for: at least one, at most one per item.
pub open spec fn worker_count(threads: nat, len: nat) -> nat {
    if threads <= 1 || len <= 1 {
        1
    } else if threads > len {
        len
    } else {
        threads
    }
}

/// The number of workers for `len` items when `threads` are asked for:
/// 0 counts as 1, and more than `len` is cut down to `len`.
pub fn effective_threads(threads: usize, len: usize) -> (r: usize)
    ensures
        r == worker_count(threads as nat, len as nat),
        1 <= r,
        len >= 1 ==> r <= len,
        threads == 0 ==> r == 1,
{
    if threads <= 1 || len <= 1 {
        1
    } else if threads > len {
        len
    } else {
        threads
    }
}

/// The first index of chunk `t` when `len` items are cut into `threads`
/// contiguous chunks.
pub open spec fn chunk_start(len: nat, threads: nat, t: nat) -> nat {
    t * (len / threads)
}

/// One past the last index of chunk `t`: every chunk holds `len / threads`
/// items, but the last, which also takes the remainder.
pub open spec fn chunk_end(len: nat, threads: nat, t: nat) -> nat {
    if t + 1 == threads {
        len
    } else {
        (t + 1) * (len / threads)
    }
}

/// Cuts `len` items into `threads` contiguous chunks, each given by its
/// first index and one past its last: `len / threads` items each, the
/// remainder going to the last chunk.
pub fn partition(len: usize, threads: usize) -> (r: Vec<(usize, usize)>)
    requires
        1 <= threads,
        threads <= len || threads == 1,
    ensures
        r@.len() == threads,
        forall|t: int|
            0 <= t < threads ==> (#[trigger] r@[t]).0 == chunk_start(len as nat, threads as nat, t as nat)
                && r@[t].1 == chunk_end(len as nat, threads as nat, t as nat),
{
    let range = len / threads;
    proof {
        lemma_fundamental_div_mod(len as int, threads as int);
        assert(threads * range <= len) by (nonlinear_arith)
            requires len == threads * range + len % threads, len % threads >= 0;
    }
    let mut r: Vec<(usize, usize)> = Vec::new();
    let mut t: usize = 0;
    let mut current: usize = 0;
    while t < threads
        invariant
            t <= threads,
            range == len / threads,
            threads * range <= len,
            current == t * range,
            r@.len() == t,
            forall|u: int|
                0 <= u < t ==> (#[trigger] r@[u]).0 == chunk_start(len as nat, threads as nat, u as nat)
                    && r@[u].1 == chunk_end(len as nat, threads as nat, u as nat),
        decreases threads - t,
    {
        proof {
            assert((t + 1) * range <= threads * range) by (nonlinear_arith)
                requires t + 1 <= threads, range >= 0;
            assert((t + 1) * range == t * range + range) by (nonlinear_arith);
        }
        let end = if t + 1 == threads {
            len
        } else {
            current + range
        };
        r.push((current, end));
        current = current + range;
        t = t + 1;
    }
    r
}

/// Item `i` lies in chunk `t`.
pub open spec fn in_chunk(len: nat, threads: nat, t: nat, i: nat) -> bool {
    t < threads && chunk_start(len, threads, t) <= i < chunk_end(len, threads, t)
}

/// The chunks of [`partition`] tile the items: each index below `len` lies
/// in exactly one chunk, so every item is probed by exactly one worker and
/// the workers together probe what a single one would.
pub proof fn lemma_partition_covers(len: nat, threads: nat, i: nat)
    requires
        1 <= threads,
        threads <= len || threads == 1,
        i < len,
    ensures
        exists|t: nat| #[trigger] in_chunk(len, threads, t, i),
        forall|t1: nat, t2: nat|
            #[trigger] in_chunk(len, threads, t1, i) && #[trigger] in_chunk(len, threads, t2, i) ==> t1 == t2,
{
    let range = len / threads;
    lemma_fundamental_div_mod(len as int, threads as int);
    assert(range >= 1 || threads == 1) by (nonlinear_arith)
        requires threads <= len || threads == 1, range == len / threads, threads >= 1;
    let t: nat = if threads == 1 || i / range >= threads - 1 {
        (threads - 1) as nat
    } else {
        i / range
    };
    assert(in_chunk(len, threads, t, i)) by {
        if threads == 1 {
        } else if i / range >= threads - 1 {
            assert((threads - 1) * range <= (i / range) * range) by (nonlinear_arith)
                requires threads - 1 <= i / range, range >= 1;
            lemma_fundamental_div_mod(i as int, range as int);
        } else {
            lemma_fundamental_div_mod(i as int, range as int);
            assert((i / range) * range <= i);
            lemma_mod_pos_bound(i as int, range as int);
            let q = i / range;
            let m = i % range;
            assert(i < (q + 1) * range) by (nonlinear_arith)
                requires i == range * q + m, m < range;
        }
    }
    assert forall|t1: nat, t2: nat|
        #[trigger] in_chunk(len, threads, t1, i) && #[trigger] in_chunk(len, threads, t2, i) implies t1 == t2 by {
        if t1 < t2 {
            assert((t1 + 1) * range <= t2 * range) by (nonlinear_arith)
                requires t1 + 1 <= t2;
        } else if t2 < t1 {
            assert((t2 + 1) * range <= t1 * range) by (nonlinear_arith)
                requires t2 + 1 <= t1;
        }
    }
}

/// Whether a record is on port `p`.
pub open spec fn port_is(p: u16) -> spec_fn(ScanResult) -> bool {
    |r: ScanResult| r.port == p
}

/// The records of `s` on port `p`, in their order in `s`.
pub open spec fn on_port(s: Seq<ScanResult>, p: u16) -> Seq<ScanResult> {
    s.filter(port_is(p))
}

/// The ports of `s` never decrease.
pub open spec fn sorted_by_port(s: Seq<ScanResult>) -> bool {
    forall|i: int, j: int| 0 <= i < j < s.len() ==> s[i].port <= s[j].port
}

/// `r` is `s` sorted stably by port: ordered by port, and on each port the
/// records of `s` in their order in `s`.
pub open spec fn is_stable_port_sort(r: Seq<ScanResult>, s: Seq<ScanResult>) -> bool {
    &&& sorted_by_port(r)
    &&& r.len() == s.len()
    &&& forall|p: u16| #[trigger] on_port(r, p) == on_port(s, p)
}

proof fn lemma_on_port_none(s: Seq<ScanResult>, p: u16)
    requires
        forall|i: int| 0 <= i < s.len() ==> s[i].port != p,
    ensures
        on_port(s, p) == Seq::<ScanResult>::empty(),
    decreases s.len(),
{
    reveal(Seq::filter);
    if s.len() > 0 {
        lemma_on_port_none(s.drop_last(), p);
    }
}

/// Sorts records by port, keeping records of one port in their order.
pub fn sort_by_port(v: Vec<ScanResult>) -> (r: Vec<ScanResult>)
    ensures
        is_stable_port_sort(r@, v@),
{
    let ghost orig = v@;
    let mut v = v;
    let mut out: Vec<ScanResult> = Vec::new();
    proof {
        assert(orig.skip(orig.len() as int) =~= Seq::<ScanResult>::empty());
        assert(v@ =~= orig.take(v@.len() as int));
    }
    while v.len() > 0
        invariant
            v@ == orig.take(v@.len() as int),
            v@.len() <= orig.len(),
            sorted_by_port(out@),
            out@.len() + v@.len() == orig.len(),
            forall|p: u16| #[trigger] on_port(out@, p) == on_port(orig.skip(v@.len() as int), p),
        decreases v@.len(),
    {
        let ghost n = v@.len() as int;
        let x = v.pop().unwrap();
        let mut k: usize = 0;
        while k < out.len() && out[k].port < x.port
            invariant
                k <= out@.len(),
                forall|j: int| 0 <= j < k ==> out@[j].port < x.port,
            decreases out@.len() - k,
        {
            k = k + 1;
        }
        let ghost before = out@;
        out.insert(k, x);
        proof {
            assert(x == orig[n - 1]);
            assert(v@ =~= orig.take(n - 1));
            assert(orig.skip(n - 1) =~= seq![x] + orig.skip(n));
            let a = before.take(k as int);
            let b = before.skip(k as int);
            assert(before =~= a + b);
            assert(out@ =~= a + (seq![x] + b));
            assert forall|j: int| 0 <= j < b.len() implies b[j].port >= x.port by {
                assert(before[k as int].port >= x.port);
                if j > 0 {
                    assert(before[k as int].port <= before[k + j].port);
                }
            }
            assert forall|p: u16| #[trigger] on_port(out@, p) == on_port(orig.skip(n - 1), p) by {
                Seq::filter_distributes_over_add(a, seq![x] + b, port_is(p));
                Seq::filter_distributes_over_add(a, b, port_is(p));
                b.lemma_filter_prepend(x, port_is(p));
                orig.skip(n).lemma_filter_prepend(x, port_is(p));
                if x.port == p {
                    lemma_on_port_none(a, p);
                    assert(on_port(out@, p) =~= seq![x] + on_port(before, p));
                } else {
                    assert(on_port(out@, p) =~= on_port(before, p));
                }
            }
            assert forall|i: int, j: int| 0 <= i < j < out@.len() implies out@[i].port <= out@[j].port by {
                if j < k {
                } else if j == k {
                } else if i < k {
                    assert(out@[j] == b[j - k - 1]);
                } else if i == k {
                    assert(out@[j] == b[j - k - 1]);
                } else {
                    assert(out@[i] == before[i - 1]);
                    assert(out@[j] == before[j - 1]);
                }
            }
        }
    }
    proof {
        assert(orig.skip(0) =~= orig);
    }
    out
}

/// The contents of each batch.
pub open spec fn batch_views(batches: Seq<Vec<ScanResult>>) -> Seq<Seq<ScanResult>> {
    batches.map_values(|b: Vec<ScanResult>| b@)
}

/// The records of `batches`, batch after batch.
pub open spec fn batches_flat(batches: Seq<Vec<ScanResult>>) -> Seq<ScanResult> {
    batch_views(batches).flatten()
}

/// Joins the workers' batches in the order given and, if `sort` is set,
/// sorts the whole stably by port.
pub fn merge_batches(batches: Vec<Vec<ScanResult>>, sort: bool) -> (r: Vec<ScanResult>)
    ensures
        !sort ==> r@ == batches_flat(batches@),
        sort ==> is_stable_port_sort(r@, batches_flat(batches@)),
        r@.len() == batches_flat(batches@).len(),
{
    let ghost orig = batches@;
    let mut batches = batches;
    let mut all: Vec<ScanResult> = Vec::new();
    proof {
        assert(all@ + batches_flat(batches@) =~= batches_flat(orig));
    }
    while batches.len() > 0
        invariant
            all@ + batches_flat(batches@) == batches_flat(orig),
        decreases batches@.len(),
    {
        let ghost rest = batches@;
        let mut b = batches.remove(0);
        proof {
            assert(batch_views(rest).drop_first() =~= batch_views(batches@));
            assert(batches_flat(rest) == b@ + batches_flat(batches@));
        }
        all.append(&mut b);
        proof {
            assert(all@ + batches_flat(batches@) =~= batches_flat(orig));
        }
    }
    proof {
        assert(all@ =~= batches_flat(orig));
    }
    if sort {
        sort_by_port(all)
    } else {
        all
    }
}

/// `b` holds one record for each item of chunk `u` of `work`, for the same
/// address and port, in order.
pub open spec fn chunk_done(work: Seq<ScanResult>, threads: nat, u: nat, b: Seq<ScanResult>) -> bool {
    let s = chunk_start(work.len(), threads, u);
    &&& b.len() == chunk_end(work.len(), threads, u) - s
    &&& forall|i: int| 0 <= i < b.len() ==> same_target(#[trigger] b[i], work[s + i])
}

proof fn lemma_flat_suffix_targets(work: Seq<ScanResult>, threads: nat, batches: Seq<Vec<ScanResult>>, t: nat)
    requires
        1 <= threads,
        threads <= work.len() || threads == 1,
        batches.len() == threads,
        t < threads,
        forall|u: int| 0 <= u < threads ==> chunk_done(work, threads, u as nat, (#[trigger] batches[u])@),
    ensures
        chunk_start(work.len(), threads, t) <= work.len(),
        batches_flat(batches.skip(t as int)).len() == work.len() - chunk_start(work.len(), threads, t),
        forall|k: int|
            0 <= k < batches_flat(batches.skip(t as int)).len() ==> same_target(
                #[trigger] batches_flat(batches.skip(t as int))[k],
                work[chunk_start(work.len(), threads, t) + k],
            ),
    decreases threads - t,
{
    let len = work.len();
    let range = len / threads;
    lemma_fundamental_div_mod(len as int, threads as int);
    assert(threads * range <= len) by (nonlinear_arith)
        requires len == threads * range + len % threads, len % threads >= 0;
    assert(t * range <= threads * range) by (nonlinear_arith)
        requires t < threads;
    assert((t + 1) * range == t * range + range) by (nonlinear_arith);
    assert((t + 1) * range <= threads * range) by (nonlinear_arith)
        requires t + 1 <= threads;
    let rest = batches.skip(t as int);
    let next = batches.skip((t + 1) as int);
    assert(batch_views(rest).drop_first() =~= batch_views(next));
    assert(batch_views(rest).first() == batches[t as int]@);
    let b = batches[t as int]@;
    assert(batches_flat(rest) == b + batches_flat(next));
    assert(chunk_done(work, threads, t, b));
    let s = chunk_start(len, threads, t) as int;
    if t + 1 == threads {
        assert(batch_views(next) =~= Seq::<Seq<ScanResult>>::empty());
        assert(batches_flat(rest) =~= b);
    } else {
        lemma_flat_suffix_targets(work, threads, batches, t + 1);
        assert(chunk_start(len, threads, (t + 1) as nat) == s + b.len());
        assert forall|k: int| 0 <= k < batches_flat(rest).len() implies same_target(
            #[trigger] batches_flat(rest)[k],
            work[s + k],
        ) by {
            if k < b.len() {
                assert(batches_flat(rest)[k] == b[k]);
            } else {
                assert(batches_flat(rest)[k] == batches_flat(next)[k - b.len()]);
            }
        }
    }
}

/// When every worker finalizes its whole chunk of a work list, the joined
/// batches hold one record per item, for that item's address and port, in
/// work-list order, whatever the number of workers: as many records as
/// addresses times ports.
pub proof fn lemma_complete_scan(
    work: Seq<ScanResult>,
    addresses: Seq<String>,
    start: u16,
    end: u16,
    threads: nat,
    batches: Seq<Vec<ScanResult>>,
)
    requires
        is_work_list(work, addresses, start, end),
        1 <= threads,
        threads <= work.len() || threads == 1,
        batches.len() == threads,
        forall|u: int| 0 <= u < threads ==> chunk_done(work, threads, u as nat, (#[trigger] batches[u])@),
    ensures
        batches_flat(batches).len() == work.len(),
        batches_flat(batches).len() == addresses.len() * port_count(start, end),
        forall|k: int|
            0 <= k < work.len() ==> same_target(#[trigger] batches_flat(batches)[k], work[k]),
{
    lemma_flat_suffix_targets(work, threads, batches, 0);
    assert(batches.skip(0) =~= batches);
}

proof fn lemma_flat_suffix(done: Seq<ScanResult>, threads: nat, batches: Seq<Vec<ScanResult>>, t: nat)
    requires
        1 <= threads,
        threads <= done.len() || threads == 1,
        batches.len() == threads,
        t < threads,
        forall|u: int|
            0 <= u < threads ==> (#[trigger] batches[u])@ == done.subrange(
                chunk_start(done.len(), threads, u as nat) as int,
                chunk_end(done.len(), threads, u as nat) as int,
            ),
    ensures
        chunk_start(done.len(), threads, t) <= done.len(),
        batches_flat(batches.skip(t as int)) == done.skip(chunk_start(done.len(), threads, t) as int),
    decreases threads - t,
{
    let len = done.len();
    let range = len / threads;
    lemma_fundamental_div_mod(len as int, threads as int);
    assert(threads * range <= len) by (nonlinear_arith)
        requires len == threads * range + len % threads, len % threads >= 0;
    assert(t * range <= threads * range) by (nonlinear_arith)
        requires t < threads;
    assert((t + 1) * range == t * range + range) by (nonlinear_arith);
    assert((t + 1) * range <= threads * range) by (nonlinear_arith)
        requires t + 1 <= threads;
    let rest = batches.skip(t as int);
    assert(batch_views(rest).drop_first() =~= batch_views(batches.skip((t + 1) as int)));
    assert(batch_views(rest).first() == batches[t as int]@);
    assert(batches_flat(rest) == batches[t as int]@ + batches_flat(batches.skip((t + 1) as int)));
    let s = chunk_start(len, threads, t) as int;
    let e = chunk_end(len, threads, t) as int;
    if t + 1 == threads {
        assert(batch_views(batches.skip((t + 1) as int)) =~= Seq::<Seq<ScanResult>>::empty());
        assert(batches_flat(rest) =~= done.skip(s));
    } else {
        lemma_flat_suffix(done, threads, batches, t + 1);
        assert(chunk_start(len, threads, (t + 1) as nat) == e);
        assert(batches_flat(rest) =~= done.skip(s));
    }
}

/// Workers change nothing but the order of the work: when each worker
/// returns the results of its own chunk, the batches joined in chunk order
/// are exactly the results of one worker over the whole list.
pub proof fn lemma_workers_rejoin(done: Seq<ScanResult>, threads: nat, batches: Seq<Vec<ScanResult>>)
    requires
        1 <= threads,
        threads <= done.len() || threads == 1,
        batches.len() == threads,
        forall|t: int|
            0 <= t < threads ==> (#[trigger] batches[t])@ == done.subrange(
                chunk_start(done.len(), threads, t as nat) as int,
                chunk_end(done.len(), threads, t as nat) as int,
            ),
    ensures
        batches_flat(batches) == done,
{
    lemma_flat_suffix(done, threads, batches, 0);
    assert(batches.skip(0) =~= batches);
    assert(done.skip(0) =~= done);
}

} // verus!

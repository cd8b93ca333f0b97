//! A model of the concurrent decompression pipeline: producers enqueue the
//! decoded lines of their files onto one fixed-capacity FIFO queue, and a
//! single consumer drains it in arrival order. Each queued line carries the
//! index of the file it came from, so the model states per-file order
//! preservation and completeness however the producers interleave.
use crate::format::views_of;
use vstd::multiset::Multiset;
use vstd::prelude::*;

verus! {

/// The lines a trace (a queue or the emitted output) carries for one file,
/// in trace order.
pub open spec fn proj(s: Seq<(usize, String)>, i: int) -> Seq<Seq<char>>
    decreases s.len(),
{
    if s.len() == 0 {
        Seq::empty()
    } else {
        let rest = proj(s.drop_last(), i);
        if s.last().0 == i {
            rest.push(s.last().1@)
        } else {
            rest
        }
    }
}

/// The sum of a sequence of counters.
pub open spec fn sum_taken(taken: Seq<usize>) -> int
    decreases taken.len(),
{
    if taken.len() == 0 {
        0
    } else {
        sum_taken(taken.drop_last()) + taken.last()
    }
}

/// The total number of lines over all files.
pub open spec fn total_lines(files: Seq<Vec<String>>) -> int
    decreases files.len(),
{
    if files.len() == 0 {
        0
    } else {
        total_lines(files.drop_last()) + files.last()@.len()
    }
}

proof fn lemma_proj_push(s: Seq<(usize, String)>, p: (usize, String), i: int)
    ensures
        proj(s.push(p), i) == if p.0 == i {
            proj(s, i).push(p.1@)
        } else {
            proj(s, i)
        },
{
    assert(s.push(p).drop_last() =~= s);
    assert(s.push(p).last() == p);
}

proof fn lemma_sum_update(taken: Seq<usize>, i: int, v: usize)
    requires
        0 <= i < taken.len(),
    ensures
        sum_taken(taken.update(i, v)) == sum_taken(taken) - taken[i] + v,
    decreases taken.len(),
{
    if i == taken.len() - 1 {
        assert(taken.update(i, v).drop_last() =~= taken.drop_last());
        assert(taken.update(i, v).last() == v);
    } else {
        lemma_sum_update(taken.drop_last(), i, v);
        assert(taken.update(i, v).drop_last() =~= taken.drop_last().update(i, v));
        assert(taken.update(i, v).last() == taken.last());
    }
}

proof fn lemma_sum_full(taken: Seq<usize>, files: Seq<Vec<String>>)
    requires
        taken.len() == files.len(),
        forall|i: int| 0 <= i < files.len() ==> #[trigger] taken[i] == files[i]@.len(),
    ensures
        sum_taken(taken) == total_lines(files),
    decreases files.len(),
{
    if files.len() > 0 {
        lemma_sum_full(taken.drop_last(), files.drop_last());
        assert(taken.last() == taken[taken.len() - 1]);
    }
}

/// The lines a trace carries, without their file tags.
pub open spec fn trace_lines(s: Seq<(usize, String)>) -> Seq<Seq<char>> {
    s.map_values(|p: (usize, String)| p.1@)
}

/// The union, with multiplicity, of a trace's per-file projections over the
/// first `n` files.
pub open spec fn proj_union(s: Seq<(usize, String)>, n: int) -> Multiset<Seq<char>>
    decreases n,
{
    if n <= 0 {
        Multiset::empty()
    } else {
        proj_union(s, n - 1).add(proj(s, n - 1).to_multiset())
    }
}

/// The union, with multiplicity, of the first `n` files' lines.
pub open spec fn files_union(files: Seq<Vec<String>>, n: int) -> Multiset<Seq<char>>
    decreases n,
{
    if n <= 0 {
        Multiset::empty()
    } else {
        files_union(files, n - 1).add(views_of(files[n - 1]@).to_multiset())
    }
}

proof fn lemma_proj_union_push(s: Seq<(usize, String)>, p: (usize, String), n: int)
    ensures
        proj_union(s.push(p), n) == if (p.0 as int) < n {
            proj_union(s, n).insert(p.1@)
        } else {
            proj_union(s, n)
        },
    decreases n,
{
    broadcast use vstd::seq_lib::to_multiset_build;
    broadcast use vstd::multiset::group_multiset_axioms;

    if n > 0 {
        lemma_proj_union_push(s, p, n - 1);
        lemma_proj_push(s, p, n - 1);
        if (p.0 as int) < n {
            assert(proj_union(s.push(p), n) =~= proj_union(s, n).insert(p.1@));
        } else {
            assert(proj_union(s.push(p), n) =~= proj_union(s, n));
        }
    }
}

proof fn lemma_proj_union_nil(s: Seq<(usize, String)>, n: int)
    requires
        s.len() == 0,
    ensures
        proj_union(s, n) == Multiset::<Seq<char>>::empty(),
    decreases n,
{
    broadcast use vstd::multiset::group_multiset_axioms;

    if n > 0 {
        lemma_proj_union_nil(s, n - 1);
        proj(s, n - 1).to_multiset_ensures();
        assert(proj(s, n - 1).to_multiset().len() == 0);
        assert(proj_union(s, n) =~= Multiset::<Seq<char>>::empty());
    }
}

proof fn lemma_trace_multiset(s: Seq<(usize, String)>, n: int)
    requires
        forall|k: int| 0 <= k < s.len() ==> (#[trigger] s[k]).0 < n,
    ensures
        trace_lines(s).to_multiset() == proj_union(s, n),
    decreases s.len(),
{
    broadcast use vstd::seq_lib::to_multiset_build;

    if s.len() == 0 {
        assert(trace_lines(s) =~= Seq::<Seq<char>>::empty());
        lemma_proj_union_nil(s, n);
        Seq::<Seq<char>>::empty().to_multiset_ensures();
        assert(trace_lines(s).to_multiset() =~= Multiset::<Seq<char>>::empty()) by {
            broadcast use vstd::multiset::group_multiset_axioms;

            assert(trace_lines(s).to_multiset().len() == 0);
        }
    } else {
        let s0 = s.drop_last();
        let p = s.last();
        assert(p == s[s.len() - 1]);
        assert((p.0 as int) < n);
        assert forall|k: int| 0 <= k < s0.len() implies (#[trigger] s0[k]).0 < n by {
            assert(s0[k] == s[k]);
        }
        lemma_trace_multiset(s0, n);
        lemma_proj_union_push(s0, p, n);
        assert(s =~= s0.push(p));
        assert(trace_lines(s0.push(p)) =~= trace_lines(s0).push(p.1@));
        assert(trace_lines(s).to_multiset() == trace_lines(s0).to_multiset().insert(p.1@));
    }
}

proof fn lemma_union_congruence(s: Seq<(usize, String)>, files: Seq<Vec<String>>, n: int)
    requires
        n <= files.len(),
        forall|i: int| 0 <= i < n ==> #[trigger] proj(s, i) == views_of(files[i]@),
    ensures
        proj_union(s, n) == files_union(files, n),
    decreases n,
{
    if n > 0 {
        lemma_union_congruence(s, files, n - 1);
        assert(proj(s, n - 1) == views_of(files[n - 1]@));
    }
}

/// The decompression pipeline model: per-file input lines, how many of each
/// file have been enqueued, the bounded FIFO hand-off queue, and the lines
/// the single consumer has written out, each tagged with its file's index.
pub struct Pipeline {
    pub files: Vec<Vec<String>>,
    pub taken: Vec<usize>,
    pub queue: Vec<(usize, String)>,
    pub capacity: usize,
    pub emitted: Vec<(usize, String)>,
}

impl Pipeline {
    /// The pipeline's invariant: the queue never holds more than the
    /// configured capacity, and for every file, what was emitted followed
    /// by what is still queued is exactly the prefix of that file's lines
    /// enqueued so far — per-file order is never disturbed.
    pub open spec fn wf(&self) -> bool {
        &&& self.capacity >= 1
        &&& self.taken@.len() == self.files@.len()
        &&& self.queue@.len() <= self.capacity
        &&& self.emitted@.len() + self.queue@.len() == sum_taken(self.taken@)
        &&& forall|i: int|
            0 <= i < self.files@.len() ==> #[trigger] self.taken@[i] <= self.files@[i]@.len()
        &&& forall|k: int|
            0 <= k < self.queue@.len() ==> (#[trigger] self.queue@[k]).0 < self.files@.len()
        &&& forall|k: int|
            0 <= k < self.emitted@.len() ==> (#[trigger] self.emitted@[k]).0 < self.files@.len()
        &&& forall|i: int|
            0 <= i < self.files@.len() ==> #[trigger] proj(self.emitted@ + self.queue@, i)
                == views_of(self.files@[i]@).take(self.taken@[i] as int)
    }

    /// Whether every file is fully enqueued and the queue is drained.
    pub open spec fn done(&self) -> bool {
        &&& self.queue@.len() == 0
        &&& forall|i: int|
            0 <= i < self.files@.len() ==> #[trigger] self.taken@[i] == self.files@[i]@.len()
    }

    /// A fresh pipeline over the given files, with nothing enqueued yet.
    pub fn new(files: Vec<Vec<String>>, capacity: usize) -> (r: Pipeline)
        requires
            capacity >= 1,
        ensures
            r.wf(),
            r.files == files,
            r.capacity == capacity,
            r.emitted@.len() == 0,
            r.queue@.len() == 0,
    {
        let mut taken: Vec<usize> = Vec::new();
        let mut i: usize = 0;
        while i < files.len()
            invariant
                i <= files@.len(),
                taken@.len() == i,
                sum_taken(taken@) == 0,
                forall|j: int| 0 <= j < i ==> #[trigger] taken@[j] == 0,
            decreases files@.len() - i,
        {
            let ghost before = taken@;
            taken.push(0);
            proof {
                assert(taken@.drop_last() =~= before);
            }
            i = i + 1;
        }
        let r = Pipeline { files, taken, queue: Vec::new(), capacity, emitted: Vec::new() };
        proof {
            assert forall|i2: int| 0 <= i2 < r.files@.len() implies #[trigger] proj(
                r.emitted@ + r.queue@,
                i2,
            ) == views_of(r.files@[i2]@).take(r.taken@[i2] as int) by {
                assert(r.emitted@ + r.queue@ =~= Seq::<(usize, String)>::empty());
                assert(views_of(r.files@[i2]@).take(0) =~= Seq::<Seq<char>>::empty());
            }
        }
        r
    }

    /// Whether a producer may enqueue the next line of file `i` now: the
    /// file has a line left and the queue has a free slot. A real producer
    /// suspends until the consumer frees a slot — that is the backpressure
    /// bounding buffered lines.
    pub fn can_enqueue(&self, i: usize) -> (r: bool)
        requires
            self.wf(),
        ensures
            r == (i < self.files@.len() && self.taken@[i as int] < self.files@[i as int]@.len()
                && self.queue@.len() < self.capacity),
    {
        i < self.files.len() && self.taken[i] < self.files[i].len() && self.queue.len()
            < self.capacity
    }

    /// A producer pushes the next line of file `i` onto the queue.
    pub fn enqueue(&mut self, i: usize)
        requires
            old(self).wf(),
            i < old(self).files@.len(),
            old(self).taken@[i as int] < old(self).files@[i as int]@.len(),
            old(self).queue@.len() < old(self).capacity,
        ensures
            final(self).wf(),
            final(self).files == old(self).files,
            final(self).capacity == old(self).capacity,
            final(self).emitted == old(self).emitted,
            final(self).queue@ == old(self).queue@.push(
                (i, old(self).files@[i as int]@[old(self).taken@[i as int] as int]),
            ),
            final(self).taken@ == old(self).taken@.update(
                i as int,
                (old(self).taken@[i as int] + 1) as usize,
            ),
    {
        let t = self.taken[i];
        let file_len = self.files[i].len();
        let line = self.files[i][t].clone();
        self.queue.push((i, line));
        proof {
            assert(t < file_len);
        }
        self.taken.set(i, t + 1);
        proof {
            let ghost x = (i, old(self).files@[i as int]@[t as int]);
            lemma_sum_update(old(self).taken@, i as int, (t + 1) as usize);
            assert forall|j: int| 0 <= j < self.files@.len() implies #[trigger] proj(
                self.emitted@ + self.queue@,
                j,
            ) == views_of(self.files@[j]@).take(self.taken@[j] as int) by {
                assert(self.emitted@ + self.queue@ =~= (old(self).emitted@ + old(
                    self,
                ).queue@).push(x));
                lemma_proj_push(old(self).emitted@ + old(self).queue@, x, j);
                if j == i {
                    assert(views_of(self.files@[j]@).take(t + 1) =~= views_of(
                        self.files@[j]@,
                    ).take(t as int).push(self.files@[j]@[t as int]@));
                }
            }
        }
    }

    /// The consumer pops the oldest queued line; it is recorded as emitted
    /// and handed back to be written out.
    pub fn dequeue(&mut self) -> (r: String)
        requires
            old(self).wf(),
            old(self).queue@.len() > 0,
        ensures
            final(self).wf(),
            final(self).files == old(self).files,
            final(self).capacity == old(self).capacity,
            final(self).taken == old(self).taken,
            final(self).queue@ == old(self).queue@.drop_first(),
            final(self).emitted@ == old(self).emitted@.push(old(self).queue@[0]),
            r@ == old(self).queue@[0].1@,
    {
        let item = self.queue.remove(0);
        let out = item.1.clone();
        self.emitted.push(item);
        proof {
            assert(self.queue@ =~= old(self).queue@.drop_first());
            assert forall|j: int| 0 <= j < self.files@.len() implies #[trigger] proj(
                self.emitted@ + self.queue@,
                j,
            ) == views_of(self.files@[j]@).take(self.taken@[j] as int) by {
                assert(self.emitted@ + self.queue@ =~= old(self).emitted@ + old(self).queue@);
            }
        }
        out
    }

    /// How many lines are buffered right now.
    pub fn buffered(&self) -> (r: usize)
        ensures
            r == self.queue@.len(),
    {
        self.queue.len()
    }
}

/// Law: the number of buffered lines never exceeds the configured queue
/// capacity, whatever the input sizes are.
pub proof fn lemma_bounded_buffer(p: Pipeline)
    requires
        p.wf(),
    ensures
        p.queue@.len() <= p.capacity,
{
}

/// Law: once every file is drained and the queue is empty, each file's
/// lines were emitted exactly, in their original relative order; the lines
/// emitted across the run are the union, with multiplicity, of all files'
/// lines; and the total emitted count is the sum of the per-file counts.
pub proof fn lemma_drained_output(p: Pipeline)
    requires
        p.wf(),
        p.done(),
    ensures
        forall|i: int|
            0 <= i < p.files@.len() ==> #[trigger] proj(p.emitted@, i) == views_of(p.files@[i]@),
        p.emitted@.len() == total_lines(p.files@),
        trace_lines(p.emitted@).to_multiset() == files_union(p.files@, p.files@.len() as int),
{
    assert forall|i: int| 0 <= i < p.files@.len() implies #[trigger] proj(p.emitted@, i)
        == views_of(p.files@[i]@) by {
        assert(p.emitted@ + p.queue@ =~= p.emitted@);
        assert(views_of(p.files@[i]@).take(p.taken@[i] as int) =~= views_of(p.files@[i]@));
    }
    lemma_sum_full(p.taken@, p.files@);
    lemma_trace_multiset(p.emitted@, p.files@.len() as int);
    lemma_union_congruence(p.emitted@, p.files@, p.files@.len() as int);
}

/// The worker parallelism a requested degree yields: zero keeps the pool's
/// default (one worker per execution unit); a positive degree reserves one
/// unit for the single consumer, with at least one worker left.
pub fn worker_threads(p: usize) -> (r: usize)
    ensures
        p == 0 ==> r == 0,
        p > 0 ==> r == if p >= 2 {
            (p - 1) as int
        } else {
            1int
        },
{
    if p == 0 {
        0
    } else if p >= 2 {
        p - 1
    } else {
        1
    }
}

} // verus!

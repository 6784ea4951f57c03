//! Bounded per-entity history of CPU and memory samples, and the sparkline
//! digest computed from such a series.
//!
//! Samples are percentages in hundredths of a percent (10000 = 100%), keyed
//! by entity name. Each series is a FIFO with a fixed capacity: the oldest
//! sample is evicted first.

use vstd::prelude::*;
use vstd::string::StrSliceExecFns;
use vstd::string::StringExecFns;
use crate::text::str_eq;

verus! {

/// One recorded series pair for an entity name.
struct SeriesEntry {
    name: String,
    cpu: Vec<u64>,
    mem: Vec<u64>,
}

/// Rolling history for sparkline display.
pub struct StatsHistory {
    series: Vec<SeriesEntry>,
    max_samples: usize,
}

/// How one recorded sample changes a series of capacity `cap`: appended at
/// the back, with the oldest sample evicted once the series is full.
pub open spec fn record_step(s: Seq<u64>, v: u64, cap: nat) -> Seq<u64> {
    if s.len() < cap {
        s.push(v)
    } else {
        s.drop_first().push(v)
    }
}

/// The series obtained by recording every sample of `samples`, in order,
/// into an initially empty series of capacity `cap`.
pub open spec fn replay(samples: Seq<u64>, cap: nat) -> Seq<u64>
    decreases samples.len(),
{
    if samples.len() == 0 {
        Seq::<u64>::empty()
    } else {
        record_step(replay(samples.drop_last(), cap), samples.last(), cap)
    }
}

/// History bounding: recording any sequence of samples into an empty series
/// of capacity `cap` yields exactly the most recent `cap` samples, in order
/// (all of them while fewer than `cap` have been recorded).
pub proof fn lemma_history_bounding(samples: Seq<u64>, cap: nat)
    requires
        cap >= 1,
    ensures
        replay(samples, cap) =~= samples.subrange(
            if samples.len() >= cap {
                samples.len() - cap
            } else {
                0
            },
            samples.len() as int,
        ),
    decreases samples.len(),
{
    if samples.len() > 0 {
        let l = samples.len() as int;
        let d = samples.drop_last();
        lemma_history_bounding(d, cap);
        let p = replay(d, cap);
        if d.len() < cap {
            assert(p =~= d.subrange(0, l - 1));
            assert(p.push(samples.last()) =~= samples.subrange(
                if samples.len() >= cap {
                    samples.len() - cap
                } else {
                    0
                },
                l,
            ));
        } else {
            assert(p =~= d.subrange(d.len() - cap, l - 1));
            assert(p.len() == cap);
            assert(p.drop_first() =~= samples.subrange(l - cap, l - 1));
            assert(p.drop_first().push(samples.last()) =~= samples.subrange(l - cap, l));
        }
    }
}

impl StatsHistory {
    /// The fixed capacity of every series.
    pub closed spec fn capacity(self) -> nat {
        self.max_samples as nat
    }

    /// Well-formed: capacity at least one, series names unique, and no series
    /// longer than the capacity.
    pub closed spec fn wf(self) -> bool {
        &&& self.max_samples >= 1
        &&& forall|i: int|
            0 <= i < self.series.len() ==> (#[trigger] self.series[i].cpu@.len())
                <= self.max_samples && self.series[i].mem@.len() <= self.max_samples
        &&& forall|i: int, j: int|
            0 <= i < self.series.len() && 0 <= j < self.series.len() && i != j
                ==> #[trigger] self.series[i].name@ != #[trigger] self.series[j].name@
    }

    /// A series is recorded under this name.
    pub closed spec fn has_series(self, n: Seq<char>) -> bool {
        exists|i: int| 0 <= i < self.series.len() && #[trigger] self.series[i].name@ == n
    }

    spec fn series_index(self, n: Seq<char>) -> int {
        choose|i: int| 0 <= i < self.series.len() && #[trigger] self.series[i].name@ == n
    }

    /// The CPU series recorded under a name; empty when the name is unknown.
    pub closed spec fn cpu_of(self, n: Seq<char>) -> Seq<u64> {
        if self.has_series(n) {
            self.series[self.series_index(n)].cpu@
        } else {
            Seq::<u64>::empty()
        }
    }

    /// The memory series recorded under a name; empty when the name is unknown.
    pub closed spec fn mem_of(self, n: Seq<char>) -> Seq<u64> {
        if self.has_series(n) {
            self.series[self.series_index(n)].mem@
        } else {
            Seq::<u64>::empty()
        }
    }

    /// Create a store whose series hold at most `max_samples` samples;
    /// every name starts with empty series.
    pub fn new(max_samples: usize) -> (r: Self)
        requires
            max_samples >= 1,
        ensures
            r.wf(),
            r.capacity() == max_samples,
            forall|n: Seq<char>| !r.has_series(n),
            forall|n: Seq<char>|
                r.cpu_of(n) == Seq::<u64>::empty() && r.mem_of(n) == Seq::<u64>::empty(),
    {
        StatsHistory { series: Vec::new(), max_samples }
    }

    fn find(&self, name: &str) -> (r: Option<usize>)
        ensures
            match r {
                Some(i) => i < self.series.len() && self.series[i as int].name@ == name@,
                None => !self.has_series(name@),
            },
    {
        let mut i: usize = 0;
        let n = self.series.len();
        while i < n
            invariant
                n == self.series.len(),
                0 <= i <= n,
                forall|j: int| 0 <= j < i ==> #[trigger] self.series[j].name@ != name@,
            decreases n - i,
        {
            if str_eq(self.series[i].name.as_str(), name) {
                return Some(i);
            }
            i = i + 1;
        }
        None
    }

    proof fn lemma_index_is(self, n: Seq<char>, i: int)
        requires
            self.wf(),
            0 <= i < self.series.len(),
            self.series[i].name@ == n,
        ensures
            self.has_series(n),
            self.series_index(n) == i,
    {
        assert(self.has_series(n));
        let j = self.series_index(n);
        assert(0 <= j < self.series.len() && self.series[j].name@ == n);
        if i != j {
            assert(self.series[i].name@ != self.series[j].name@);
        }
    }

    /// Record a CPU sample for an entity: appended to that entity's series,
    /// evicting the oldest sample once the series is full. Every other series
    /// is untouched.
    pub fn record_cpu(&mut self, name: &str, value: u64)
        requires
            old(self).wf(),
        ensures
            final(self).wf(),
            final(self).capacity() == old(self).capacity(),
            final(self).cpu_of(name@) == record_step(
                old(self).cpu_of(name@),
                value,
                old(self).capacity(),
            ),
            final(self).mem_of(name@) == old(self).mem_of(name@),
            forall|n: Seq<char>|
                n != name@ ==> final(self).cpu_of(n) == old(self).cpu_of(n) && final(self).mem_of(
                    n,
                ) == old(self).mem_of(n) && final(self).has_series(n) == old(self).has_series(n),
    {
        let ghost prev = *self;
        match self.find(name) {
            Some(i) => {
                proof {
                    prev.lemma_index_is(name@, i as int);
                }
                let mut entry = self.series.remove(i);
                entry.cpu.push(value);
                if entry.cpu.len() > self.max_samples {
                    entry.cpu.remove(0);
                }
                self.series.insert(i, entry);
                proof {
                    assert(self.series@ =~= prev.series@.update(
                        i as int,
                        self.series@[i as int],
                    ));
                    assert(forall|k: int|
                        0 <= k < self.series@.len() ==> (#[trigger] self.series@[k].name@)
                            == prev.series@[k].name@);
                    assert(self.series@[i as int].cpu@.len() <= self.max_samples);
                    assert(self.series@[i as int].mem@.len() <= self.max_samples);
                    assert(self.wf());
                    self.lemma_index_is(name@, i as int);
                    assert forall|n: Seq<char>| n != name@ implies self.cpu_of(n) == prev.cpu_of(n)
                        && self.mem_of(n) == prev.mem_of(n) && self.has_series(n)
                        == prev.has_series(n) by {
                        self.lemma_same_others(prev, i as int, n);
                    }
                }
            },
            None => {
                let mut cpu: Vec<u64> = Vec::new();
                cpu.push(value);
                let entry = SeriesEntry { name: String::from_str(name), cpu, mem: Vec::new() };
                let ghost at = self.series@.len() as int;
                self.series.push(entry);
                proof {
                    self.lemma_index_is(name@, at);
                    assert(self.cpu_of(name@) =~= record_step(
                        prev.cpu_of(name@),
                        value,
                        prev.capacity(),
                    ));
                    assert(self.mem_of(name@) =~= prev.mem_of(name@));
                    assert forall|n: Seq<char>| n != name@ implies self.cpu_of(n) == prev.cpu_of(n)
                        && self.mem_of(n) == prev.mem_of(n) && self.has_series(n)
                        == prev.has_series(n) by {
                        self.lemma_push_others(prev, n);
                    }
                }
            },
        }
    }

    /// Record a memory sample for an entity, as `record_cpu` does for CPU.
    pub fn record_mem(&mut self, name: &str, value: u64)
        requires
            old(self).wf(),
        ensures
            final(self).wf(),
            final(self).capacity() == old(self).capacity(),
            final(self).mem_of(name@) == record_step(
                old(self).mem_of(name@),
                value,
                old(self).capacity(),
            ),
            final(self).cpu_of(name@) == old(self).cpu_of(name@),
            forall|n: Seq<char>|
                n != name@ ==> final(self).cpu_of(n) == old(self).cpu_of(n) && final(self).mem_of(
                    n,
                ) == old(self).mem_of(n) && final(self).has_series(n) == old(self).has_series(n),
    {
        let ghost prev = *self;
        match self.find(name) {
            Some(i) => {
                proof {
                    prev.lemma_index_is(name@, i as int);
                }
                let mut entry = self.series.remove(i);
                entry.mem.push(value);
                if entry.mem.len() > self.max_samples {
                    entry.mem.remove(0);
                }
                self.series.insert(i, entry);
                proof {
                    assert(self.series@ =~= prev.series@.update(
                        i as int,
                        self.series@[i as int],
                    ));
                    assert(forall|k: int|
                        0 <= k < self.series@.len() ==> (#[trigger] self.series@[k].name@)
                            == prev.series@[k].name@);
                    assert(self.series@[i as int].cpu@.len() <= self.max_samples);
                    assert(self.series@[i as int].mem@.len() <= self.max_samples);
                    assert(self.wf());
                    self.lemma_index_is(name@, i as int);
                    assert forall|n: Seq<char>| n != name@ implies self.cpu_of(n) == prev.cpu_of(n)
                        && self.mem_of(n) == prev.mem_of(n) && self.has_series(n)
                        == prev.has_series(n) by {
                        self.lemma_same_others(prev, i as int, n);
                    }
                }
            },
            None => {
                let mut mem: Vec<u64> = Vec::new();
                mem.push(value);
                let entry = SeriesEntry { name: String::from_str(name), cpu: Vec::new(), mem };
                let ghost at = self.series@.len() as int;
                self.series.push(entry);
                proof {
                    assert(forall|i: int|
                        0 <= i < prev.series@.len() ==> #[trigger] prev.series@[i].name@ != name@);
                    assert(self.wf());
                    self.lemma_index_is(name@, at);
                    assert(self.mem_of(name@) =~= record_step(
                        prev.mem_of(name@),
                        value,
                        prev.capacity(),
                    ));
                    assert(self.cpu_of(name@) =~= prev.cpu_of(name@));
                    assert forall|n: Seq<char>| n != name@ implies self.cpu_of(n) == prev.cpu_of(n)
                        && self.mem_of(n) == prev.mem_of(n) && self.has_series(n)
                        == prev.has_series(n) by {
                        self.lemma_push_others(prev, n);
                    }
                }
            },
        }
    }

    proof fn lemma_same_others(self, prev: Self, i: int, n: Seq<char>)
        requires
            prev.wf(),
            self.wf(),
            0 <= i < prev.series.len(),
            self.series@ == prev.series@.update(i, self.series@[i]),
            self.series[i].name@ == prev.series[i].name@,
            n != prev.series[i].name@,
        ensures
            self.cpu_of(n) == prev.cpu_of(n),
            self.mem_of(n) == prev.mem_of(n),
            self.has_series(n) == prev.has_series(n),
    {
        if prev.has_series(n) {
            let j = prev.series_index(n);
            assert(prev.series[j].name@ == n);
            assert(j != i);
            assert(self.series[j].name@ == n);
            self.lemma_index_is(n, j);
        } else {
            if self.has_series(n) {
                let j = self.series_index(n);
                assert(self.series[j].name@ == n);
                assert(j != i);
                assert(prev.series[j].name@ == n);
            }
        }
    }

    proof fn lemma_push_others(self, prev: Self, n: Seq<char>)
        requires
            prev.wf(),
            self.wf(),
            self.series@.len() == prev.series@.len() + 1,
            forall|k: int|
                0 <= k < prev.series@.len() ==> self.series@[k] == #[trigger] prev.series@[k],
            n != self.series@.last().name@,
        ensures
            self.cpu_of(n) == prev.cpu_of(n),
            self.mem_of(n) == prev.mem_of(n),
            self.has_series(n) == prev.has_series(n),
    {
        let l = prev.series@.len() as int;
        if prev.has_series(n) {
            let j = prev.series_index(n);
            assert(self.series[j].name@ == n);
            self.lemma_index_is(n, j);
        } else {
            if self.has_series(n) {
                let j = self.series_index(n);
                assert(j < l);
                assert(prev.series[j].name@ == n);
            }
        }
    }

    /// The CPU series recorded for an entity, oldest first; empty if unknown.
    pub fn get_cpu(&self, name: &str) -> (r: Vec<u64>)
        requires
            self.wf(),
        ensures
            r@ == self.cpu_of(name@),
    {
        match self.find(name) {
            Some(i) => {
                proof {
                    self.lemma_index_is(name@, i as int);
                }
                copy_samples(&self.series[i].cpu)
            },
            None => Vec::new(),
        }
    }

    /// The memory series recorded for an entity, oldest first; empty if unknown.
    pub fn get_mem(&self, name: &str) -> (r: Vec<u64>)
        requires
            self.wf(),
        ensures
            r@ == self.mem_of(name@),
    {
        match self.find(name) {
            Some(i) => {
                proof {
                    self.lemma_index_is(name@, i as int);
                }
                copy_samples(&self.series[i].mem)
            },
            None => Vec::new(),
        }
    }

    /// Discard the series recorded for an entity, which then reads as the
    /// empty series, leaving every other series untouched.
    pub fn remove(&mut self, name: &str)
        requires
            old(self).wf(),
        ensures
            final(self).wf(),
            final(self).capacity() == old(self).capacity(),
            !final(self).has_series(name@),
            final(self).cpu_of(name@) == Seq::<u64>::empty(),
            final(self).mem_of(name@) == Seq::<u64>::empty(),
            forall|n: Seq<char>|
                n != name@ ==> final(self).cpu_of(n) == old(self).cpu_of(n) && final(self).mem_of(
                    n,
                ) == old(self).mem_of(n) && final(self).has_series(n) == old(self).has_series(n),
    {
        let ghost prev = *self;
        match self.find(name) {
            Some(i) => {
                proof {
                    prev.lemma_index_is(name@, i as int);
                }
                self.series.remove(i);
                proof {
                    assert forall|n: Seq<char>| n != name@ implies self.cpu_of(n) == prev.cpu_of(n)
                        && self.mem_of(n) == prev.mem_of(n) && self.has_series(n)
                        == prev.has_series(n) by {
                        self.lemma_remove_others(prev, i as int, n);
                    }
                    if self.has_series(name@) {
                        let j = self.series_index(name@);
                        if j < i {
                            assert(prev.series[j].name@ == name@);
                        } else {
                            assert(prev.series[j + 1].name@ == name@);
                        }
                    }
                }
            },
            None => {},
        }
    }

    proof fn lemma_remove_others(self, prev: Self, i: int, n: Seq<char>)
        requires
            prev.wf(),
            self.wf(),
            0 <= i < prev.series.len(),
            self.series@ == prev.series@.remove(i),
            n != prev.series[i].name@,
        ensures
            self.cpu_of(n) == prev.cpu_of(n),
            self.mem_of(n) == prev.mem_of(n),
            self.has_series(n) == prev.has_series(n),
    {
        if prev.has_series(n) {
            let j = prev.series_index(n);
            assert(prev.series[j].name@ == n);
            assert(j != i);
            if j < i {
                assert(self.series[j].name@ == n);
                self.lemma_index_is(n, j);
            } else {
                assert(self.series[j - 1].name@ == n);
                self.lemma_index_is(n, j - 1);
            }
        } else {
            if self.has_series(n) {
                let j = self.series_index(n);
                if j < i {
                    assert(prev.series[j].name@ == n);
                } else {
                    assert(prev.series[j + 1].name@ == n);
                }
            }
        }
    }
}

/// Largest sample in a series; zero for an empty series.
pub open spec fn max_sample(s: Seq<u64>) -> int
    decreases s.len(),
{
    if s.len() == 0 {
        0
    } else if s.last() as int >= max_sample(s.drop_last()) {
        s.last() as int
    } else {
        max_sample(s.drop_last())
    }
}

/// Scaling maximum for a sparkline window: the largest sample, clamped to the
/// percentage ceiling (10000 = 100%) and floored at 100 (1%) so that scaling
/// never divides by zero.
pub open spec fn spark_scale(s: Seq<u64>) -> int {
    let m = max_sample(s);
    if m < 100 {
        100
    } else if m > 10000 {
        10000
    } else {
        m
    }
}

/// Quantized intensity of one sample against the window maximum `m`: the
/// ratio rounded to one of eight levels, capped at the top level.
pub open spec fn spark_level(v: int, m: int) -> int {
    let x = (v * 7 + m / 2) / m;
    if x > 7 {
        7
    } else {
        x
    }
}

/// Block glyph for an intensity level.
pub open spec fn spark_char(l: int) -> char {
    if l <= 0 {
        '\u{2581}'
    } else if l == 1 {
        '\u{2582}'
    } else if l == 2 {
        '\u{2583}'
    } else if l == 3 {
        '\u{2584}'
    } else if l == 4 {
        '\u{2585}'
    } else if l == 5 {
        '\u{2586}'
    } else if l == 6 {
        '\u{2587}'
    } else {
        '\u{2588}'
    }
}

/// The sparkline of a series at a given width: the most recent `width`
/// samples, left-padded with blanks when fewer exist, each mapped through the
/// eight intensity levels scaled against the window maximum.
pub open spec fn sparkline_spec(values: Seq<u64>, width: nat) -> Seq<char> {
    let w = if values.len() > width {
        values.subrange(values.len() - width, values.len() as int)
    } else {
        values
    };
    let pad = width - w.len();
    Seq::new(
        width,
        |i: int|
            if i < pad {
                ' '
            } else {
                spark_char(spark_level(w[i - pad] as int, spark_scale(w)))
            },
    )
}

fn spark_glyph(l: u64) -> (r: &'static str)
    ensures
        r@ =~= seq![spark_char(l as int)],
{
    proof {
        reveal_strlit("\u{2581}");
        reveal_strlit("\u{2582}");
        reveal_strlit("\u{2583}");
        reveal_strlit("\u{2584}");
        reveal_strlit("\u{2585}");
        reveal_strlit("\u{2586}");
        reveal_strlit("\u{2587}");
        reveal_strlit("\u{2588}");
    }
    match l {
        0 => "\u{2581}",
        1 => "\u{2582}",
        2 => "\u{2583}",
        3 => "\u{2584}",
        4 => "\u{2585}",
        5 => "\u{2586}",
        6 => "\u{2587}",
        _ => "\u{2588}",
    }
}

impl StatsHistory {
    /// Render a series as a fixed-width sparkline string: the most recent
    /// `width` samples, left-padded with blanks, one glyph per sample.
    pub fn to_sparkline(values: &Vec<u64>, width: usize) -> (r: String)
        ensures
            r@ == sparkline_spec(values@, width as nat),
            r@.len() == width,
    {
        let len = values.len();
        let start: usize = if len > width {
            len - width
        } else {
            0
        };
        let ghost w = if values@.len() > width as nat {
            values@.subrange(values@.len() - width as nat, values@.len() as int)
        } else {
            values@
        };
        proof {
            assert(w =~= values@.subrange(start as int, len as int));
        }
        // Window maximum for scaling.
        let mut m0: u64 = 0;
        let mut i: usize = start;
        while i < len
            invariant
                len == values@.len(),
                start <= i <= len,
                m0 as int == max_sample(values@.subrange(start as int, i as int)),
            decreases len - i,
        {
            proof {
                assert(values@.subrange(start as int, i + 1).drop_last() =~= values@.subrange(
                    start as int,
                    i as int,
                ));
            }
            let v = values[i];
            if v > m0 {
                m0 = v;
            }
            i = i + 1;
        }
        let m: u64 = if m0 < 100 {
            100
        } else if m0 > 10000 {
            10000
        } else {
            m0
        };
        proof {
            assert(m as int == spark_scale(w));
        }
        let pad = width - (len - start);
        let mut s = String::new();
        let mut k: usize = 0;
        while k < pad
            invariant
                0 <= k <= pad,
                s@.len() == k,
                forall|j: int| 0 <= j < k ==> s@[j] == ' ',
            decreases pad - k,
        {
            proof {
                reveal_strlit(" ");
            }
            s.append(" ");
            k = k + 1;
        }
        let mut i: usize = start;
        while i < len
            invariant
                len == values@.len(),
                pad == width - (len - start),
                start <= i <= len,
                m >= 1,
                m as int == spark_scale(w),
                w =~= values@.subrange(start as int, len as int),
                s@.len() == pad + (i - start),
                forall|j: int| 0 <= j < pad ==> s@[j] == ' ',
                forall|j: int|
                    0 <= j < i - start ==> #[trigger] s@[pad + j] == spark_char(
                        spark_level(values@[start + j] as int, m as int),
                    ),
            decreases len - i,
        {
            let v = values[i];
            let x128: u128 = ((v as u128) * 7 + (m / 2) as u128) / (m as u128);
            let lvl: u64 = if x128 > 7 {
                7
            } else {
                x128 as u64
            };
            proof {
                assert(lvl as int == spark_level(v as int, m as int));
            }
            s.append(spark_glyph(lvl));
            i = i + 1;
        }
        proof {
            let spec_r = sparkline_spec(values@, width as nat);
            assert forall|j: int| 0 <= j < width implies s@[j] == spec_r[j] by {
                if j >= pad {
                    assert(s@[pad + (j - pad)] == spark_char(
                        spark_level(values@[start + (j - pad)] as int, m as int),
                    ));
                    assert(w[j - pad] == values@[start + (j - pad)]);
                }
            }
            assert(s@ =~= spec_r);
        }
        s
    }
}

fn copy_samples(v: &Vec<u64>) -> (r: Vec<u64>)
    ensures
        r@ == v@,
{
    let mut r: Vec<u64> = Vec::new();
    let n = v.len();
    let mut i: usize = 0;
    while i < n
        invariant
            n == v@.len(),
            0 <= i <= n,
            r@ =~= v@.subrange(0, i as int),
        decreases n - i,
    {
        r.push(v[i]);
        i = i + 1;
    }
    proof {
        assert(r@ =~= v@);
    }
    r
}

} // verus!

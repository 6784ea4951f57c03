//! Pure metric computation: container CPU/memory percentages from raw
//! counter samples, parsing of the GPU probe's CSV output, and the
//! per-entity GPU memory table with its exact-then-prefix lookup.

use vstd::prelude::*;
use vstd::string::StrSliceExecFns;
use crate::entity::ContainerStats;
use crate::text::{dec_val, is_digits, is_prefix, parse_u64, split_char, split_seq, str_eq,
    str_starts_with, trim_spaces, trimmed};

verus! {

/// Raw CPU counters of one container, as two consecutive probe readings.
pub struct RawCpuSample {
    /// Cumulative CPU usage at this reading.
    pub total_usage: u64,
    /// Cumulative CPU usage at the previous reading.
    pub pretotal_usage: u64,
    /// Host CPU usage at this reading, when reported.
    pub system_usage: Option<u64>,
    /// Host CPU usage at the previous reading, when reported.
    pub presystem_usage: Option<u64>,
    /// Number of online CPUs, when reported.
    pub online_cpus: Option<u64>,
    /// Number of per-CPU counters, when reported.
    pub percpu_len: Option<u64>,
}

/// The CPU count a sample denotes: online CPUs, else the per-CPU counter
/// count, else one.
pub open spec fn num_cpus_spec(c: RawCpuSample) -> int {
    match c.online_cpus {
        Some(n) => n as int,
        None => match c.percpu_len {
            Some(n) => n as int,
            None => 1,
        },
    }
}

/// CPU usage in hundredths of a percent: the usage delta over the host
/// delta, scaled by the CPU count, zero when either delta is not positive,
/// and capped at 10000% (1_000_000 hundredths).
pub open spec fn cpu_centi_spec(c: RawCpuSample) -> int {
    let d = c.total_usage as int - c.pretotal_usage as int;
    let sys = (match c.system_usage {
        Some(s) => s as int,
        None => 0,
    }) - (match c.presystem_usage {
        Some(s) => s as int,
        None => 0,
    });
    if d > 0 && sys > 0 {
        let v = d * num_cpus_spec(c) * 10000 / sys;
        if v > 1000000 {
            1000000
        } else {
            v
        }
    } else {
        0
    }
}

/// Memory usage in hundredths of a percent of the limit, capped at 10000%;
/// zero when the limit is zero.
pub open spec fn mem_centi_spec(usage: int, limit: int) -> int {
    if limit > 0 {
        let v = usage * 10000 / limit;
        if v > 1000000 {
            1000000
        } else {
            v
        }
    } else {
        0
    }
}

fn ratio_centi(num: u64, den: u64, scale: u64) -> (r: u64)
    requires
        den > 0,
        scale >= 1,
        scale <= 1000000,
    ensures
        r as int == (if num as int * (scale as int) * 10000 / (den as int) > 1000000 {
            1000000int
        } else {
            num as int * (scale as int) * 10000 / (den as int)
        }),
{
    proof {
        assert((num as int) * (scale as int) <= (u64::MAX as int) * (u64::MAX as int))
            by (nonlinear_arith)
            requires
                num as int <= u64::MAX as int,
                scale as int <= u64::MAX as int,
        ;
    }
    let p: u128 = (num as u128) * (scale as u128);
    let d: u128 = den as u128;
    if p > d * 100 {
        proof {
            assert((p as int) * 10000 / (d as int) >= 1000000) by (nonlinear_arith)
                requires
                    p as int > d as int * 100,
                    d as int > 0,
            ;
        }
        1000000
    } else {
        let v: u128 = p * 10000 / d;
        proof {
            assert((p as int) * 10000 / (d as int) <= 1000000) by (nonlinear_arith)
                requires
                    p as int <= d as int * 100,
                    d as int > 0,
            ;
        }
        v as u64
    }
}

/// Percentage of `used` over `total` in hundredths of a percent, capped at
/// 10000%; zero when the total is zero.
pub fn percent_centi(used: u64, total: u64) -> (r: u64)
    ensures
        r as int == mem_centi_spec(used as int, total as int),
{
    if total > 0 {
        ratio_centi(used, total, 1)
    } else {
        0
    }
}

/// Compute a container's metric snapshot from raw probe values.
///
/// Memory fields default as the probe does: usage to zero, limit to one.
/// Network rates are a known gap of the probe and stay zero; GPU memory is
/// attached in a later pass and starts absent.
pub fn compute_container_stats(
    cpu: RawCpuSample,
    mem_usage: Option<u64>,
    mem_limit: Option<u64>,
    net_rx_bytes: u64,
    net_tx_bytes: u64,
) -> (r: ContainerStats)
    ensures
        r.cpu_centi_percent as int == cpu_centi_spec(cpu),
        r.memory_usage_bytes == (match mem_usage {
            Some(u) => u,
            None => 0u64,
        }),
        r.memory_limit_bytes == (match mem_limit {
            Some(l) => l,
            None => 1u64,
        }),
        r.memory_centi_percent as int == mem_centi_spec(
            r.memory_usage_bytes as int,
            r.memory_limit_bytes as int,
        ),
        r.net_rx_bytes == net_rx_bytes,
        r.net_tx_bytes == net_tx_bytes,
        r.net_rx_rate == 0,
        r.net_tx_rate == 0,
        r.vram_usage_mb is None,
{
    let usage = match mem_usage {
        Some(u) => u,
        None => 0,
    };
    let limit = match mem_limit {
        Some(l) => l,
        None => 1,
    };
    let memory_centi_percent = if limit > 0 {
        ratio_centi(usage, limit, 1)
    } else {
        0
    };
    let ncpus: u64 = match cpu.online_cpus {
        Some(n) => n,
        None => match cpu.percpu_len {
            Some(n) => n,
            None => 1,
        },
    };
    let sys_now: u64 = match cpu.system_usage {
        Some(s) => s,
        None => 0,
    };
    let sys_pre: u64 = match cpu.presystem_usage {
        Some(s) => s,
        None => 0,
    };
    let cpu_centi_percent: u64 = if cpu.total_usage > cpu.pretotal_usage && sys_now > sys_pre
        && ncpus >= 1 {
        let d = cpu.total_usage - cpu.pretotal_usage;
        let sys = sys_now - sys_pre;
        proof {
            assert((d as int) * (ncpus as int) <= (u64::MAX as int) * (u64::MAX as int))
                by (nonlinear_arith)
                requires
                    d as int <= u64::MAX as int,
                    ncpus as int <= u64::MAX as int,
            ;
        }
        let p: u128 = (d as u128) * (ncpus as u128);
        let sd: u128 = sys as u128;
        if p > sd * 100 {
            proof {
                assert((d as int) * (ncpus as int) * 10000 / (sys as int) >= 1000000)
                    by (nonlinear_arith)
                    requires
                        (d as int) * (ncpus as int) > (sys as int) * 100,
                        sys as int > 0,
                ;
            }
            1000000
        } else {
            let v: u128 = p * 10000 / sd;
            proof {
                assert((d as int) * (ncpus as int) * 10000 / (sys as int) <= 1000000)
                    by (nonlinear_arith)
                    requires
                        (d as int) * (ncpus as int) <= (sys as int) * 100,
                        sys as int > 0,
                ;
            }
            v as u64
        }
    } else {
        // No positive deltas, or a reported CPU count of zero: no usage.
        0
    };
    proof {
        assert(cpu_centi_percent as int == cpu_centi_spec(cpu));
    }
    ContainerStats {
        cpu_centi_percent,
        memory_usage_bytes: usage,
        memory_limit_bytes: limit,
        memory_centi_percent,
        net_rx_bytes,
        net_tx_bytes,
        net_rx_rate: 0,
        net_tx_rate: 0,
        vram_usage_mb: None,
    }
}

/// A decimal field parses: non-empty, digits only, and within `u64`.
pub open spec fn field_parses(s: Seq<char>) -> bool {
    s.len() > 0 && is_digits(s) && dec_val(s) <= u64::MAX
}

/// The pair of numbers a CSV line denotes: its first two comma-separated
/// fields, trimmed, when both parse as decimal integers.
pub open spec fn csv_pair(line: Seq<char>) -> Option<(int, int)> {
    let ps = split_seq(line, ',');
    if ps.len() >= 2 && field_parses(trimmed(ps[0])) && field_parses(trimmed(ps[1])) {
        Some((dec_val(trimmed(ps[0])), dec_val(trimmed(ps[1]))))
    } else {
        None
    }
}

/// Parse the first two comma-separated decimal fields of a line.
pub fn parse_csv_pair(line: &str) -> (r: Option<(u64, u64)>)
    ensures
        match r {
            Some((a, b)) => csv_pair(line@) == Some((a as int, b as int)),
            None => csv_pair(line@) is None,
        },
{
    let pieces = split_char(line, ',');
    if pieces.len() < 2 {
        return None;
    }
    proof {
        assert(pieces@.map_values(|p: String| p@)[0] == split_seq(line@, ',')[0]);
        assert(pieces@.map_values(|p: String| p@)[1] == split_seq(line@, ',')[1]);
    }
    let a = parse_u64(trim_spaces(pieces[0].as_str()));
    let b = parse_u64(trim_spaces(pieces[1].as_str()));
    match (a, b) {
        (Some(x), Some(y)) => Some((x, y)),
        _ => None,
    }
}

/// The per-line pairs of a whole probe output, in line order, lines that do
/// not parse skipped.
pub open spec fn csv_pairs_of(lines: Seq<Seq<char>>) -> Seq<(int, int)>
    decreases lines.len(),
{
    if lines.len() == 0 {
        Seq::<(int, int)>::empty()
    } else {
        let rest = csv_pairs_of(lines.drop_first());
        match csv_pair(lines[0]) {
            Some(p) => seq![p] + rest,
            None => rest,
        }
    }
}

/// Parse a GPU probe output: one "pid, memory" pair per line, lines that do
/// not parse skipped.
pub fn parse_gpu_csv(text: &str) -> (r: Vec<(u64, u64)>)
    ensures
        r@.map_values(|p: (u64, u64)| (p.0 as int, p.1 as int)) == csv_pairs_of(
            split_seq(text@, '\n'),
        ),
{
    let lines = split_char(text, '\n');
    let ghost lv = lines@.map_values(|p: String| p@);
    let mut r: Vec<(u64, u64)> = Vec::new();
    let n = lines.len();
    let mut i: usize = 0;
    while i < n
        invariant
            n == lines@.len(),
            0 <= i <= n,
            lv == lines@.map_values(|p: String| p@),
            lv == split_seq(text@, '\n'),
            r@.map_values(|p: (u64, u64)| (p.0 as int, p.1 as int)) =~= csv_pairs_of(
                lv.subrange(0, i as int),
            ),
        decreases n - i,
    {
        proof {
            lemma_csv_pairs_concat(lv.subrange(0, i as int), seq![lv[i as int]]);
            assert(lv.subrange(0, i as int) + seq![lv[i as int]] =~= lv.subrange(0, i + 1));
            assert(seq![lv[i as int]].drop_first() =~= Seq::<Seq<char>>::empty());
            assert(lv[i as int] == lines@[i as int]@);
            assert(csv_pairs_of(Seq::<Seq<char>>::empty()) =~= Seq::<(int, int)>::empty());
        }
        match parse_csv_pair(lines[i].as_str()) {
            Some(p) => {
                proof {
                    assert(csv_pairs_of(seq![lv[i as int]]) =~= seq![
                        (p.0 as int, p.1 as int),
                    ]);
                }
                r.push(p);
                proof {
                    assert(r@.map_values(|q: (u64, u64)| (q.0 as int, q.1 as int)) =~=
                        csv_pairs_of(lv.subrange(0, i + 1)));
                }
            },
            None => {
                proof {
                    assert(csv_pairs_of(seq![lv[i as int]]) =~= Seq::<(int, int)>::empty());
                    assert(r@.map_values(|q: (u64, u64)| (q.0 as int, q.1 as int)) =~=
                        csv_pairs_of(lv.subrange(0, i + 1)));
                }
            },
        }
        i = i + 1;
    }
    proof {
        assert(lv.subrange(0, n as int) =~= lv);
    }
    r
}

proof fn lemma_csv_pairs_concat(a: Seq<Seq<char>>, b: Seq<Seq<char>>)
    ensures
        csv_pairs_of(a + b) =~= csv_pairs_of(a) + csv_pairs_of(b),
    decreases a.len(),
{
    if a.len() == 0 {
        assert(a + b =~= b);
    } else {
        assert((a + b).drop_first() =~= a.drop_first() + b);
        lemma_csv_pairs_concat(a.drop_first(), b);
        assert((a + b)[0] == a[0]);
    }
}

/// The entry at index `i` of the GPU table carries exactly the queried id.
pub open spec fn exact_at(t: Seq<(String, u64)>, id: Seq<char>, i: int) -> bool {
    0 <= i < t.len() && t[i].0@ == id
}

/// The entry at index `i` is prefix-related to the queried id, in either
/// direction: ids may be truncated on either side.
pub open spec fn prefix_at(t: Seq<(String, u64)>, id: Seq<char>, i: int) -> bool {
    0 <= i < t.len() && (is_prefix(t[i].0@, id) || is_prefix(id, t[i].0@))
}

/// What a GPU table lookup returns: the first exact match when one exists,
/// else the first prefix-related match (in either direction), else nothing.
pub open spec fn lookup_result(t: Seq<(String, u64)>, id: Seq<char>, r: Option<u64>) -> bool {
    if exists|i: int| exact_at(t, id, i) {
        r is Some && exists|i: int|
            exact_at(t, id, i) && r->Some_0 == t[i].1 && forall|j: int|
                0 <= j < i ==> !exact_at(t, id, j)
    } else if exists|i: int| prefix_at(t, id, i) {
        r is Some && exists|i: int|
            prefix_at(t, id, i) && r->Some_0 == t[i].1 && forall|j: int|
                0 <= j < i ==> !prefix_at(t, id, j)
    } else {
        r is None
    }
}

/// Look up the GPU memory attributed to a container id: exact-id match
/// first, then prefix match in either direction (truncated and full id
/// representations find each other).
pub fn lookup_vram(t: &Vec<(String, u64)>, id: &str) -> (r: Option<u64>)
    ensures
        lookup_result(t@, id@, r),
{
    let n = t.len();
    let mut i: usize = 0;
    while i < n
        invariant
            n == t@.len(),
            0 <= i <= n,
            forall|j: int| 0 <= j < i ==> !exact_at(t@, id@, j),
        decreases n - i,
    {
        if str_eq(t[i].0.as_str(), id) {
            proof {
                assert(exact_at(t@, id@, i as int));
            }
            return Some(t[i].1);
        }
        i = i + 1;
    }
    proof {
        assert(forall|j: int| !exact_at(t@, id@, j));
    }
    let mut i: usize = 0;
    while i < n
        invariant
            n == t@.len(),
            0 <= i <= n,
            forall|j: int| !exact_at(t@, id@, j),
            forall|j: int| 0 <= j < i ==> !prefix_at(t@, id@, j),
        decreases n - i,
    {
        if str_starts_with(id, t[i].0.as_str()) || str_starts_with(t[i].0.as_str(), id) {
            proof {
                assert(prefix_at(t@, id@, i as int));
            }
            return Some(t[i].1);
        }
        i = i + 1;
    }
    proof {
        assert(forall|j: int| !prefix_at(t@, id@, j));
    }
    None
}

/// Saturating total GPU memory that the attribution entries assign to `id`.
pub open spec fn acc_value(es: Seq<(String, u64)>, id: Seq<char>) -> int
    decreases es.len(),
{
    if es.len() == 0 {
        0
    } else {
        let p = acc_value(es.drop_last(), id);
        let c: int = if es.last().0@ == id {
            es.last().1 as int
        } else {
            0
        };
        if p + c > u64::MAX {
            u64::MAX as int
        } else {
            p + c
        }
    }
}

/// An id is attributed somewhere in the entries.
pub open spec fn attributed(es: Seq<(String, u64)>, id: Seq<char>) -> bool {
    exists|i: int| 0 <= i < es.len() && (#[trigger] es[i].0@) == id
}

/// Table ids are unique.
pub open spec fn table_wf(t: Seq<(String, u64)>) -> bool {
    forall|i: int, j: int|
        0 <= i < t.len() && 0 <= j < t.len() && i != j ==> (#[trigger] t[i].0@) != (
        #[trigger] t[j].0@)
}

proof fn lemma_exact_unique(t: Seq<(String, u64)>, id: Seq<char>, i: int)
    requires
        table_wf(t),
        exact_at(t, id, i),
    ensures
        forall|j: int| exact_at(t, id, j) ==> j == i,
{
}

/// Build the per-container GPU memory table from individual attributions:
/// one row per attributed id, holding the saturating sum of its entries.
pub fn aggregate_gpu_usage(entries: Vec<(String, u64)>) -> (r: Vec<(String, u64)>)
    ensures
        table_wf(r@),
        forall|id: Seq<char>| attributed(entries@, id) <==> (exists|i: int| exact_at(r@, id, i)),
        forall|i: int|
            0 <= i < r@.len() ==> (#[trigger] r@[i].1) as int == acc_value(entries@, r@[i].0@),
{
    let mut out: Vec<(String, u64)> = Vec::new();
    let mut rest = entries;
    let ghost all = rest@;
    let ghost done: int = 0;
    while rest.len() > 0
        invariant
            done == all.len() - rest@.len(),
            0 <= done <= all.len(),
            rest@ =~= all.subrange(done, all.len() as int),
            table_wf(out@),
            forall|id: Seq<char>|
                attributed(all.subrange(0, done), id) <==> (exists|i: int|
                    exact_at(out@, id, i)),
            forall|i: int|
                0 <= i < out@.len() ==> (#[trigger] out@[i].1) as int == acc_value(
                    all.subrange(0, done),
                    out@[i].0@,
                ),
        decreases rest@.len(),
    {
        let ghost pre = all.subrange(0, done);
        let e = rest.remove(0);
        proof {
            assert(all[done] == e);
            assert(all.subrange(0, done + 1) =~= pre.push(e));
            assert(all.subrange(0, done + 1).drop_last() =~= pre);
            // The step each id's total takes when `e` arrives.
            assert forall|id: Seq<char>|
                #![trigger acc_value(pre.push(e), id)]
                acc_value(pre.push(e), id) == (if e.0@ == id {
                if acc_value(pre, id) + e.1 > u64::MAX {
                    u64::MAX as int
                } else {
                    acc_value(pre, id) + e.1
                }
            } else {
                acc_value(pre, id)
            }) by {
                assert(pre.push(e).drop_last() =~= pre);
            }
        }
        let mut j: usize = 0;
        let olen = out.len();
        let mut found = false;
        while j < olen && !found
            invariant
                olen == out@.len(),
                0 <= j <= olen,
                forall|k: int| 0 <= k < j ==> (#[trigger] out@[k].0@) != e.0@,
                found ==> j < olen && out@[j as int].0@ == e.0@,
            decreases olen - j, (if found { 0int } else { 1int }),
        {
            if str_eq(out[j].0.as_str(), e.0.as_str()) {
                found = true;
            } else {
                j = j + 1;
            }
        }
        if found {
            let ghost opre = out@;
            let mut row = out.remove(j);
            row.1 = if row.1 > u64::MAX - e.1 {
                u64::MAX
            } else {
                row.1 + e.1
            };
            out.insert(j, row);
            proof {
                assert(out@ =~= opre.update(j as int, out@[j as int]));
                assert(out@[j as int].0@ == e.0@);
                assert(forall|k: int|
                    0 <= k < out@.len() ==> (#[trigger] out@[k].0@) == opre[k].0@);
                assert(table_wf(out@));
                assert forall|id: Seq<char>|
                    #![trigger attributed(all.subrange(0, done + 1), id)]
                    attributed(all.subrange(0, done + 1), id) <==> (exists|i: int|
                        exact_at(out@, id, i)) by {
                    lemma_attributed_push(pre, e, id);
                    assert(attributed(pre, id) <==> (exists|i: int| exact_at(opre, id, i)));
                    if attributed(pre.push(e), id) {
                        if e.0@ == id {
                            assert(exact_at(out@, id, j as int));
                        } else {
                            let i = choose|i: int| exact_at(opre, id, i);
                            assert(exact_at(out@, id, i));
                        }
                    }
                    if exists|i: int| exact_at(out@, id, i) {
                        let i = choose|i: int| exact_at(out@, id, i);
                        if i == j {
                            assert(e.0@ == id);
                        } else {
                            assert(exact_at(opre, id, i));
                        }
                    }
                }
                assert forall|i: int| 0 <= i < out@.len() implies (#[trigger] out@[i].1) as int
                    == acc_value(all.subrange(0, done + 1), out@[i].0@) by {
                    if i == j {
                        assert(acc_value(pre, e.0@) == opre[j as int].1 as int);
                    } else {
                        assert(out@[i] == opre[i]);
                        assert(out@[i].0@ != e.0@);
                    }
                }
            }
        } else {
            let ghost opre = out@;
            out.push((e.0, e.1));
            proof {
                assert(forall|k: int|
                    0 <= k < opre.len() ==> (#[trigger] out@[k].0@) == opre[k].0@ && out@[k]
                        == opre[k]);
                assert(out@[opre.len() as int].0@ == e.0@);
                assert(forall|k: int|
                    0 <= k < opre.len() ==> (#[trigger] opre[k].0@) != e.0@);
                assert(table_wf(out@));
                assert forall|id: Seq<char>|
                    #![trigger attributed(all.subrange(0, done + 1), id)]
                    attributed(all.subrange(0, done + 1), id) <==> (exists|i: int|
                        exact_at(out@, id, i)) by {
                    lemma_attributed_push(pre, (e.0, e.1), id);
                    assert(out@[opre.len() as int] == (e.0, e.1));
                    assert(attributed(pre, id) <==> (exists|i: int| exact_at(opre, id, i)));
                    if attributed(pre.push((e.0, e.1)), id) {
                        if e.0@ == id {
                            assert(exact_at(out@, id, opre.len() as int));
                        } else {
                            let i = choose|i: int| exact_at(opre, id, i);
                            assert(exact_at(out@, id, i));
                        }
                    }
                    if exists|i: int| exact_at(out@, id, i) {
                        let i = choose|i: int| exact_at(out@, id, i);
                        if i < opre.len() {
                            assert(exact_at(opre, id, i));
                        } else {
                            assert(e.0@ == id);
                        }
                    }
                }
                assert forall|i: int| 0 <= i < out@.len() implies (#[trigger] out@[i].1) as int
                    == acc_value(all.subrange(0, done + 1), out@[i].0@) by {
                    if i == opre.len() {
                        assert(!attributed(pre, out@[i].0@));
                        lemma_unattributed_zero(pre, out@[i].0@);
                    } else {
                        assert(out@[i] == opre[i]);
                        assert(out@[i].0@ != e.0@) by {
                            assert(exact_at(out@, out@[i].0@, i));
                        }
                    }
                }
            }
        }
        proof {
            done = done + 1;
        }
    }
    proof {
        assert(all.subrange(0, all.len() as int) =~= all);
    }
    out
}

proof fn lemma_attributed_push(es: Seq<(String, u64)>, e: (String, u64), id: Seq<char>)
    ensures
        attributed(es.push(e), id) == (attributed(es, id) || e.0@ == id),
{
    if attributed(es.push(e), id) {
        let i = choose|i: int| 0 <= i < es.push(e).len() && (#[trigger] es.push(e)[i].0@) == id;
        if i < es.len() {
            assert(es[i].0@ == id);
        } else {
            assert(es.push(e)[i] == e);
        }
    }
    if attributed(es, id) {
        let i = choose|i: int| 0 <= i < es.len() && (#[trigger] es[i].0@) == id;
        assert(es.push(e)[i].0@ == id);
    }
    if e.0@ == id {
        assert(es.push(e)[es.len() as int].0@ == id);
    }
}

proof fn lemma_unattributed_zero(es: Seq<(String, u64)>, id: Seq<char>)
    requires
        !attributed(es, id),
    ensures
        acc_value(es, id) == 0,
    decreases es.len(),
{
    if es.len() > 0 {
        assert(!attributed(es.drop_last(), id)) by {
            if attributed(es.drop_last(), id) {
                let i = choose|i: int|
                    0 <= i < es.drop_last().len() && (#[trigger] es.drop_last()[i].0@) == id;
                assert(es[i].0@ == id);
            }
        }
        lemma_unattributed_zero(es.drop_last(), id);
        assert(es.last().0@ != id) by {
            assert(es[es.len() - 1] == es.last());
        }
    }
}

/// The host GPU memory usage a probe output denotes, in hundredths of a
/// percent: used over total from the first line's "used, total" pair; absent
/// when the line does not parse or the total is zero.
pub open spec fn vram_centi_of(text: Seq<char>) -> Option<int> {
    match csv_pair(split_seq(text, '\n')[0]) {
        Some((used, total)) => if total > 0 {
            Some(mem_centi_spec(used, total))
        } else {
            None
        },
        None => None,
    }
}

/// Parse the host GPU probe output ("used, total" on the first line) into a
/// usage percentage.
pub fn parse_vram_percent(text: &str) -> (r: Option<u64>)
    ensures
        match r {
            Some(v) => vram_centi_of(text@) == Some(v as int),
            None => vram_centi_of(text@) is None,
        },
{
    let lines = split_char(text, '\n');
    proof {
        crate::text::lemma_split_len(text@, '\n');
        assert(lines@.map_values(|p: String| p@)[0] == split_seq(text@, '\n')[0]);
    }
    match parse_csv_pair(lines[0].as_str()) {
        Some((used, total)) => {
            if total > 0 {
                Some(ratio_centi(used, total, 1))
            } else {
                None
            }
        },
        None => None,
    }
}

} // verus!

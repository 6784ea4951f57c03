//! The reconciliation engine: owns the canonical entity list, the bounded
//! history store, the system snapshot and the GPU cache; runs independently
//! clocked refresh cycles; merges partial poll results without corrupting
//! unrelated state; and keeps the projected view and its cursor consistent.
//!
//! All I/O is the caller's: the engine decides what is due, and merges the
//! plain values the caller fetched.

use vstd::prelude::*;
use crate::entity::{ContainerInfo, ContainerStats, SystemStats};
use crate::history::{record_step, StatsHistory};
use crate::projection::{first_entity_row_result, grouped_rows, last_entity_row_result,
    lemma_grouped_rows_range, lemma_visible_indices_range, next_row_result, prev_row_result,
    project_flat, project_grouped, repair_cursor, repair_result, visible_indices, ContainerList,
    Row};
use crate::stats::{lookup_result, lookup_vram};
use crate::status::StatusFilter;
use crate::viewstate::FilterBar;

verus! {

/// Which refresh class a tick should perform: the full entity list has
/// priority over the lighter metrics-only pass.
#[derive(Debug, Clone, Copy, PartialEq, Eq, Structural)]
pub enum RefreshKind {
    FullList,
    MetricsOnly,
    NoRefresh,
}

/// One host-wide probe reading, in plain values.
pub struct HostSample {
    /// Host CPU usage in hundredths of a percent.
    pub cpu_centi_percent: u64,
    pub memory_used_bytes: u64,
    pub memory_total_bytes: u64,
    pub disk_used_bytes: u64,
    pub disk_total_bytes: u64,
}

/// One GPU probe reading: host-wide usage and the per-container table.
pub struct GpuSample {
    /// Host GPU memory usage in hundredths of a percent, absent when the
    /// probe found no GPU.
    pub vram_centi_percent: Option<u64>,
    /// GPU memory per container id, in MB.
    pub table: Vec<(String, u64)>,
}

/// The reconciliation engine.
pub struct Engine {
    /// Canonical entity list, wholly replaced each full refresh.
    pub containers: Vec<ContainerInfo>,
    /// Bounded per-entity history series.
    pub history: StatsHistory,
    /// Host snapshot, wholly replaced each system refresh.
    pub system: SystemStats,
    /// Free-text filter.
    pub filter: FilterBar,
    /// Status filter mode.
    pub status_filter: StatusFilter,
    /// Projected rows, derived from the canonical list and the filters.
    pub rows: Vec<Row>,
    /// Selection cursor over the rows.
    pub list: ContainerList,
    /// Name of the selected entity, the stable identity the cursor tracks.
    pub selected_name: Option<String>,
    /// Cached host GPU reading, reused between GPU refreshes.
    pub cached_vram: Option<u64>,
    /// Cached per-container GPU memory table (id, MB).
    pub gpu_table: Vec<(String, u64)>,
    /// When each refresh class last ran, milliseconds on the caller's clock.
    pub last_list_ms: u64,
    pub last_metrics_ms: u64,
    pub last_gpu_ms: u64,
    pub last_logs_ms: u64,
    /// The cadence of each refresh class, in milliseconds.
    pub list_interval_ms: u64,
    pub metrics_interval_ms: u64,
    pub gpu_interval_ms: u64,
    pub logs_interval_ms: u64,
}

/// The merged form of one entity after a refresh pass: untouched when its
/// metrics fetch failed, otherwise the fetched snapshot attached with the
/// GPU memory looked up in the cached table.
pub open spec fn merged_entity(
    gpu: Seq<(String, u64)>,
    e_out: ContainerInfo,
    e_in: ContainerInfo,
    m: Option<ContainerStats>,
) -> bool {
    match m {
        None => e_out == e_in,
        Some(mm) => exists|v: Option<u64>|
            #![trigger lookup_result(gpu, e_in.id@, v)]
            lookup_result(gpu, e_in.id@, v) && e_out == ContainerInfo {
                stats: Some(ContainerStats { vram_usage_mb: v, ..mm }),
                ..e_in
            },
    }
}

/// The sample a metric snapshot records into the CPU series.
pub open spec fn cpu_sample_of(m: ContainerStats) -> u64 {
    m.cpu_centi_percent
}

/// The sample a metric snapshot records into the memory series.
pub open spec fn mem_sample_of(m: ContainerStats) -> u64 {
    m.memory_centi_percent
}

/// The metric snapshot of the only sampled entity named `n`, when exactly
/// one slot samples that name.
pub open spec fn uniquely_sampled(
    ents: Seq<ContainerInfo>,
    metrics: Seq<Option<ContainerStats>>,
    i: int,
) -> bool {
    &&& 0 <= i < ents.len()
    &&& metrics[i] is Some
    &&& forall|j: int|
        0 <= j < ents.len() && j != i ==> !((#[trigger] ents[j].name@) == ents[i].name@
            && metrics[j] is Some)
}

/// A name is sampled by this refresh: some entity of that name has a
/// fetched snapshot.
pub open spec fn name_sampled(
    ents: Seq<ContainerInfo>,
    metrics: Seq<Option<ContainerStats>>,
    n: Seq<char>,
) -> bool {
    exists|i: int|
        0 <= i < ents.len() && (#[trigger] ents[i].name@) == n && metrics[i] is Some
}

impl Engine {
    /// The query the projection filters by.
    pub open spec fn query(self) -> Seq<char> {
        self.filter.query@
    }

    /// The rows the current canonical list and filters project to.
    pub open spec fn rows_spec(self) -> Seq<Row> {
        let idxs = visible_indices(self.containers@, self.query(), self.status_filter);
        if self.status_filter == StatusFilter::Groups {
            grouped_rows(self.containers@, idxs)
        } else {
            idxs.map_values(|j: usize| Row::Entity(j))
        }
    }

    /// The cursor points at an entity row of the projection.
    pub open spec fn cursor_ok(self) -> bool {
        match self.list.selected {
            Some(k) => k < self.rows@.len() && self.rows@[k as int] is Entity && self.rows@[
                k as int
            ]->Entity_0 < self.containers@.len(),
            None => true,
        }
    }

    /// Engine invariant: a well-formed history, a projection consistent with
    /// the canonical list and filters, and a cursor that points at an entity
    /// row.
    pub open spec fn wf(self) -> bool {
        &&& self.history.wf()
        &&& self.rows@ == self.rows_spec()
        &&& self.cursor_ok()
    }

    /// The cached per-container GPU memory table.
    pub open spec fn gpu_table_view(self) -> Seq<(String, u64)> {
        self.gpu_table@
    }

    /// The cached host GPU usage reading.
    pub open spec fn vram_cache(self) -> Option<u64> {
        self.cached_vram
    }

    /// The name the selection is tracked by.
    pub open spec fn selection(self) -> Option<Seq<char>> {
        self.selected_name.deep_view()
    }

    /// A full entity-list refresh is due.
    pub open spec fn list_due(self, now: u64) -> bool {
        now >= self.last_list_ms + self.list_interval_ms
    }

    /// A metrics-only refresh is due.
    pub open spec fn metrics_due(self, now: u64) -> bool {
        now >= self.last_metrics_ms + self.metrics_interval_ms
    }

    /// A GPU probe refresh is due.
    pub open spec fn gpu_due_spec(self, now: u64) -> bool {
        now >= self.last_gpu_ms + self.gpu_interval_ms
    }

    /// A log-tail refresh is due.
    pub open spec fn logs_due_spec(self, now: u64) -> bool {
        now >= self.last_logs_ms + self.logs_interval_ms
    }

    /// A fresh engine with the given refresh intervals (milliseconds) and
    /// history capacity; every refresh class starts due at its interval.
    pub fn new(
        list_interval_ms: u64,
        metrics_interval_ms: u64,
        gpu_interval_ms: u64,
        logs_interval_ms: u64,
        history_capacity: usize,
    ) -> (r: Self)
        requires
            history_capacity >= 1,
        ensures
            r.wf(),
            r.containers@.len() == 0,
            r.rows@.len() == 0,
            r.list.selected is None,
            r.status_filter == StatusFilter::All,
            r.query().len() == 0,
            !r.filter.active,
            r.history.capacity() == history_capacity,
            r.vram_cache() is None,
            r.gpu_table_view().len() == 0,
            r.selection() is None,
            r.last_list_ms == 0 && r.last_metrics_ms == 0 && r.last_gpu_ms == 0
                && r.last_logs_ms == 0,
            r.list_interval_ms == list_interval_ms,
            r.metrics_interval_ms == metrics_interval_ms,
            r.gpu_interval_ms == gpu_interval_ms,
            r.logs_interval_ms == logs_interval_ms,
    {
        let r = Engine {
            containers: Vec::new(),
            history: StatsHistory::new(history_capacity),
            system: SystemStats::default(),
            filter: FilterBar::new(),
            status_filter: StatusFilter::All,
            rows: Vec::new(),
            list: ContainerList::new(),
            selected_name: None,
            cached_vram: None,
            gpu_table: Vec::new(),
            last_list_ms: 0,
            last_metrics_ms: 0,
            last_gpu_ms: 0,
            last_logs_ms: 0,
            list_interval_ms,
            metrics_interval_ms,
            gpu_interval_ms,
            logs_interval_ms,
        };
        proof {
            assert(r.rows@ =~= r.rows_spec());
        }
        r
    }

    /// The entity-list refresh cadence has elapsed.
    pub fn should_refresh_containers(&self, now: u64) -> (r: bool)
        ensures
            r == self.list_due(now),
    {
        now >= self.last_list_ms && now - self.last_list_ms >= self.list_interval_ms
    }

    /// The metrics refresh cadence has elapsed.
    pub fn should_refresh_stats(&self, now: u64) -> (r: bool)
        ensures
            r == self.metrics_due(now),
    {
        now >= self.last_metrics_ms && now - self.last_metrics_ms >= self.metrics_interval_ms
    }

    /// The GPU probe cadence has elapsed.
    pub fn gpu_due(&self, now: u64) -> (r: bool)
        ensures
            r == self.gpu_due_spec(now),
    {
        now >= self.last_gpu_ms && now - self.last_gpu_ms >= self.gpu_interval_ms
    }

    /// The log-tail cadence has elapsed.
    pub fn logs_due(&self, now: u64) -> (r: bool)
        ensures
            r == self.logs_due_spec(now),
    {
        now >= self.last_logs_ms && now - self.last_logs_ms >= self.logs_interval_ms
    }

    /// Mark the log tail as refreshed at `now`.
    pub fn mark_logs_refreshed(&mut self, now: u64)
        requires
            old(self).wf(),
        ensures
            final(self).wf(),
            final(self).last_logs_ms == now,
            final(self).containers == old(self).containers,
            final(self).rows == old(self).rows,
            final(self).list == old(self).list,
    {
        self.last_logs_ms = now;
    }

    /// Which refresh class this tick should perform: the full list when its
    /// cadence has elapsed, else the lighter metrics-only pass when its own
    /// cadence has, else none. Each class is gated only by its own clock.
    pub fn tick_refresh_kind(&self, now: u64) -> (r: RefreshKind)
        ensures
            r == (if self.list_due(now) {
                RefreshKind::FullList
            } else if self.metrics_due(now) {
                RefreshKind::MetricsOnly
            } else {
                RefreshKind::NoRefresh
            }),
    {
        if self.should_refresh_containers(now) {
            RefreshKind::FullList
        } else if self.should_refresh_stats(now) {
            RefreshKind::MetricsOnly
        } else {
            RefreshKind::NoRefresh
        }
    }

    /// Recompute the projected rows and repair the cursor.
    ///
    /// The previously selected entity, tracked by name, keeps the selection
    /// whenever it is still visible; otherwise the cursor clamps to the
    /// first selectable row, and stays unset in a projection without one.
    pub fn update_filtered_indices(&mut self)
        requires
            old(self).history.wf(),
        ensures
            final(self).wf(),
            final(self).rows@ == final(self).rows_spec(),
            repair_result(
                final(self).rows@,
                final(self).containers@,
                old(self).selection(),
                final(self).list.selected,
            ),
            final(self).containers == old(self).containers,
            final(self).history == old(self).history,
            final(self).system == old(self).system,
            final(self).filter == old(self).filter,
            final(self).status_filter == old(self).status_filter,
            final(self).gpu_table_view() == old(self).gpu_table_view(),
            final(self).vram_cache() == old(self).vram_cache(),
            final(self).last_list_ms == old(self).last_list_ms,
            final(self).last_metrics_ms == old(self).last_metrics_ms,
            final(self).last_gpu_ms == old(self).last_gpu_ms,
            final(self).list_interval_ms == old(self).list_interval_ms,
            final(self).metrics_interval_ms == old(self).metrics_interval_ms,
            final(self).gpu_interval_ms == old(self).gpu_interval_ms,
    {
        let idxs = crate::projection::filter_indices(
            &self.containers,
            self.filter.query.as_str(),
            self.status_filter,
        );
        proof {
            lemma_visible_indices_range(self.containers@, self.filter.query@, self.status_filter);
        }
        let rows = if matches!(self.status_filter, StatusFilter::Groups) {
            let r = project_grouped(&self.containers, idxs);
            proof {
                lemma_grouped_rows_range(
                    self.containers@,
                    visible_indices(self.containers@, self.filter.query@, self.status_filter),
                );
            }
            r
        } else {
            project_flat(idxs)
        };
        proof {
            assert(forall|k: int|
                0 <= k < rows@.len() && (#[trigger] rows@[k]) is Entity ==> rows@[k]->Entity_0
                    < self.containers@.len());
        }
        let sel = repair_cursor(&self.containers, &rows, &self.selected_name);
        self.rows = rows;
        self.list.selected = sel;
        self.sync_selected_name();
    }

    /// Set `selected_name` to the name of the entity under the cursor.
    fn sync_selected_name(&mut self)
        requires
            old(self).cursor_ok(),
        ensures
            final(self).cursor_ok(),
            *final(self) == (Engine { selected_name: final(self).selected_name, ..*old(self) }),
            match final(self).list.selected {
                Some(k) => final(self).selection() == Some(
                    final(self).containers@[final(self).rows@[k as int]->Entity_0 as int].name@,
                ),
                None => final(self).selection() is None,
            },
    {
        match self.list.selected() {
            Some(k) => {
                match self.rows[k].entity_index() {
                    Some(i) => {
                        self.selected_name = Some(self.containers[i].name.clone());
                    },
                    None => {
                        self.selected_name = None;
                    },
                }
            },
            None => {
                self.selected_name = None;
            },
        }
    }

    /// Merge fetched metric snapshots into the canonical list, one slot per
    /// entity: a missing snapshot (that entity's fetch failed or was
    /// skipped) leaves that entity untouched, every fetched snapshot is
    /// recorded into the history and attached with the cached GPU reading.
    fn merge_samples(&mut self, metrics: &Vec<Option<ContainerStats>>)
        requires
            old(self).history.wf(),
            metrics@.len() == old(self).containers@.len(),
        ensures
            final(self).history.wf(),
            final(self).history.capacity() == old(self).history.capacity(),
            final(self).containers@.len() == old(self).containers@.len(),
            forall|i: int|
                0 <= i < metrics@.len() ==> merged_entity(
                    old(self).gpu_table_view(),
                    #[trigger] final(self).containers@[i],
                    old(self).containers@[i],
                    metrics@[i],
                ),
            forall|n: Seq<char>|
                !name_sampled(old(self).containers@, metrics@, n) ==> final(self).history.cpu_of(n) == old(self).history.cpu_of(n) && final(self).history.mem_of(
                    n,
                ) == old(self).history.mem_of(n),
            forall|i: int|
                uniquely_sampled(old(self).containers@, metrics@, i) ==> final(self).history.cpu_of(#[trigger] old(self).containers@[i].name@) == record_step(
                    old(self).history.cpu_of(old(self).containers@[i].name@),
                    cpu_sample_of(metrics@[i]->Some_0),
                    old(self).history.capacity(),
                ) && final(self).history.mem_of(old(self).containers@[i].name@) == record_step(
                    old(self).history.mem_of(old(self).containers@[i].name@),
                    mem_sample_of(metrics@[i]->Some_0),
                    old(self).history.capacity(),
                ),
            *final(self) == (Engine {
                containers: final(self).containers,
                history: final(self).history,
                ..*old(self)
            }),
    {
        let ghost ents0 = self.containers@;
        let ghost h0 = self.history;
        let n = self.containers.len();
        let mut i: usize = 0;
        while i < n
            invariant
                n == self.containers@.len(),
                n == ents0.len(),
                n == metrics@.len(),
                0 <= i <= n,
                self.history.wf(),
                self.history.capacity() == h0.capacity(),
                forall|k: int|
                    0 <= k < i ==> merged_entity(
                        self.gpu_table@,
                        #[trigger] self.containers@[k],
                        ents0[k],
                        metrics@[k],
                    ),
                forall|k: int| i <= k < n ==> self.containers@[k] == #[trigger] ents0[k],
                forall|nm: Seq<char>|
                    !name_sampled(ents0.subrange(0, i as int), metrics@, nm) ==> self.history.cpu_of(
                        nm,
                    ) == h0.cpu_of(nm) && self.history.mem_of(nm) == h0.mem_of(nm),
                forall|k: int|
                    uniquely_sampled(ents0, metrics@, k) && k < i ==> self.history.cpu_of(
                        #[trigger] ents0[k].name@,
                    ) == record_step(
                        h0.cpu_of(ents0[k].name@),
                        cpu_sample_of(metrics@[k]->Some_0),
                        h0.capacity(),
                    ) && self.history.mem_of(ents0[k].name@) == record_step(
                        h0.mem_of(ents0[k].name@),
                        mem_sample_of(metrics@[k]->Some_0),
                        h0.capacity(),
                    ),
                *self == (Engine {
                    containers: self.containers,
                    history: self.history,
                    ..*old(self)
                }),
            decreases n - i,
        {
            let ghost hist_pre = self.history;
            match metrics[i] {
                Some(m) => {
                    let mut e = self.containers.remove(i);
                    self.history.record_cpu(e.name.as_str(), m.cpu_centi_percent);
                    self.history.record_mem(e.name.as_str(), m.memory_centi_percent);
                    let mut m2 = m;
                    m2.vram_usage_mb = lookup_vram(&self.gpu_table, e.id.as_str());
                    e.stats = Some(m2);
                    self.containers.insert(i, e);
                    proof {
                        assert(merged_entity(
                            self.gpu_table@,
                            self.containers@[i as int],
                            ents0[i as int],
                            metrics@[i as int],
                        ));
                        assert(name_sampled(ents0.subrange(0, i + 1), metrics@, ents0[i as int].name@))
                            by {
                            assert(ents0.subrange(0, i + 1)[i as int].name@ == ents0[
                                i as int].name@);
                        }
                        assert forall|nm: Seq<char>|
                            !name_sampled(ents0.subrange(0, i + 1), metrics@, nm) implies
                            self.history.cpu_of(nm) == h0.cpu_of(nm) && self.history.mem_of(nm)
                            == h0.mem_of(nm) by {
                            assert(!name_sampled(ents0.subrange(0, i as int), metrics@, nm)) by {
                                if name_sampled(ents0.subrange(0, i as int), metrics@, nm) {
                                    let w = choose|w: int|
                                        0 <= w < i && (#[trigger] ents0.subrange(
                                            0,
                                            i as int,
                                        )[w].name@) == nm && metrics@[w] is Some;
                                    assert(ents0.subrange(0, i + 1)[w].name@ == nm);
                                }
                            }
                            assert(nm != ents0[i as int].name@) by {
                                if nm == ents0[i as int].name@ {
                                    assert(name_sampled(ents0.subrange(0, i + 1), metrics@, nm));
                                }
                            }
                        }
                        assert forall|k: int|
                            uniquely_sampled(ents0, metrics@, k) && k < i + 1 implies
                            self.history.cpu_of(#[trigger] ents0[k].name@) == record_step(
                                h0.cpu_of(ents0[k].name@),
                                cpu_sample_of(metrics@[k]->Some_0),
                                h0.capacity(),
                            ) && self.history.mem_of(ents0[k].name@) == record_step(
                                h0.mem_of(ents0[k].name@),
                                mem_sample_of(metrics@[k]->Some_0),
                                h0.capacity(),
                            ) by {
                            if k == i {
                                // This step recorded the samples; nothing
                                // before this slot had sampled the name.
                                assert(!name_sampled(
                                    ents0.subrange(0, i as int),
                                    metrics@,
                                    ents0[i as int].name@,
                                )) by {
                                    if name_sampled(
                                        ents0.subrange(0, i as int),
                                        metrics@,
                                        ents0[i as int].name@,
                                    ) {
                                        let w = choose|w: int|
                                            0 <= w < i && (#[trigger] ents0.subrange(
                                                0,
                                                i as int,
                                            )[w].name@) == ents0[i as int].name@ && metrics@[w]
                                                is Some;
                                        assert(ents0[w].name@ == ents0[i as int].name@);
                                    }
                                }
                            } else {
                                assert(ents0[k].name@ != ents0[i as int].name@);
                            }
                        }
                    }
                },
                None => {
                    proof {
                        assert(merged_entity(
                            self.gpu_table@,
                            self.containers@[i as int],
                            ents0[i as int],
                            metrics@[i as int],
                        ));
                        assert(forall|k: int|
                            uniquely_sampled(ents0, metrics@, k) && k < i + 1 ==> k < i);
                        assert forall|nm: Seq<char>|
                            !name_sampled(ents0.subrange(0, i + 1), metrics@, nm) implies
                            self.history.cpu_of(nm) == h0.cpu_of(nm) && self.history.mem_of(nm)
                            == h0.mem_of(nm) by {
                            assert(!name_sampled(ents0.subrange(0, i as int), metrics@, nm)) by {
                                if name_sampled(ents0.subrange(0, i as int), metrics@, nm) {
                                    let w = choose|w: int|
                                        0 <= w < i && (#[trigger] ents0.subrange(
                                            0,
                                            i as int,
                                        )[w].name@) == nm && metrics@[w] is Some;
                                    assert(ents0.subrange(0, i + 1)[w].name@ == nm);
                                }
                            }
                        }
                    }
                },
            }
            i = i + 1;
        }
        proof {
            assert(ents0.subrange(0, n as int) =~= ents0);
            assert forall|nm: Seq<char>|
                !name_sampled(ents0, metrics@, nm) implies self.history.cpu_of(nm) == h0.cpu_of(
                nm,
            ) && self.history.mem_of(nm) == h0.mem_of(nm) by {
                assert(!name_sampled(ents0.subrange(0, n as int), metrics@, nm)) by {
                    if name_sampled(ents0.subrange(0, n as int), metrics@, nm) {
                        let w = choose|w: int|
                            0 <= w < n && (#[trigger] ents0.subrange(0, n as int)[w].name@) == nm
                                && metrics@[w] is Some;
                        assert(ents0[w].name@ == nm);
                    }
                }
            }
        }
    }

    /// Apply a full entity-list refresh: the canonical list is wholly
    /// replaced by the fetched entities, each fetched metric snapshot is
    /// recorded and attached (a failed per-entity fetch leaves that single
    /// entity without metrics), the projection is recomputed and the cursor
    /// repaired by name.
    pub fn apply_list_refresh(
        &mut self,
        now: u64,
        entities: Vec<ContainerInfo>,
        metrics: &Vec<Option<ContainerStats>>,
    )
        requires
            old(self).wf(),
            metrics@.len() == entities@.len(),
        ensures
            final(self).wf(),
            final(self).containers@.len() == entities@.len(),
            forall|i: int|
                0 <= i < metrics@.len() ==> merged_entity(
                    old(self).gpu_table_view(),
                    #[trigger] final(self).containers@[i],
                    entities@[i],
                    metrics@[i],
                ),
            forall|n: Seq<char>|
                !name_sampled(entities@, metrics@, n) ==> final(self).history.cpu_of(n) == old(self).history.cpu_of(n) && final(self).history.mem_of(n) == old(self).history.mem_of(
                    n,
                ),
            forall|i: int|
                uniquely_sampled(entities@, metrics@, i) ==> final(self).history.cpu_of(
                    #[trigger] entities@[i].name@,
                ) == record_step(
                    old(self).history.cpu_of(entities@[i].name@),
                    cpu_sample_of(metrics@[i]->Some_0),
                    old(self).history.capacity(),
                ) && final(self).history.mem_of(entities@[i].name@) == record_step(
                    old(self).history.mem_of(entities@[i].name@),
                    mem_sample_of(metrics@[i]->Some_0),
                    old(self).history.capacity(),
                ),
            final(self).last_list_ms == now,
            final(self).last_metrics_ms == old(self).last_metrics_ms,
            final(self).last_gpu_ms == old(self).last_gpu_ms,
            final(self).rows@ == final(self).rows_spec(),
            repair_result(
                final(self).rows@,
                final(self).containers@,
                old(self).selection(),
                final(self).list.selected,
            ),
            final(self).gpu_table_view() == old(self).gpu_table_view(),
            final(self).vram_cache() == old(self).vram_cache(),
            final(self).system == old(self).system,
            final(self).status_filter == old(self).status_filter,
            final(self).filter == old(self).filter,
    {
        self.containers = entities;
        self.merge_samples(metrics);
        self.last_list_ms = now;
        self.update_filtered_indices();
    }

    /// Apply a metrics-only refresh: no re-listing, each fetched snapshot is
    /// merged into the existing canonical entity in place, then the
    /// projection is refreshed.
    pub fn apply_metrics_refresh(&mut self, now: u64, metrics: &Vec<Option<ContainerStats>>)
        requires
            old(self).wf(),
            metrics@.len() == old(self).containers@.len(),
        ensures
            final(self).wf(),
            final(self).containers@.len() == old(self).containers@.len(),
            forall|i: int|
                0 <= i < metrics@.len() ==> merged_entity(
                    old(self).gpu_table_view(),
                    #[trigger] final(self).containers@[i],
                    old(self).containers@[i],
                    metrics@[i],
                ),
            forall|n: Seq<char>|
                !name_sampled(old(self).containers@, metrics@, n) ==> final(self).history.cpu_of(
                    n,
                ) == old(self).history.cpu_of(n) && final(self).history.mem_of(n) == old(self).history.mem_of(n),
            forall|i: int|
                uniquely_sampled(old(self).containers@, metrics@, i) ==> final(self).history.cpu_of(#[trigger] old(self).containers@[i].name@) == record_step(
                    old(self).history.cpu_of(old(self).containers@[i].name@),
                    cpu_sample_of(metrics@[i]->Some_0),
                    old(self).history.capacity(),
                ) && final(self).history.mem_of(old(self).containers@[i].name@) == record_step(
                    old(self).history.mem_of(old(self).containers@[i].name@),
                    mem_sample_of(metrics@[i]->Some_0),
                    old(self).history.capacity(),
                ),
            final(self).last_metrics_ms == now,
            final(self).last_list_ms == old(self).last_list_ms,
            final(self).last_gpu_ms == old(self).last_gpu_ms,
    {
        self.merge_samples(metrics);
        self.last_metrics_ms = now;
        self.update_filtered_indices();
    }

    /// Apply a host snapshot. The GPU reading refreshes on its own slower
    /// cadence: when no fresh GPU sample is handed in, the cached reading is
    /// reused verbatim and never reset to empty.
    pub fn apply_system_sample(&mut self, now: u64, host: HostSample, gpu: Option<GpuSample>)
        requires
            old(self).wf(),
        ensures
            final(self).wf(),
            final(self).system.cpu_centi_percent == host.cpu_centi_percent,
            final(self).system.memory_used_bytes == host.memory_used_bytes,
            final(self).system.memory_total_bytes == host.memory_total_bytes,
            final(self).system.memory_centi_percent as int == crate::stats::mem_centi_spec(
                host.memory_used_bytes as int,
                host.memory_total_bytes as int,
            ),
            final(self).system.disk_centi_percent as int == crate::stats::mem_centi_spec(
                host.disk_used_bytes as int,
                host.disk_total_bytes as int,
            ),
            match gpu {
                Some(ref g) => final(self).vram_cache() == g.vram_centi_percent && final(self).gpu_table_view() == g.table@ && final(self).last_gpu_ms == now,
                None => final(self).vram_cache() == old(self).vram_cache() && final(self).gpu_table_view() == old(self).gpu_table_view() && final(self).last_gpu_ms
                    == old(self).last_gpu_ms,
            },
            final(self).system.vram_centi_percent == final(self).vram_cache(),
            final(self).containers == old(self).containers,
            final(self).rows == old(self).rows,
            final(self).list == old(self).list,
            final(self).history == old(self).history,
            final(self).last_list_ms == old(self).last_list_ms,
            final(self).last_metrics_ms == old(self).last_metrics_ms,
    {
        match gpu {
            Some(g) => {
                self.cached_vram = g.vram_centi_percent;
                self.gpu_table = g.table;
                self.last_gpu_ms = now;
            },
            None => {},
        }
        let memory_centi_percent = crate::stats::percent_centi(
            host.memory_used_bytes,
            host.memory_total_bytes,
        );
        let disk_centi_percent = crate::stats::percent_centi(
            host.disk_used_bytes,
            host.disk_total_bytes,
        );
        self.system = SystemStats {
            cpu_centi_percent: host.cpu_centi_percent,
            memory_used_bytes: host.memory_used_bytes,
            memory_total_bytes: host.memory_total_bytes,
            memory_centi_percent,
            disk_used_bytes: host.disk_used_bytes,
            disk_total_bytes: host.disk_total_bytes,
            disk_centi_percent,
            vram_centi_percent: self.cached_vram,
        };
    }

    /// Move the selection down one selectable row, skipping headers and
    /// wrapping past the end.
    pub fn select_next(&mut self)
        requires
            old(self).wf(),
        ensures
            final(self).wf(),
            final(self).containers == old(self).containers,
            final(self).rows == old(self).rows,
            match old(self).list.selected {
                Some(cur) => next_row_result(
                    final(self).rows@,
                    cur as int,
                    final(self).list.selected,
                ),
                None => first_entity_row_result(final(self).rows@, final(self).list.selected),
            },
    {
        self.list.next(&self.rows);
        proof {
            lemma_rows_valid(*self);
        }
        self.sync_selected_name();
    }

    /// Move the selection up one selectable row, skipping headers and
    /// wrapping past the start.
    pub fn select_previous(&mut self)
        requires
            old(self).wf(),
        ensures
            final(self).wf(),
            final(self).containers == old(self).containers,
            final(self).rows == old(self).rows,
            match old(self).list.selected {
                Some(cur) => prev_row_result(
                    final(self).rows@,
                    cur as int,
                    final(self).list.selected,
                ),
                None => first_entity_row_result(final(self).rows@, final(self).list.selected),
            },
    {
        self.list.previous(&self.rows);
        proof {
            lemma_rows_valid(*self);
        }
        self.sync_selected_name();
    }

    /// Jump the selection to the first selectable row.
    pub fn select_top(&mut self)
        requires
            old(self).wf(),
        ensures
            final(self).wf(),
            final(self).containers == old(self).containers,
            final(self).rows == old(self).rows,
            first_entity_row_result(final(self).rows@, final(self).list.selected),
    {
        self.list.top(&self.rows);
        proof {
            lemma_rows_valid(*self);
        }
        self.sync_selected_name();
    }

    /// Jump the selection to the last selectable row.
    pub fn select_bottom(&mut self)
        requires
            old(self).wf(),
        ensures
            final(self).wf(),
            final(self).containers == old(self).containers,
            final(self).rows == old(self).rows,
            last_entity_row_result(final(self).rows@, final(self).list.selected),
    {
        self.list.bottom(&self.rows);
        proof {
            lemma_rows_valid(*self);
        }
        self.sync_selected_name();
    }

    /// The canonical index of the entity under the cursor.
    pub fn selected_index(&self) -> (r: Option<usize>)
        requires
            self.wf(),
        ensures
            match self.list.selected {
                Some(k) => r == Some(self.rows@[k as int]->Entity_0) && r->Some_0
                    < self.containers@.len(),
                None => r is None,
            },
    {
        match self.list.selected() {
            Some(k) => self.rows[k].entity_index(),
            None => None,
        }
    }

    /// The entity under the cursor.
    pub fn selected_container(&self) -> (r: Option<&ContainerInfo>)
        requires
            self.wf(),
        ensures
            match self.list.selected {
                Some(k) => r is Some && *r->Some_0 == self.containers@[self.rows@[
                    k as int
                ]->Entity_0 as int],
                None => r is None,
            },
    {
        match self.selected_index() {
            Some(i) => Some(&self.containers[i]),
            None => None,
        }
    }

    /// The name of the entity under the cursor.
    pub fn selected_container_name(&self) -> (r: Option<String>)
        requires
            self.wf(),
        ensures
            match self.list.selected {
                Some(k) => r is Some && r->Some_0@ == self.containers@[self.rows@[
                    k as int
                ]->Entity_0 as int].name@,
                None => r is None,
            },
    {
        match self.selected_container() {
            Some(c) => Some(c.name.clone()),
            None => None,
        }
    }

    /// Cycle the status filter and reproject.
    pub fn cycle_status_filter(&mut self)
        requires
            old(self).wf(),
        ensures
            final(self).wf(),
            final(self).status_filter == old(self).status_filter.cycle(),
            final(self).containers == old(self).containers,
            final(self).rows@ == final(self).rows_spec(),
            repair_result(
                final(self).rows@,
                final(self).containers@,
                old(self).selection(),
                final(self).list.selected,
            ),
    {
        self.status_filter = self.status_filter.cycle();
        self.update_filtered_indices();
    }

    /// Append a character to the filter query and reproject. The previously
    /// selected entity keeps the selection whenever the narrowed projection
    /// still shows it.
    pub fn filter_type_char(&mut self, c: char)
        requires
            old(self).wf(),
        ensures
            final(self).wf(),
            final(self).query() == old(self).query().push(c),
            final(self).containers == old(self).containers,
            repair_result(
                final(self).rows@,
                final(self).containers@,
                old(self).selection(),
                final(self).list.selected,
            ),
    {
        self.filter.type_char(c);
        self.update_filtered_indices();
    }

    /// Remove the last character of the filter query and reproject.
    pub fn filter_backspace(&mut self)
        requires
            old(self).wf(),
        ensures
            final(self).wf(),
            final(self).containers == old(self).containers,
            repair_result(
                final(self).rows@,
                final(self).containers@,
                old(self).selection(),
                final(self).list.selected,
            ),
    {
        self.filter.backspace();
        self.update_filtered_indices();
    }

    /// Hide the filter bar, clear the query and reproject.
    pub fn filter_deactivate(&mut self)
        requires
            old(self).wf(),
        ensures
            final(self).wf(),
            final(self).query().len() == 0,
            !final(self).filter.active,
            final(self).containers == old(self).containers,
    {
        self.filter.deactivate();
        self.update_filtered_indices();
    }

    /// Show the filter bar.
    pub fn filter_activate(&mut self)
        requires
            old(self).wf(),
        ensures
            final(self).wf(),
            final(self).filter.active,
            final(self).query() == old(self).query(),
            final(self).containers == old(self).containers,
            final(self).rows == old(self).rows,
    {
        self.filter.activate();
    }
}

/// Every entity row of a consistent projection references a canonical
/// entity.
pub proof fn lemma_rows_valid(e: Engine)
    requires
        e.rows@ == e.rows_spec(),
    ensures
        forall|k: int|
            0 <= k < e.rows@.len() && (#[trigger] e.rows@[k]) is Entity ==> e.rows@[k]->Entity_0
                < e.containers@.len(),
{
    let idxs = visible_indices(e.containers@, e.query(), e.status_filter);
    lemma_visible_indices_range(e.containers@, e.query(), e.status_filter);
    if e.status_filter == StatusFilter::Groups {
        lemma_grouped_rows_range(e.containers@, idxs);
    } else {
        assert forall|k: int|
            0 <= k < e.rows@.len() && (#[trigger] e.rows@[k]) is Entity implies e.rows@[
            k]->Entity_0 < e.containers@.len() by {
            assert(e.rows@[k] == Row::Entity(idxs[k]));
        }
    }
}

/// Cadence independence: whether a full list refresh is due depends only on
/// the list clock and the list interval — two engines that agree on those
/// agree on the decision, whatever their metrics and GPU clocks hold.
pub proof fn lemma_cadence_independence(a: Engine, b: Engine, now: u64)
    requires
        a.last_list_ms == b.last_list_ms,
        a.list_interval_ms == b.list_interval_ms,
    ensures
        a.list_due(now) == b.list_due(now),
{
}

} // verus!

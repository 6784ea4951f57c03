//! The filter/grouping view projector: derives the visually ordered rows
//! from the canonical entity list, the free-text filter and the status
//! filter, and keeps the selection cursor stable across reprojections.

use vstd::prelude::*;
use vstd::seq_lib::group_filter_ensures;
use crate::entity::ContainerInfo;
use crate::status::{status_passes, StatusFilter};
use crate::text::{contains_ci, contains_ignore_ascii_case};

verus! {

broadcast use group_filter_ensures;

/// One visual row of the projected list: either a group header (carrying the
/// canonical index of the first entity of the group, whose label it shows) or
/// an entity at a canonical index.
#[derive(Debug, Clone)]
pub enum Row {
    Header(usize),
    Entity(usize),
}

impl Row {
    /// The row is selectable, i.e. an entity row.
    pub fn is_entity(&self) -> (r: bool)
        ensures
            r == (*self is Entity),
    {
        matches!(self, Row::Entity(_))
    }

    /// The canonical entity index of an entity row.
    pub fn entity_index(&self) -> (r: Option<usize>)
        ensures
            match r {
                Some(i) => *self is Entity && i == self->Entity_0,
                None => *self is Header,
            },
    {
        match self {
            Row::Entity(i) => Some(*i),
            Row::Header(_) => None,
        }
    }
}

/// An entity passes the free-text filter: the empty query matches everything,
/// otherwise the query must occur in the name, ignoring ASCII case.
pub open spec fn text_matches(name: Seq<char>, query: Seq<char>) -> bool {
    query.len() == 0 || contains_ci(name, query)
}

/// An entity is visible under the current text query and status filter.
pub open spec fn visible(e: ContainerInfo, query: Seq<char>, f: StatusFilter) -> bool {
    text_matches(e.name@, query) && status_passes(f, e.status)
}

/// The canonical indices of the visible entities, in canonical order.
pub open spec fn visible_indices(ents: Seq<ContainerInfo>, q: Seq<char>, f: StatusFilter) -> Seq<
    usize,
>
    decreases ents.len(),
{
    if ents.len() == 0 {
        Seq::<usize>::empty()
    } else {
        let front = visible_indices(ents.drop_last(), q, f);
        if visible(ents.last(), q, f) {
            front.push((ents.len() - 1) as usize)
        } else {
            front
        }
    }
}

/// Compute the canonical indices of the visible entities, in canonical
/// order: exactly those whose name passes the text filter and whose status
/// passes the status filter.
pub fn filter_indices(entities: &Vec<ContainerInfo>, query: &str, f: StatusFilter) -> (r: Vec<
    usize,
>)
    ensures
        r@ == visible_indices(entities@, query@, f),
        forall|k: int|
            0 <= k < r@.len() ==> (#[trigger] r@[k]) < entities@.len() && visible(
                entities@[r@[k] as int],
                query@,
                f,
            ),
        forall|k: int, l: int| 0 <= k < l < r@.len() ==> r@[k] < r@[l],
        forall|i: int|
            0 <= i < entities@.len() && visible(#[trigger] entities@[i], query@, f)
                ==> exists|k: int| 0 <= k < r@.len() && r@[k] == i,
{
    let mut r: Vec<usize> = Vec::new();
    let n = entities.len();
    let mut i: usize = 0;
    while i < n
        invariant
            n == entities@.len(),
            0 <= i <= n,
            forall|k: int|
                0 <= k < r@.len() ==> (#[trigger] r@[k]) < i && visible(
                    entities@[r@[k] as int],
                    query@,
                    f,
                ),
            forall|k: int, l: int| 0 <= k < l < r@.len() ==> r@[k] < r@[l],
            forall|j: int|
                0 <= j < i && visible(#[trigger] entities@[j], query@, f) ==> exists|k: int|
                    0 <= k < r@.len() && r@[k] == j,
            r@ == visible_indices(entities@.subrange(0, i as int), query@, f),
        decreases n - i,
    {
        proof {
            assert(entities@.subrange(0, i + 1).drop_last() =~= entities@.subrange(0, i as int));
            assert(entities@.subrange(0, i + 1).last() == entities@[i as int]);
        }
        let e = &entities[i];
        let text_ok = if query.is_empty() {
            true
        } else {
            contains_ignore_ascii_case(e.name.as_str(), query)
        };
        let status_ok = match f {
            StatusFilter::All => true,
            StatusFilter::Groups => true,
            StatusFilter::Running => e.status.is_running(),
            StatusFilter::Stopped => !e.status.is_running(),
        };
        if text_ok && status_ok {
            let ghost rpre = r@;
            r.push(i);
            proof {
                assert forall|j: int|
                    0 <= j < i + 1 && visible(#[trigger] entities@[j], query@, f) implies exists|
                    k: int,
                |
                    0 <= k < r@.len() && r@[k] == j by {
                    if j == i {
                        assert(r@[r@.len() - 1] == j);
                    } else {
                        let k = choose|k: int| 0 <= k < rpre.len() && rpre[k] == j;
                        assert(r@[k] == j);
                    }
                }
            }
        }
        i = i + 1;
    }
    proof {
        assert(entities@.subrange(0, n as int) =~= entities@);
    }
    r
}

/// Group label of an entity: its group membership when labelled; entities
/// without a group share the absent label (rendered as "ungrouped").
pub open spec fn label_of(e: ContainerInfo) -> Option<Seq<char>> {
    match e.group {
        Some(g) => Some(g@),
        None => None,
    }
}

/// Two entities belong to the same group.
pub open spec fn same_label(a: ContainerInfo, b: ContainerInfo) -> bool {
    label_of(a) == label_of(b)
}

/// The grouped projection of the visible indices `idxs` over `ents`: for
/// each group value, in order of first appearance, one header row followed by
/// every visible entity of that group, in their original order. A group with
/// no visible entity emits no header.
pub open spec fn grouped_rows(ents: Seq<ContainerInfo>, idxs: Seq<usize>) -> Seq<Row>
    decreases idxs.len(),
    when forall|k: int| 0 <= k < idxs.len() ==> (#[trigger] idxs[k]) < ents.len()
    via grouped_rows_decreases
{
    if idxs.len() == 0 {
        Seq::<Row>::empty()
    } else {
        let l = label_of(ents[idxs[0] as int]);
        let same = idxs.filter(|j: usize| label_of(ents[j as int]) == l);
        let rest = idxs.filter(|j: usize| label_of(ents[j as int]) != l);
        seq![Row::Header(idxs[0])] + same.map_values(|j: usize| Row::Entity(j)) + grouped_rows(
            ents,
            rest,
        )
    }
}

#[via_fn]
proof fn grouped_rows_decreases(ents: Seq<ContainerInfo>, idxs: Seq<usize>) {
    if idxs.len() > 0 {
        let l = label_of(ents[idxs[0] as int]);
        let pred = |j: usize| label_of(ents[j as int]) != l;
        lemma_filter_excludes_head(idxs, pred);
    }
}

proof fn lemma_filter_excludes_head(s: Seq<usize>, pred: spec_fn(usize) -> bool)
    requires
        s.len() > 0,
        !pred(s[0]),
    ensures
        s.filter(pred).len() < s.len(),
{
    let head = seq![s[0]];
    let tail = s.subrange(1, s.len() as int);
    assert(s =~= head + tail);
    Seq::<usize>::filter_distributes_over_add(head, tail, pred);
    assert(head.filter(pred) =~= Seq::<usize>::empty()) by {
        reveal_with_fuel(Seq::filter, 3);
        assert(head.drop_last() =~= Seq::<usize>::empty());
    }
}

/// Every element kept by a filter was an element of the sequence.
proof fn lemma_filter_element_of(s: Seq<usize>, pred: spec_fn(usize) -> bool, i: int)
    requires
        0 <= i < s.filter(pred).len(),
    ensures
        exists|t: int| 0 <= t < s.len() && s[t] == s.filter(pred)[i],
    decreases s.len(),
{
    reveal(Seq::filter);
    if s.len() > 0 {
        let d = s.drop_last();
        if pred(s.last()) && i == s.filter(pred).len() - 1 {
            assert(s[s.len() - 1] == s.filter(pred)[i]);
        } else {
            lemma_filter_element_of(d, pred, i);
            let t = choose|t: int| 0 <= t < d.len() && d[t] == d.filter(pred)[i];
            assert(s[t] == s.filter(pred)[i]);
        }
    }
}

/// Header suppression: the grouped projection holds a header for a group
/// exactly when some visible entity carries that group label — a group
/// emptied by the filters emits no header, and each non-empty group emits
/// its header once per block of first appearance.
pub proof fn lemma_header_iff_group_visible(
    ents: Seq<ContainerInfo>,
    idxs: Seq<usize>,
    g: Option<Seq<char>>,
)
    requires
        forall|k: int| 0 <= k < idxs.len() ==> (#[trigger] idxs[k]) < ents.len(),
    ensures
        (exists|k: int|
            0 <= k < grouped_rows(ents, idxs).len() && (#[trigger] grouped_rows(ents, idxs)[k])
                is Header && label_of(ents[grouped_rows(ents, idxs)[k]->Header_0 as int]) == g)
            <==> (exists|t: int|
            0 <= t < idxs.len() && label_of(ents[#[trigger] idxs[t] as int]) == g),
    decreases idxs.len(),
{
    let rows = grouped_rows(ents, idxs);
    if idxs.len() == 0 {
    } else {
        let l = label_of(ents[idxs[0] as int]);
        let same = idxs.filter(|j: usize| label_of(ents[j as int]) == l);
        let rest = idxs.filter(|j: usize| label_of(ents[j as int]) != l);
        lemma_filter_excludes_head(idxs, |j: usize| label_of(ents[j as int]) != l);
        assert forall|k: int| 0 <= k < rest.len() implies (#[trigger] rest[k]) < ents.len() by {
            lemma_filter_element_of(idxs, |j: usize| label_of(ents[j as int]) != l, k);
        }
        lemma_header_iff_group_visible(ents, rest, g);
        let sub = grouped_rows(ents, rest);
        let pre = 1 + same.len();
        assert(rows.len() == pre + sub.len());
        assert(forall|k: int| 0 <= k < sub.len() ==> rows[pre + k] == sub[k]);
        if g == l {
            // The head element's own group: its header is row 0.
            assert(rows[0] is Header && rows[0]->Header_0 == idxs[0]);
            assert(exists|t: int|
                0 <= t < idxs.len() && label_of(ents[#[trigger] idxs[t] as int]) == g) by {
                assert(label_of(ents[idxs[0] as int]) == g);
            }
        } else {
            if exists|k: int|
                0 <= k < rows.len() && (#[trigger] rows[k]) is Header && label_of(
                    ents[rows[k]->Header_0 as int],
                ) == g {
                let k = choose|k: int|
                    0 <= k < rows.len() && (#[trigger] rows[k]) is Header && label_of(
                        ents[rows[k]->Header_0 as int],
                    ) == g;
                if k == 0 {
                    assert(false);
                } else if k < pre {
                    assert(rows[k] == same.map_values(|j: usize| Row::Entity(j))[k - 1]);
                    assert(false);
                } else {
                    assert(sub[k - pre] == rows[k]);
                    let t = choose|t: int|
                        0 <= t < rest.len() && label_of(ents[#[trigger] rest[t] as int]) == g;
                    lemma_filter_element_of(
                        idxs,
                        |j: usize| label_of(ents[j as int]) != l,
                        t,
                    );
                    let t2 = choose|t2: int| 0 <= t2 < idxs.len() && idxs[t2] == rest[t];
                    assert(label_of(ents[idxs[t2] as int]) == g);
                }
            }
            if exists|t: int|
                0 <= t < idxs.len() && label_of(ents[#[trigger] idxs[t] as int]) == g {
                let t = choose|t: int|
                    0 <= t < idxs.len() && label_of(ents[#[trigger] idxs[t] as int]) == g;
                let pred = |j: usize| label_of(ents[j as int]) != l;
                assert(pred(idxs[t]));
                assert(rest.contains(idxs[t]));
                let t2 = choose|t2: int| 0 <= t2 < rest.len() && rest[t2] == idxs[t];
                assert(label_of(ents[rest[t2] as int]) == g);
                let k = choose|k: int|
                    0 <= k < sub.len() && (#[trigger] sub[k]) is Header && label_of(
                        ents[sub[k]->Header_0 as int],
                    ) == g;
                assert(rows[pre + k] == sub[k]);
            }
        }
    }
}


/// Every visible index is a valid index into the entity list.
pub proof fn lemma_visible_indices_range(ents: Seq<ContainerInfo>, q: Seq<char>, f: StatusFilter)
    ensures
        forall|k: int|
            0 <= k < visible_indices(ents, q, f).len() ==> (#[trigger] visible_indices(
                ents,
                q,
                f,
            )[k]) < ents.len(),
    decreases ents.len(),
{
    if ents.len() > 0 {
        lemma_visible_indices_range(ents.drop_last(), q, f);
        let front = visible_indices(ents.drop_last(), q, f);
        assert forall|k: int|
            0 <= k < visible_indices(ents, q, f).len() implies (#[trigger] visible_indices(
            ents,
            q,
            f,
        )[k]) < ents.len() by {
            if k < front.len() {
                assert(visible_indices(ents, q, f)[k] == front[k]);
            }
        }
    }
}

/// Every row of a grouped projection references one of the projected
/// indices.
pub proof fn lemma_grouped_rows_range(ents: Seq<ContainerInfo>, idxs: Seq<usize>)
    requires
        forall|k: int| 0 <= k < idxs.len() ==> (#[trigger] idxs[k]) < ents.len(),
    ensures
        forall|k: int|
            0 <= k < grouped_rows(ents, idxs).len() ==> match #[trigger] grouped_rows(
                ents,
                idxs,
            )[k] {
                Row::Header(i) => i < ents.len(),
                Row::Entity(i) => i < ents.len(),
            },
    decreases idxs.len(),
{
    broadcast use group_filter_ensures;

    let rows = grouped_rows(ents, idxs);
    if idxs.len() > 0 {
        let l = label_of(ents[idxs[0] as int]);
        let same = idxs.filter(|j: usize| label_of(ents[j as int]) == l);
        let rest = idxs.filter(|j: usize| label_of(ents[j as int]) != l);
        lemma_filter_excludes_head(idxs, |j: usize| label_of(ents[j as int]) != l);
        assert forall|k: int| 0 <= k < same.len() implies (#[trigger] same[k]) < ents.len() by {
            lemma_filter_element_of(idxs, |j: usize| label_of(ents[j as int]) == l, k);
        }
        assert forall|k: int| 0 <= k < rest.len() implies (#[trigger] rest[k]) < ents.len() by {
            lemma_filter_element_of(idxs, |j: usize| label_of(ents[j as int]) != l, k);
        }
        lemma_grouped_rows_range(ents, rest);
        let pre = 1 + same.len();
        assert(forall|k: int|
            0 <= k < grouped_rows(ents, rest).len() ==> rows[pre + k] == #[trigger] grouped_rows(
                ents,
                rest,
            )[k]);
        assert forall|k: int| 0 <= k < rows.len() implies match #[trigger] rows[k] {
            Row::Header(i) => i < ents.len(),
            Row::Entity(i) => i < ents.len(),
        } by {
            if k == 0 {
            } else if k < pre {
                assert(rows[k] == same.map_values(|j: usize| Row::Entity(j))[k - 1]);
            } else {
                assert(rows[k] == grouped_rows(ents, rest)[k - pre]);
            }
        }
    }
}

/// Compare the labels of two entities (group names, with "no group" a label
/// of its own).
fn labels_equal(a: &ContainerInfo, b: &ContainerInfo) -> (r: bool)
    ensures
        r == same_label(*a, *b),
{
    match (&a.group, &b.group) {
        (Some(x), Some(y)) => crate::text::str_eq(x.as_str(), y.as_str()),
        (None, None) => true,
        _ => false,
    }
}

/// Build the grouped row projection over the visible indices.
pub fn project_grouped(entities: &Vec<ContainerInfo>, idxs: Vec<usize>) -> (r: Vec<Row>)
    requires
        forall|k: int| 0 <= k < idxs@.len() ==> (#[trigger] idxs@[k]) < entities@.len(),
    ensures
        r@ == grouped_rows(entities@, idxs@),
{
    let mut rows: Vec<Row> = Vec::new();
    let mut rest = idxs;
    let ghost orig = rest@;
    while rest.len() > 0
        invariant
            forall|k: int| 0 <= k < rest@.len() ==> (#[trigger] rest@[k]) < entities@.len(),
            grouped_rows(entities@, orig) == rows@ + grouped_rows(entities@, rest@),
        decreases rest@.len(),
    {
        let ghost rest_pre = rest@;
        let first_idx = rest[0];
        let ghost l = label_of(entities@[first_idx as int]);
        rows.push(Row::Header(first_idx));
        let mut same_count: usize = 0;
        let mut new_rest: Vec<usize> = Vec::new();
        let mut t: usize = 0;
        let rlen = rest.len();
        let ghost same_pred = |j: usize| label_of(entities@[j as int]) == l;
        let ghost diff_pred = |j: usize| label_of(entities@[j as int]) != l;
        let ghost rows_base = rows@;
        while t < rlen
            invariant
                rlen == rest@.len(),
                rest@ == rest_pre,
                0 <= t <= rlen,
                first_idx == rest@[0],
                l == label_of(entities@[first_idx as int]),
                same_pred == (|j: usize| label_of(entities@[j as int]) == l),
                diff_pred == (|j: usize| label_of(entities@[j as int]) != l),
                forall|k: int| 0 <= k < rest@.len() ==> (#[trigger] rest@[k]) < entities@.len(),
                rows@ == rows_base + rest_pre.subrange(0, t as int).filter(same_pred).map_values(
                    |j: usize| Row::Entity(j),
                ),
                new_rest@ == rest_pre.subrange(0, t as int).filter(diff_pred),
            decreases rlen - t,
        {
            let j = rest[t];
            proof {
                reveal(Seq::filter);
                assert(rest_pre.subrange(0, t + 1).drop_last() =~= rest_pre.subrange(
                    0,
                    t as int,
                ));
            }
            if labels_equal(&entities[first_idx], &entities[j]) {
                rows.push(Row::Entity(j));
                proof {
                    assert(rows@ =~= rows_base + rest_pre.subrange(0, t + 1).filter(
                        same_pred,
                    ).map_values(|j: usize| Row::Entity(j)));
                }
            } else {
                new_rest.push(j);
                proof {
                    assert(rows@ =~= rows_base + rest_pre.subrange(0, t + 1).filter(
                        same_pred,
                    ).map_values(|j: usize| Row::Entity(j)));
                }
            }
            t = t + 1;
        }
        proof {
            assert(rest_pre.subrange(0, rlen as int) =~= rest_pre);
            lemma_filter_excludes_head(rest_pre, diff_pred);
            assert forall|k: int| 0 <= k < new_rest@.len() implies (#[trigger] new_rest@[k])
                < entities@.len() by {
                lemma_filter_element_of(rest_pre, diff_pred, k);
            }
            // One unfolding of the grouped projection.
            assert(grouped_rows(entities@, rest_pre) == seq![Row::Header(rest_pre[0])]
                + rest_pre.filter(same_pred).map_values(|j: usize| Row::Entity(j)) + grouped_rows(
                entities@,
                rest_pre.filter(diff_pred),
            ));
            assert(rows@ =~= (rows_base.drop_last() + seq![Row::Header(rest_pre[0])])
                + rest_pre.filter(same_pred).map_values(|j: usize| Row::Entity(j)));
            assert(rows@ + grouped_rows(entities@, new_rest@) =~= rows_base.drop_last()
                + grouped_rows(entities@, rest_pre));
        }
        rest = new_rest;
    }
    proof {
        assert(grouped_rows(entities@, rest@) =~= Seq::<Row>::empty());
        assert(rows@ =~= grouped_rows(entities@, orig));
    }
    rows
}

/// Flat projection: every visible index becomes an entity row, no headers.
pub fn project_flat(idxs: Vec<usize>) -> (r: Vec<Row>)
    ensures
        r@ == idxs@.map_values(|j: usize| Row::Entity(j)),
{
    let mut rows: Vec<Row> = Vec::new();
    let n = idxs.len();
    let mut i: usize = 0;
    while i < n
        invariant
            n == idxs@.len(),
            0 <= i <= n,
            rows@ =~= idxs@.subrange(0, i as int).map_values(|j: usize| Row::Entity(j)),
        decreases n - i,
    {
        rows.push(Row::Entity(idxs[i]));
        proof {
            assert(rows@ =~= idxs@.subrange(0, i + 1).map_values(|j: usize| Row::Entity(j)));
        }
        i = i + 1;
    }
    proof {
        assert(idxs@.subrange(0, n as int) =~= idxs@);
    }
    rows
}

/// Row `k` selects the entity named `n`.
pub open spec fn row_names(rows: Seq<Row>, ents: Seq<ContainerInfo>, n: Seq<char>, k: int) -> bool {
    &&& 0 <= k < rows.len()
    &&& rows[k] is Entity
    &&& rows[k]->Entity_0 < ents.len()
    &&& ents[rows[k]->Entity_0 as int].name@ == n
}

/// The result of a cursor repair: the first row of the still-visible
/// selected entity when there is one, otherwise the first selectable row.
pub open spec fn repair_result(
    rows: Seq<Row>,
    ents: Seq<ContainerInfo>,
    sel: Option<Seq<char>>,
    r: Option<usize>,
) -> bool {
    match sel {
        Some(n) => {
            if exists|k: int| row_names(rows, ents, n, k) {
                r is Some && row_names(rows, ents, n, r->Some_0 as int) && forall|k: int|
                    0 <= k < r->Some_0 ==> !row_names(rows, ents, n, k)
            } else {
                first_entity_row_result(rows, r)
            }
        },
        None => first_entity_row_result(rows, r),
    }
}

/// Repair the cursor after a reprojection.
///
/// If the previously selected entity (tracked by name, not by row number)
/// still appears, the cursor lands on its first row. Otherwise it clamps to
/// the first selectable (non-header) row; a projection with no entity row
/// leaves the cursor unset.
pub fn repair_cursor(
    entities: &Vec<ContainerInfo>,
    rows: &Vec<Row>,
    selected_name: &Option<String>,
) -> (r: Option<usize>)
    requires
        forall|k: int|
            0 <= k < rows@.len() && (#[trigger] rows@[k]) is Entity ==> rows@[k]->Entity_0
                < entities@.len(),
    ensures
        repair_result(rows@, entities@, selected_name.deep_view(), r),
{
    match selected_name {
        Some(n) => {
            let len = rows.len();
            let mut k: usize = 0;
            while k < len
                invariant
                    len == rows@.len(),
                    0 <= k <= len,
                    selected_name.deep_view() == Some(n@),
                    forall|j: int|
                        0 <= j < rows@.len() && (#[trigger] rows@[j]) is Entity ==> rows@[j]->Entity_0
                            < entities@.len(),
                    forall|j: int| 0 <= j < k ==> !row_names(rows@, entities@, n@, j),
                decreases len - k,
            {
                match rows[k].entity_index() {
                    Some(i) => {
                        if crate::text::str_eq(entities[i].name.as_str(), n.as_str()) {
                            proof {
                                assert(row_names(rows@, entities@, n@, k as int));
                            }
                            return Some(k);
                        }
                    },
                    None => {},
                }
                k = k + 1;
            }
            first_entity_row(rows)
        },
        None => first_entity_row(rows),
    }
}

/// The result `r` is the first entity row of `rows`, or unset when there is
/// none.
pub open spec fn first_entity_row_result(rows: Seq<Row>, r: Option<usize>) -> bool {
    match r {
        Some(k) => 0 <= k < rows.len() && rows[k as int] is Entity && forall|j: int|
            0 <= j < k ==> !((#[trigger] rows[j]) is Entity),
        None => forall|j: int| 0 <= j < rows.len() ==> !((#[trigger] rows[j]) is Entity),
    }
}

/// The result `r` is the last entity row of `rows`, or unset when there is
/// none.
pub open spec fn last_entity_row_result(rows: Seq<Row>, r: Option<usize>) -> bool {
    match r {
        Some(k) => 0 <= k < rows.len() && rows[k as int] is Entity && forall|j: int|
            k < j < rows.len() ==> !((#[trigger] rows[j]) is Entity),
        None => forall|j: int| 0 <= j < rows.len() ==> !((#[trigger] rows[j]) is Entity),
    }
}

/// The result `r` is the nearest selectable row strictly after `cur`, or,
/// when none follows, the first selectable row (wrapping around); unset only
/// in a projection without selectable rows.
pub open spec fn next_row_result(rows: Seq<Row>, cur: int, r: Option<usize>) -> bool {
    if exists|k: int| cur < k < rows.len() && (#[trigger] rows[k]) is Entity {
        r is Some && cur < r->Some_0 < rows.len() && rows[r->Some_0 as int] is Entity && forall|
            j: int,
        | cur < j < r->Some_0 ==> !((#[trigger] rows[j]) is Entity)
    } else {
        first_entity_row_result(rows, r)
    }
}

/// The result `r` is the nearest selectable row strictly before `cur`, or,
/// when none precedes, the last selectable row (wrapping around); unset only
/// in a projection without selectable rows.
pub open spec fn prev_row_result(rows: Seq<Row>, cur: int, r: Option<usize>) -> bool {
    if exists|k: int| 0 <= k < cur && k < rows.len() && (#[trigger] rows[k]) is Entity {
        r is Some && r->Some_0 < cur && r->Some_0 < rows.len() && rows[r->Some_0 as int]
            is Entity && forall|j: int|
            r->Some_0 < j < cur && j < rows.len() ==> !((#[trigger] rows[j]) is Entity)
    } else {
        last_entity_row_result(rows, r)
    }
}

/// First selectable row of a projection.
pub fn first_entity_row(rows: &Vec<Row>) -> (r: Option<usize>)
    ensures
        first_entity_row_result(rows@, r),
{
    let len = rows.len();
    let mut k: usize = 0;
    while k < len
        invariant
            len == rows@.len(),
            0 <= k <= len,
            forall|j: int| 0 <= j < k ==> !((#[trigger] rows@[j]) is Entity),
        decreases len - k,
    {
        if rows[k].is_entity() {
            return Some(k);
        }
        k = k + 1;
    }
    None
}

/// Last selectable row of a projection.
pub fn last_entity_row(rows: &Vec<Row>) -> (r: Option<usize>)
    ensures
        last_entity_row_result(rows@, r),
{
    let len = rows.len();
    let mut k: usize = len;
    while k > 0
        invariant
            len == rows@.len(),
            0 <= k <= len,
            forall|j: int| k <= j < len ==> !((#[trigger] rows@[j]) is Entity),
        decreases k,
    {
        k = k - 1;
        if rows[k].is_entity() {
            return Some(k);
        }
    }
    None
}

/// The next selectable row strictly after `cur`, when one exists.
fn next_entity_after(rows: &Vec<Row>, cur: usize) -> (r: Option<usize>)
    ensures
        match r {
            Some(k) => cur < k < rows@.len() && rows@[k as int] is Entity && forall|j: int|
                cur < j < k ==> !((#[trigger] rows@[j]) is Entity),
            None => forall|j: int| cur < j < rows@.len() ==> !((#[trigger] rows@[j]) is Entity),
        },
{
    let len = rows.len();
    if cur >= len {
        return None;
    }
    let mut k: usize = cur + 1;
    while k < len
        invariant
            len == rows@.len(),
            cur < k <= len,
            forall|j: int| cur < j < k ==> !((#[trigger] rows@[j]) is Entity),
        decreases len - k,
    {
        if rows[k].is_entity() {
            return Some(k);
        }
        k = k + 1;
    }
    None
}

/// The previous selectable row strictly before `cur`, when one exists.
fn prev_entity_before(rows: &Vec<Row>, cur: usize) -> (r: Option<usize>)
    ensures
        match r {
            Some(k) => k < cur && k < rows@.len() && rows@[k as int] is Entity && forall|j: int|
                k < j < cur && j < rows@.len() ==> !((#[trigger] rows@[j]) is Entity),
            None => forall|j: int|
                0 <= j < cur && j < rows@.len() ==> !((#[trigger] rows@[j]) is Entity),
        },
{
    let len = rows.len();
    let mut k: usize = if cur < len {
        cur
    } else {
        len
    };
    while k > 0
        invariant
            len == rows@.len(),
            0 <= k <= len,
            k <= cur,
            forall|j: int| k <= j < cur && j < len ==> !((#[trigger] rows@[j]) is Entity),
        decreases k,
    {
        k = k - 1;
        if rows[k].is_entity() {
            return Some(k);
        }
    }
    None
}

/// Selection cursor over a row projection. Header rows are never selectable:
/// navigation skips them, and moving past either end wraps around.
#[derive(Debug, Clone)]
pub struct ContainerList {
    /// Currently selected row, when any selectable row exists.
    pub selected: Option<usize>,
}

impl ContainerList {
    /// A cursor with nothing selected yet.
    pub fn new() -> (r: Self)
        ensures
            r.selected is None,
    {
        ContainerList { selected: None }
    }

    /// Currently selected row index.
    pub fn selected(&self) -> (r: Option<usize>)
        ensures
            r == self.selected,
    {
        self.selected
    }

    /// Move the selection down to the next selectable row, wrapping past the
    /// end back to the first selectable row; a projection without selectable
    /// rows leaves the cursor unset.
    pub fn next(&mut self, rows: &Vec<Row>)
        ensures
            match old(self).selected {
                Some(cur) => next_row_result(rows@, cur as int, final(self).selected),
                None => first_entity_row_result(rows@, final(self).selected),
            },
            match final(self).selected {
                Some(k) => k < rows@.len() && rows@[k as int] is Entity,
                None => forall|j: int|
                    0 <= j < rows@.len() ==> !((#[trigger] rows@[j]) is Entity),
            },
    {
        match self.selected {
            Some(cur) => {
                match next_entity_after(rows, cur) {
                    Some(k) => {
                        proof {
                            assert(rows@[k as int] is Entity);
                        }
                        self.selected = Some(k);
                    },
                    None => {
                        self.selected = first_entity_row(rows);
                    },
                }
            },
            None => {
                self.selected = first_entity_row(rows);
            },
        }
    }

    /// Move the selection up to the previous selectable row, wrapping past
    /// the start to the last selectable row; with nothing selected yet, the
    /// first selectable row is taken, as when moving down.
    pub fn previous(&mut self, rows: &Vec<Row>)
        ensures
            match old(self).selected {
                Some(cur) => prev_row_result(rows@, cur as int, final(self).selected),
                None => first_entity_row_result(rows@, final(self).selected),
            },
            match final(self).selected {
                Some(k) => k < rows@.len() && rows@[k as int] is Entity,
                None => forall|j: int|
                    0 <= j < rows@.len() ==> !((#[trigger] rows@[j]) is Entity),
            },
    {
        match self.selected {
            Some(cur) => {
                match prev_entity_before(rows, cur) {
                    Some(k) => {
                        proof {
                            assert(rows@[k as int] is Entity);
                        }
                        self.selected = Some(k);
                    },
                    None => {
                        self.selected = last_entity_row(rows);
                    },
                }
            },
            None => {
                self.selected = first_entity_row(rows);
            },
        }
    }

    /// Jump to the first selectable row.
    pub fn top(&mut self, rows: &Vec<Row>)
        ensures
            first_entity_row_result(rows@, final(self).selected),
    {
        self.selected = first_entity_row(rows);
    }

    /// Jump to the last selectable row.
    pub fn bottom(&mut self, rows: &Vec<Row>)
        ensures
            last_entity_row_result(rows@, final(self).selected),
    {
        self.selected = last_entity_row(rows);
    }
}

impl Default for ContainerList {
    fn default() -> (r: Self)
        ensures
            r.selected is None,
    {
        ContainerList::new()
    }
}

} // verus!

//! Culling aids: grouping burst shots by shooting time, and the face / closed-eye
//! detector interface (a stub that honestly reports nothing when no model is
//! loaded). The image metrics work on floating point and live with the app.
use vstd::prelude::*;
use crate::datetime::{DateTime, lemma_before_eq_order, chrono_seconds_between, seconds_between, chrono_parse_ymd_hms, parse_ymd_hms};

verus! {

/// The shots that have a shooting time: `(index, time)`, in index order.
pub open spec fn timed(dts: Seq<Option<DateTime>>) -> Seq<(int, DateTime)>
    decreases dts.len(),
{
    if dts.len() == 0 {
        Seq::empty()
    } else {
        let rest = timed(dts.drop_last());
        match dts.last() {
            Some(d) => rest.push(((dts.len() - 1) as int, d)),
            None => rest,
        }
    }
}

/// Shot `a` comes before shot `b`: earlier, or at the same time with a smaller
/// index (the order of a stable sort by time).
pub open spec fn shot_before(a: (int, DateTime), b: (int, DateTime)) -> bool {
    (a.1.before_eq(b.1) && a.1 != b.1) || (a.1 == b.1 && a.0 < b.0)
}

/// `r` holds the shots of `s` in the order of a stable sort by time.
pub open spec fn sorted_shots(s: Seq<(int, DateTime)>, r: Seq<(int, DateTime)>) -> bool {
    &&& r.to_set() == s.to_set()
    &&& forall|k: int, l: int| 0 <= k < l < r.len() ==> shot_before(#[trigger] r[k], #[trigger] r[l])
}

/// Consecutive shots (in time order) at most `gap` seconds apart form one burst.
pub open spec fn split_runs(s: Seq<(int, DateTime)>, gap: int) -> Seq<Seq<int>>
    decreases s.len(),
{
    if s.len() == 0 {
        Seq::empty()
    } else {
        let g = split_runs(s.drop_last(), gap);
        let last = s.last();
        if s.len() >= 2 && chrono_seconds_between(last.1, s[s.len() - 2].1) <= gap {
            g.update(g.len() - 1, g.last().push(last.0))
        } else {
            g.push(seq![last.0])
        }
    }
}

/// `groups` is the grouping of the timed shots of `dts` into bursts.
pub open spec fn is_burst_clustering(dts: Seq<Option<DateTime>>, gap: int, groups: Seq<Seq<int>>) -> bool {
    exists|r: Seq<(int, DateTime)>| sorted_shots(timed(dts), r) && groups == split_runs(r, gap)
}

pub open spec fn index_groups(v: Seq<Vec<usize>>) -> Seq<Seq<int>> {
    v.map_values(|g: Vec<usize>| g@.map_values(|x: usize| x as int))
}

pub open spec fn shots_view(v: Seq<(usize, DateTime)>) -> Seq<(int, DateTime)> {
    v.map_values(|p: (usize, DateTime)| (p.0 as int, p.1))
}

proof fn lemma_shot_before_order(a: (int, DateTime), b: (int, DateTime), c: (int, DateTime))
    ensures
        !shot_before(a, a),
        shot_before(a, b) && shot_before(b, c) ==> shot_before(a, c),
        !(shot_before(a, b) && shot_before(b, a)),
{
    lemma_before_eq_order(a.1, b.1, c.1);
    lemma_before_eq_order(b.1, c.1, a.1);
    lemma_before_eq_order(a.1, c.1, b.1);
}

proof fn lemma_split_runs_nonempty(s: Seq<(int, DateTime)>, gap: int)
    ensures
        s.len() > 0 ==> split_runs(s, gap).len() > 0,
    decreases s.len(),
{
    if s.len() > 0 {
        lemma_split_runs_nonempty(s.drop_last(), gap);
    }
}

/// Groups burst shots: the shots with a time, ordered by time (stably), split where
/// two consecutive shots are more than `max_gap_secs` seconds apart. Each group
/// lists indices into `datetimes`.
pub fn cluster_bursts(datetimes: &[Option<DateTime>], max_gap_secs: i64) -> (r: Vec<Vec<usize>>)
    requires
        forall|i: int| 0 <= i < datetimes@.len() ==> (#[trigger] datetimes@[i] matches Some(d) ==> d.wf()),
    ensures
        is_burst_clustering(datetimes@, max_gap_secs as int, index_groups(r@)),
{
    // The shots with a time, in index order.
    let mut shots: Vec<(usize, DateTime)> = Vec::new();
    let mut i: usize = 0;
    while i < datetimes.len()
        invariant
            i <= datetimes@.len(),
            shots_view(shots@) == timed(datetimes@.take(i as int)),
            forall|k: int| 0 <= k < shots@.len() ==> (#[trigger] shots@[k]).0 < i,
        decreases datetimes@.len() - i,
    {
        assert(datetimes@.take(i + 1).drop_last() =~= datetimes@.take(i as int));
        match datetimes[i] {
            Some(d) => {
                shots.push((i, d));
                assert(shots_view(shots@) =~= timed(datetimes@.take(i as int)).push((i as int, d)));
            },
            None => {},
        }
        i = i + 1;
    }
    assert(datetimes@.take(datetimes@.len() as int) =~= datetimes@);
    let ghost s = shots_view(shots@);
    proof {
        lemma_timed_wf(datetimes@);
        lemma_timed_indices(datetimes@);
    }
    // Stable insertion sort by time.
    let mut sorted: Vec<(usize, DateTime)> = Vec::new();
    let mut k: usize = 0;
    while k < shots.len()
        invariant
            k <= shots@.len(),
            s == shots_view(shots@),
            forall|a: int, b: int| 0 <= a < b < s.len() ==> (#[trigger] s[a]).0 < (#[trigger] s[b]).0,
            forall|a: int| 0 <= a < s.len() ==> (#[trigger] s[a]).1.wf(),
            shots_view(sorted@).to_set() == s.take(k as int).to_set(),
            sorted@.len() == k,
            forall|a: int, b: int| 0 <= a < b < sorted@.len() ==> shot_before(#[trigger] shots_view(sorted@)[a], #[trigger] shots_view(sorted@)[b]),
        decreases shots@.len() - k,
    {
        let item = shots[k];
        let mut p: usize = 0;
        while p < sorted.len() && sorted[p].1.le(&item.1)
            invariant
                p <= sorted@.len(),
                forall|q: int| 0 <= q < p ==> (#[trigger] sorted@[q]).1.before_eq(item.1),
            decreases sorted@.len() - p,
        {
            p = p + 1;
        }
        let ghost old_v = shots_view(sorted@);
        let ghost new_shot = (item.0 as int, item.1);
        proof {
            assert(new_shot == s[k as int]);
            assert forall|q: int| 0 <= q < p implies shot_before(#[trigger] old_v[q], new_shot) by {
                assert(old_v[q] == (sorted@[q].0 as int, sorted@[q].1));
                assert(old_v.to_set().contains(old_v[q]));
                assert(s.take(k as int).to_set().contains(old_v[q]));
                let sk = s.take(k as int);
                let w = choose|w: int| #![trigger sk[w]] 0 <= w < sk.len() && sk[w] == old_v[q];
                assert(s[w] == old_v[q]);
            }
            assert forall|q: int| p <= q < old_v.len() implies shot_before(new_shot, #[trigger] old_v[q]) by {
                assert(!sorted@[p as int].1.before_eq(item.1));
                lemma_before_eq_order(item.1, sorted@[p as int].1, sorted@[p as int].1);
                if q > p {
                    lemma_shot_before_order(new_shot, old_v[p as int], old_v[q]);
                }
            }
        }
        sorted.insert(p, item);
        proof {
            let nv = shots_view(sorted@);
            assert(nv =~= old_v.insert(p as int, new_shot));
            assert(s.take(k + 1) =~= s.take(k as int).push(new_shot));
            assert(nv.to_set() =~= old_v.to_set().insert(new_shot)) by {
                assert forall|x| nv.to_set().contains(x) <==> old_v.to_set().insert(new_shot).contains(x) by {
                    if nv.to_set().contains(x) {
                        let w = choose|w: int| #![trigger nv[w]] 0 <= w < nv.len() && nv[w] == x;
                        if w < p {
                            assert(old_v[w] == x);
                        } else if w > p {
                            assert(old_v[w - 1] == x);
                        }
                    }
                    if old_v.to_set().contains(x) {
                        let w = choose|w: int| #![trigger old_v[w]] 0 <= w < old_v.len() && old_v[w] == x;
                        if w < p {
                            assert(nv[w] == x);
                        } else {
                            assert(nv[w + 1] == x);
                        }
                    }
                    if x == new_shot {
                        assert(nv[p as int] == x);
                    }
                }
            }
            s.take(k as int).lemma_push_to_set_commute(new_shot);
            assert forall|a: int, b: int| 0 <= a < b < nv.len() implies shot_before(#[trigger] nv[a], #[trigger] nv[b]) by {
                if b < p {
                    assert(nv[a] == old_v[a] && nv[b] == old_v[b]);
                } else if b == p {
                    assert(nv[a] == old_v[a]);
                } else if a < p {
                    assert(nv[a] == old_v[a] && nv[b] == old_v[b - 1]);
                    lemma_shot_before_order(old_v[a], new_shot, old_v[b - 1]);
                } else if a == p {
                    assert(nv[b] == old_v[b - 1]);
                } else {
                    assert(nv[a] == old_v[a - 1] && nv[b] == old_v[b - 1]);
                }
            }
        }
        k = k + 1;
    }
    assert(s.take(s.len() as int) =~= s);
    let ghost rs = shots_view(sorted@);
    assert(sorted_shots(timed(datetimes@), rs));
    assert forall|a: int| 0 <= a < sorted@.len() implies (#[trigger] sorted@[a]).1.wf() by {
        assert(rs[a] == (sorted@[a].0 as int, sorted@[a].1));
        assert(rs.to_set().contains(rs[a]));
        assert(s.to_set().contains(rs[a]));
        let w = choose|w: int| #![trigger s[w]] 0 <= w < s.len() && s[w] == rs[a];
    }
    // Split into runs.
    let mut groups: Vec<Vec<usize>> = Vec::new();
    let mut j: usize = 0;
    while j < sorted.len()
        invariant
            j <= sorted@.len(),
            rs == shots_view(sorted@),
            forall|a: int| 0 <= a < sorted@.len() ==> (#[trigger] sorted@[a]).1.wf(),
            index_groups(groups@) == split_runs(rs.take(j as int), max_gap_secs as int),
            j > 0 ==> groups@.len() > 0,
        decreases sorted@.len() - j,
    {
        let (idx, dt) = sorted[j];
        let ghost rj = rs.take(j + 1);
        let ghost og = index_groups(groups@);
        assert(rj.drop_last() =~= rs.take(j as int));
        assert(rj.last() == (idx as int, dt));
        let join = j > 0 && seconds_between(&dt, &sorted[j - 1].1) <= max_gap_secs;
        if join {
            assert(rj[j - 1] == rs[j - 1]);
            proof {
                lemma_split_runs_nonempty(rs.take(j as int), max_gap_secs as int);
            }
            let ghost old_g = groups@;
            let mut last = groups.pop().unwrap();
            assert(last == old_g[old_g.len() - 1]);
            last.push(idx);
            groups.push(last);
            assert(groups@ =~= old_g.update(old_g.len() - 1, last));
            assert(last@.map_values(|x: usize| x as int) =~= og.last().push(idx as int));
            assert(index_groups(groups@) =~= og.update(og.len() - 1, og.last().push(idx as int)));
        } else {
            if j > 0 {
                assert(rj[j - 1] == rs[j - 1]);
            }
            let mut g: Vec<usize> = Vec::new();
            g.push(idx);
            assert(g@.map_values(|x: usize| x as int) =~= seq![idx as int]);
            groups.push(g);
            assert(index_groups(groups@) =~= og.push(seq![idx as int]));
        }
        j = j + 1;
    }
    assert(rs.take(rs.len() as int) =~= rs);
    groups
}

proof fn lemma_timed_wf(dts: Seq<Option<DateTime>>)
    requires
        forall|i: int| 0 <= i < dts.len() ==> (#[trigger] dts[i] matches Some(d) ==> d.wf()),
    ensures
        forall|a: int| 0 <= a < timed(dts).len() ==> (#[trigger] timed(dts)[a]).1.wf(),
    decreases dts.len(),
{
    if dts.len() > 0 {
        let d0 = dts.drop_last();
        assert forall|i: int| 0 <= i < d0.len() implies (#[trigger] d0[i] matches Some(d) ==> d.wf()) by {
            assert(d0[i] == dts[i]);
        }
        lemma_timed_wf(d0);
        let rest = timed(d0);
        match dts.last() {
            Some(d) => {
                assert(dts[dts.len() - 1] == dts.last());
                assert(timed(dts) == rest.push(((dts.len() - 1) as int, d)));
            },
            None => {
                assert(timed(dts) == rest);
            },
        }
    }
}

proof fn lemma_timed_indices(dts: Seq<Option<DateTime>>)
    ensures
        forall|a: int, b: int| 0 <= a < b < timed(dts).len() ==> (#[trigger] timed(dts)[a]).0 < (#[trigger] timed(dts)[b]).0,
        forall|a: int| 0 <= a < timed(dts).len() ==> 0 <= (#[trigger] timed(dts)[a]).0 < dts.len(),
    decreases dts.len(),
{
    if dts.len() > 0 {
        let d0 = dts.drop_last();
        lemma_timed_indices(d0);
        let rest = timed(d0);
        match dts.last() {
            Some(d) => {
                let t = timed(dts);
                assert(t == rest.push(((dts.len() - 1) as int, d)));
                assert forall|a: int| 0 <= a < t.len() implies 0 <= (#[trigger] t[a]).0 < dts.len() by {
                    if a < rest.len() {
                        assert(t[a] == rest[a]);
                    }
                }
                assert forall|a: int, b: int| 0 <= a < b < t.len() implies (#[trigger] t[a]).0 < (#[trigger] t[b]).0 by {
                    assert(t[a] == rest[a]);
                    if b < rest.len() {
                        assert(t[b] == rest[b]);
                    }
                }
            },
            None => {
                assert(timed(dts) == rest);
            },
        }
    }
}

/// The indices of the groups, one after the other.
pub open spec fn flatten_groups(g: Seq<Seq<int>>) -> Seq<int>
    decreases g.len(),
{
    if g.len() == 0 {
        Seq::empty()
    } else {
        flatten_groups(g.drop_last()) + g.last()
    }
}

pub open spec fn shot_index(p: (int, DateTime)) -> int {
    p.0
}

proof fn lemma_split_runs_flatten(s: Seq<(int, DateTime)>, gap: int)
    ensures
        flatten_groups(split_runs(s, gap)) == s.map_values(|p: (int, DateTime)| shot_index(p)),
        forall|k: int| 0 <= k < split_runs(s, gap).len() ==> (#[trigger] split_runs(s, gap)[k]).len() > 0,
    decreases s.len(),
{
    if s.len() > 0 {
        let s0 = s.drop_last();
        lemma_split_runs_flatten(s0, gap);
        lemma_split_runs_nonempty(s0, gap);
        let g = split_runs(s0, gap);
        let x = s.last().0;
        assert(s.map_values(|p: (int, DateTime)| shot_index(p)) =~= s0.map_values(|p: (int, DateTime)| shot_index(p)).push(x));
        if s.len() >= 2 && chrono_seconds_between(s.last().1, s[s.len() - 2].1) <= gap {
            let ng = g.update(g.len() - 1, g.last().push(x));
            assert(ng.drop_last() =~= g.drop_last());
            assert(flatten_groups(ng) =~= flatten_groups(g).push(x));
            assert forall|k: int| 0 <= k < ng.len() implies (#[trigger] ng[k]).len() > 0 by {
                if k < g.len() - 1 {
                    assert(ng[k] == g[k]);
                }
            }
        } else {
            let ng = g.push(seq![x]);
            assert(ng.drop_last() =~= g);
            assert(flatten_groups(ng) =~= flatten_groups(g).push(x));
            assert forall|k: int| 0 <= k < ng.len() implies (#[trigger] ng[k]).len() > 0 by {
                if k < g.len() {
                    assert(ng[k] == g[k]);
                }
            }
        }
    }
}

proof fn lemma_timed_contains(dts: Seq<Option<DateTime>>, i: int)
    requires
        0 <= i < dts.len(),
    ensures
        (exists|j: int| 0 <= j < timed(dts).len() && (#[trigger] timed(dts)[j]).0 == i) <==> dts[i] is Some,
    decreases dts.len(),
{
    lemma_timed_indices(dts);
    let d0 = dts.drop_last();
    let rest = timed(d0);
    lemma_timed_indices(d0);
    if i < dts.len() - 1 {
        lemma_timed_contains(d0, i);
        assert(d0[i] == dts[i]);
        match dts.last() {
            Some(d) => {
                let t = timed(dts);
                assert(t == rest.push(((dts.len() - 1) as int, d)));
                if exists|j: int| 0 <= j < t.len() && (#[trigger] t[j]).0 == i {
                    let j = choose|j: int| 0 <= j < t.len() && (#[trigger] t[j]).0 == i;
                    assert(j < rest.len());
                    assert(rest[j] == t[j]);
                }
                if exists|j: int| 0 <= j < rest.len() && (#[trigger] rest[j]).0 == i {
                    let j = choose|j: int| 0 <= j < rest.len() && (#[trigger] rest[j]).0 == i;
                    assert(t[j] == rest[j]);
                }
            },
            None => {
                assert(timed(dts) == rest);
            },
        }
    } else {
        match dts.last() {
            Some(d) => {
                let t = timed(dts);
                assert(t == rest.push(((dts.len() - 1) as int, d)));
                assert(t[rest.len() as int].0 == i);
            },
            None => {
                assert(dts[i] == dts.last());
                assert(timed(dts) == rest);
                assert forall|j: int| 0 <= j < rest.len() implies (#[trigger] rest[j]).0 != i by {}
            },
        }
    }
}

/// Bursts partition the shots that have a shooting time: every such shot is in
/// exactly one burst, no burst is empty, and a shot without a time is in none.
pub proof fn lemma_bursts_partition(dts: Seq<Option<DateTime>>, gap: int, groups: Seq<Seq<int>>)
    requires
        is_burst_clustering(dts, gap, groups),
    ensures
        forall|k: int| 0 <= k < groups.len() ==> (#[trigger] groups[k]).len() > 0,
        forall|i: int| 0 <= i < dts.len() ==> (flatten_groups(groups).contains(i) <==> (#[trigger] dts[i]) is Some),
        flatten_groups(groups).no_duplicates(),
{
    let t = timed(dts);
    let r = choose|r: Seq<(int, DateTime)>| sorted_shots(t, r) && groups == split_runs(r, gap);
    lemma_split_runs_flatten(r, gap);
    lemma_timed_indices(dts);
    let fl = flatten_groups(groups);
    assert(fl == r.map_values(|p: (int, DateTime)| shot_index(p)));
    assert forall|i: int| 0 <= i < dts.len() implies (fl.contains(i) <==> (#[trigger] dts[i]) is Some) by {
        lemma_timed_contains(dts, i);
        if fl.contains(i) {
            let k = choose|k: int| 0 <= k < fl.len() && fl[k] == i;
            assert(r.to_set().contains(r[k]));
            assert(t.to_set().contains(r[k]));
            let j = choose|j: int| #![trigger t[j]] 0 <= j < t.len() && t[j] == r[k];
            assert(t[j].0 == i);
        }
        if dts[i] is Some {
            let j = choose|j: int| 0 <= j < t.len() && (#[trigger] t[j]).0 == i;
            assert(t.to_set().contains(t[j]));
            assert(r.to_set().contains(t[j]));
            let k = choose|k: int| #![trigger r[k]] 0 <= k < r.len() && r[k] == t[j];
            assert(fl[k] == i);
        }
    }
    assert forall|a: int, b: int| 0 <= a < fl.len() && 0 <= b < fl.len() && a != b implies fl[a] != fl[b] by {
        let (x, y) = if a < b { (a, b) } else { (b, a) };
        assert(shot_before(r[x], r[y]));
        lemma_shot_before_order(r[x], r[x], r[y]);
        assert(r.to_set().contains(r[x]) && r.to_set().contains(r[y]));
        assert(t.to_set().contains(r[x]) && t.to_set().contains(r[y]));
        let jx = choose|j: int| #![trigger t[j]] 0 <= j < t.len() && t[j] == r[x];
        let jy = choose|j: int| #![trigger t[j]] 0 <= j < t.len() && t[j] == r[y];
        if fl[a] == fl[b] {
            assert(t[jx].0 == t[jy].0);
            if jx < jy {
                assert(t[jx].0 < t[jy].0);
            } else if jy < jx {
                assert(t[jy].0 < t[jx].0);
            }
        }
    }
}

/// The shooting times of analysed shots, parsed as `%Y-%m-%d %H:%M:%S`.
pub open spec fn parsed_times(texts: Seq<Option<String>>) -> Seq<Option<DateTime>> {
    texts.map_values(|t: Option<String>| match t {
        Some(s) => chrono_parse_ymd_hms(s@),
        None => None,
    })
}

/// The bursts of more than one shot, each with its position among all bursts.
pub open spec fn multi_shot(groups: Seq<Seq<int>>) -> Seq<(int, Seq<int>)>
    decreases groups.len(),
{
    if groups.len() == 0 {
        Seq::empty()
    } else {
        let rest = multi_shot(groups.drop_last());
        if groups.last().len() > 1 {
            rest.push(((groups.len() - 1) as int, groups.last()))
        } else {
            rest
        }
    }
}

pub open spec fn numbered_groups(v: Seq<(usize, Vec<usize>)>) -> Seq<(int, Seq<int>)> {
    v.map_values(|p: (usize, Vec<usize>)| (p.0 as int, p.1@.map_values(|x: usize| x as int)))
}

/// The bursts of analysed shots (shooting times as text, `None` or unparsable for
/// shots without one): the groups of [`cluster_bursts`] that hold more than one
/// shot, each with its number among all groups. Which shots of a burst to keep is
/// decided by their quality scores.
pub fn burst_clusters(datetimes: &[Option<String>], max_gap_secs: i64) -> (r: Vec<(usize, Vec<usize>)>)
    ensures
        exists|groups: Seq<Seq<int>>| is_burst_clustering(parsed_times(datetimes@), max_gap_secs as int, groups) && numbered_groups(r@) == multi_shot(groups),
{
    let mut dts: Vec<Option<DateTime>> = Vec::new();
    let mut i: usize = 0;
    while i < datetimes.len()
        invariant
            i <= datetimes@.len(),
            dts@ == parsed_times(datetimes@.take(i as int)),
            forall|k: int| 0 <= k < dts@.len() ==> (#[trigger] dts@[k] matches Some(d) ==> d.wf()),
        decreases datetimes@.len() - i,
    {
        let d = match &datetimes[i] {
            Some(s) => parse_ymd_hms(s.as_str()),
            None => None,
        };
        dts.push(d);
        assert(dts@ =~= parsed_times(datetimes@.take(i + 1)));
        i = i + 1;
    }
    assert(datetimes@.take(datetimes@.len() as int) =~= datetimes@);
    let groups = cluster_bursts(dts.as_slice(), max_gap_secs);
    let ghost gv = index_groups(groups@);
    let mut r: Vec<(usize, Vec<usize>)> = Vec::new();
    let mut id: usize = 0;
    let n = groups.len();
    let mut rest = groups;
    assert(rest@.skip(0) =~= rest@);
    let ghost all = rest@;
    while id < n
        invariant
            n == all.len(),
            gv == index_groups(all),
            id <= n,
            rest@ == all.skip(id as int),
            numbered_groups(r@) == multi_shot(gv.take(id as int)),
        decreases n - id,
    {
        let g = rest.remove(0);
        assert(g == all[id as int]);
        assert(rest@ =~= all.skip(id + 1));
        assert(gv.take(id + 1).drop_last() =~= gv.take(id as int));
        if g.len() > 1 {
            let ghost before = r@;
            r.push((id, g));
            assert(numbered_groups(r@) =~= numbered_groups(before).push((id as int, gv[id as int])));
        }
        id = id + 1;
    }
    assert(gv.take(n as int) =~= gv);
    r
}

// ---------------------------------------------------------------------------
// Face / closed-eye detection
// ---------------------------------------------------------------------------

/// A face and closed-eye detector. `None` means no model is loaded, no face was
/// found, or the face is too small to judge.
pub trait AiBackend {
    fn detect_face_and_eyes(&self, path: &str) -> Option<bool>;
}

/// The detector used when no model is loaded: it never claims anything.
pub struct StubAiBackend;

impl AiBackend for StubAiBackend {
    fn detect_face_and_eyes(&self, path: &str) -> (r: Option<bool>)
        ensures
            r is None,
    {
        None
    }
}

/// The detector available in this build: the stub, as no model runtime is built in.
pub fn create_backend() -> (r: StubAiBackend) {
    StubAiBackend
}

} // verus!

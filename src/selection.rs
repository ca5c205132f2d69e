use vstd::prelude::*;
use crate::episode::{Episode, EpisodeView, views};
use crate::ordering::{date_before, is_date_before};
use crate::trusted::now_seconds;

verus! {

/// Seconds in one calendar day.
pub const SECONDS_PER_DAY: i64 = 86400;

/// What the filter and selector are asked to do.
#[derive(Clone, Copy, Debug)]
pub struct CutoffPolicy {
    /// Filter by age at all.
    pub apply_cutoff: bool,
    /// How many days back an episode still counts as current.
    pub cutoff_days: i64,
    /// Filter the all-episodes view too, not only the newest view.
    pub apply_to_all_view: bool,
}

/// The earliest instant that still counts as current: `now` minus `days` days.
pub open spec fn boundary_of(now: int, days: int) -> int {
    now - days * 86400
}

/// A date is current when it is present and not before the boundary.
pub open spec fn is_current(date: Option<i64>, boundary: int) -> bool {
    match date {
        Some(d) => d >= boundary,
        None => false,
    }
}

/// The episodes of `eps` that are current, in their order.
pub open spec fn current_only(eps: Seq<EpisodeView>, boundary: int) -> Seq<EpisodeView>
    decreases eps.len(),
{
    if eps.len() == 0 {
        Seq::empty()
    } else {
        let rest = current_only(eps.drop_last(), boundary);
        if is_current(eps.last().published_at, boundary) {
            rest.push(eps.last())
        } else {
            rest
        }
    }
}

/// Position of the first entry of `sel` whose source is `name`, if any.
pub open spec fn source_position(sel: Seq<EpisodeView>, name: Seq<char>) -> Option<int>
    decreases sel.len(),
{
    if sel.len() == 0 {
        None
    } else {
        match source_position(sel.drop_last(), name) {
            Some(k) => Some(k),
            None => if sel.last().source_name == name {
                Some((sel.len() - 1) as int)
            } else {
                None
            },
        }
    }
}

/// The combining rule: a new episode of a known source replaces the kept one
/// only when it is strictly newer; one of an unknown source is appended.
pub open spec fn absorb(sel: Seq<EpisodeView>, e: EpisodeView) -> Seq<EpisodeView> {
    match source_position(sel, e.source_name) {
        Some(k) => if date_before(sel[k].published_at, e.published_at) {
            sel.update(k, e)
        } else {
            sel
        },
        None => sel.push(e),
    }
}

/// The newest episode of each source, sources in order of first appearance.
pub open spec fn newest_of(eps: Seq<EpisodeView>) -> Seq<EpisodeView>
    decreases eps.len(),
{
    if eps.len() == 0 {
        Seq::empty()
    } else {
        absorb(newest_of(eps.drop_last()), eps.last())
    }
}

/// The cutoff boundary for one run, computed once: `now - days * 86400` seconds.
pub fn cutoff_boundary(now: i64, days: i64) -> (b: i128)
    ensures
        b == boundary_of(now as int, days as int),
{
    assert(i64::MIN <= days <= i64::MAX);
    assert(-0x8000_0000_0000_0000_0000_0000 <= (days as int) * 86400 <= 0x8000_0000_0000_0000_0000_0000) by (nonlinear_arith)
        requires
            -0x8000_0000_0000_0000 <= days as int <= 0x8000_0000_0000_0000,
    ;
    (now as i128) - (days as i128) * (SECONDS_PER_DAY as i128)
}

/// The cutoff boundary `days` days before the current time, read once.
pub fn cutoff_boundary_now(days: i64) -> (b: i128)
    ensures
        exists|now: i64| b == boundary_of(now as int, days as int),
{
    let now = now_seconds();
    cutoff_boundary(now, days)
}

/// Whether a date is current against `boundary`.
pub fn within_cutoff(date: Option<i64>, boundary: i128) -> (r: bool)
    ensures
        r == is_current(date, boundary as int),
{
    match date {
        Some(d) => (d as i128) >= boundary,
        None => false,
    }
}

/// Keeps the episodes that are current against `boundary`, in order.
pub fn filter_current(eps: &Vec<Episode>, boundary: i128) -> (r: Vec<Episode>)
    ensures
        views(r@) == current_only(views(eps@), boundary as int),
{
    let mut r: Vec<Episode> = Vec::new();
    let mut i: usize = 0;
    while i < eps.len()
        invariant
            i <= eps@.len(),
            views(r@) == current_only(views(eps@.subrange(0, i as int)), boundary as int),
        decreases eps@.len() - i,
    {
        assert(views(eps@.subrange(0, i as int + 1)).drop_last() =~= views(eps@.subrange(0, i as int)));
        assert(views(eps@.subrange(0, i as int + 1)).last() == eps@[i as int]@);
        if within_cutoff(eps[i].published_at, boundary) {
            let e = eps[i].duplicate();
            let ghost before = r@;
            r.push(e);
            assert(views(r@) =~= views(before).push(e@));
        }
        i = i + 1;
    }
    assert(eps@.subrange(0, eps@.len() as int) == eps@);
    r
}

/// Finds the entry of `sel` that belongs to source `name`.
fn find_source(sel: &Vec<Episode>, name: &String) -> (r: Option<usize>)
    ensures
        r matches Some(k) ==> k < sel@.len() && source_position(views(sel@), name@) == Some(k as int),
        r is None ==> source_position(views(sel@), name@) is None,
{
    let mut k: usize = 0;
    while k < sel.len()
        invariant
            k <= sel@.len(),
            source_position(views(sel@).subrange(0, k as int), name@) is None,
        decreases sel@.len() - k,
    {
        assert(views(sel@).subrange(0, k as int + 1).drop_last() == views(sel@).subrange(0, k as int));
        if sel[k].source_name == *name {
            proof {
                lemma_position_extends(views(sel@), name@, k as int + 1);
            }
            return Some(k);
        }
        k = k + 1;
    }
    assert(views(sel@).subrange(0, sel@.len() as int) == views(sel@));
    None
}

/// Lemma: a position found in a prefix stays the position in the whole.
proof fn lemma_position_extends(sel: Seq<EpisodeView>, name: Seq<char>, n: int)
    requires
        0 <= n <= sel.len(),
        source_position(sel.subrange(0, n), name) is Some,
    ensures
        source_position(sel, name) == source_position(sel.subrange(0, n), name),
    decreases sel.len() - n,
{
    if n < sel.len() {
        assert(sel.subrange(0, n + 1).drop_last() == sel.subrange(0, n));
        lemma_position_extends(sel, name, n + 1);
    } else {
        assert(sel.subrange(0, n) == sel);
    }
}

/// The newest episode of each source, sources in order of first appearance;
/// of two equally new episodes the earlier one is kept.
pub fn newest_per_source(eps: &Vec<Episode>) -> (r: Vec<Episode>)
    ensures
        views(r@) == newest_of(views(eps@)),
{
    let mut sel: Vec<Episode> = Vec::new();
    let mut i: usize = 0;
    while i < eps.len()
        invariant
            i <= eps@.len(),
            views(sel@) == newest_of(views(eps@.subrange(0, i as int))),
        decreases eps@.len() - i,
    {
        assert(views(eps@.subrange(0, i as int + 1)).drop_last() =~= views(eps@.subrange(0, i as int)));
        assert(views(eps@.subrange(0, i as int + 1)).last() == eps@[i as int]@);
        let e = &eps[i];
        let ghost before = sel@;
        match find_source(&sel, &e.source_name) {
            Some(k) => {
                if is_date_before(sel[k].published_at, e.published_at) {
                    sel.set(k, e.duplicate());
                    assert(views(sel@) =~= views(before).update(k as int, e@));
                }
            },
            None => {
                sel.push(e.duplicate());
                assert(views(sel@) =~= views(before).push(e@));
            },
        }
        i = i + 1;
    }
    assert(eps@.subrange(0, eps@.len() as int) == eps@);
    sel
}

/// What `source_position` finds: the entry of that source, or no entry of it.
pub proof fn lemma_source_position(sel: Seq<EpisodeView>, name: Seq<char>)
    ensures
        source_position(sel, name) matches Some(k) ==> 0 <= k < sel.len() && sel[k].source_name == name,
        source_position(sel, name) is None ==> forall|k: int| 0 <= k < sel.len() ==> sel[k].source_name != name,
    decreases sel.len(),
{
    if sel.len() > 0 {
        lemma_source_position(sel.drop_last(), name);
        if source_position(sel, name) is None {
            assert forall|k: int| 0 <= k < sel.len() implies sel[k].source_name != name by {
                if k < sel.len() - 1 {
                    assert(sel.drop_last()[k] == sel[k]);
                }
            }
        }
    }
}

/// The newest-per-source view holds at most one episode of each source.
pub proof fn lemma_newest_one_per_source(eps: Seq<EpisodeView>)
    ensures
        forall|a: int, b: int| 0 <= a < b < newest_of(eps).len()
            ==> newest_of(eps)[a].source_name != newest_of(eps)[b].source_name,
    decreases eps.len(),
{
    if eps.len() > 0 {
        let prev = newest_of(eps.drop_last());
        lemma_newest_one_per_source(eps.drop_last());
        lemma_source_position(prev, eps.last().source_name);
    }
}

/// Every episode of the newest-per-source view is one of the input episodes.
pub proof fn lemma_newest_drawn_from_input(eps: Seq<EpisodeView>, k: int)
    requires
        0 <= k < newest_of(eps).len(),
    ensures
        eps.contains(newest_of(eps)[k]),
    decreases eps.len(),
{
    let prev = newest_of(eps.drop_last());
    lemma_source_position(prev, eps.last().source_name);
    if newest_of(eps)[k] == eps.last() {
        assert(eps[eps.len() - 1] == eps.last());
    } else {
        assert(k < prev.len() && newest_of(eps)[k] == prev[k]);
        lemma_newest_drawn_from_input(eps.drop_last(), k);
        let j = choose|j: int| 0 <= j < eps.drop_last().len() && eps.drop_last()[j] == prev[k];
        assert(eps[j] == prev[k]);
    }
}

/// For every input episode, the view holds an episode of the same source
/// that is no older: the one kept is the latest of its source.
pub proof fn lemma_newest_is_latest(eps: Seq<EpisodeView>, j: int)
    requires
        0 <= j < eps.len(),
    ensures
        exists|k: int| 0 <= k < newest_of(eps).len()
            && #[trigger] newest_of(eps)[k].source_name == eps[j].source_name
            && !date_before(newest_of(eps)[k].published_at, eps[j].published_at),
    decreases eps.len(),
{
    let prev = newest_of(eps.drop_last());
    let e = eps.last();
    lemma_source_position(prev, e.source_name);
    let cur = newest_of(eps);
    if j == eps.len() - 1 {
        match source_position(prev, e.source_name) {
            Some(p) => {
                assert(cur[p].source_name == eps[j].source_name);
            },
            None => {
                assert(cur[prev.len() as int] == e);
            },
        }
    } else {
        assert(eps.drop_last()[j] == eps[j]);
        lemma_newest_is_latest(eps.drop_last(), j);
        let k = choose|k: int| 0 <= k < prev.len()
            && #[trigger] prev[k].source_name == eps[j].source_name
            && !date_before(prev[k].published_at, eps[j].published_at);
        match source_position(prev, e.source_name) {
            Some(p) => {
                if p == k && date_before(prev[p].published_at, e.published_at) {
                    assert(cur[k] == e);
                    assert(cur[k].source_name == eps[j].source_name);
                } else {
                    assert(cur[k] == prev[k]);
                }
            },
            None => {
                assert(cur[k] == prev[k]);
            },
        }
    }
}

/// Every episode that passes the cutoff is current.
pub proof fn lemma_current_only_current(eps: Seq<EpisodeView>, boundary: int, k: int)
    requires
        0 <= k < current_only(eps, boundary).len(),
    ensures
        is_current(current_only(eps, boundary)[k].published_at, boundary),
        eps.contains(current_only(eps, boundary)[k]),
    decreases eps.len(),
{
    let prev = current_only(eps.drop_last(), boundary);
    if k < prev.len() {
        lemma_current_only_current(eps.drop_last(), boundary, k);
        let j = choose|j: int| 0 <= j < eps.drop_last().len() && eps.drop_last()[j] == prev[k];
        assert(eps[j] == prev[k]);
    } else {
        assert(eps[eps.len() - 1] == eps.last());
    }
}

/// Every current episode passes the cutoff.
pub proof fn lemma_current_kept(eps: Seq<EpisodeView>, boundary: int, j: int)
    requires
        0 <= j < eps.len(),
        is_current(eps[j].published_at, boundary),
    ensures
        current_only(eps, boundary).contains(eps[j]),
    decreases eps.len(),
{
    let prev = current_only(eps.drop_last(), boundary);
    if j == eps.len() - 1 {
        assert(current_only(eps, boundary)[prev.len() as int] == eps[j]);
    } else {
        assert(eps.drop_last()[j] == eps[j]);
        lemma_current_kept(eps.drop_last(), boundary, j);
        let k = choose|k: int| 0 <= k < prev.len() && prev[k] == eps[j];
        assert(current_only(eps, boundary)[k] == eps[j]);
    }
}

/// With the cutoff on, the newest-per-source view holds only current
/// episodes: an undated or older episode is never selected.
pub proof fn lemma_cutoff_selects_only_current(eps: Seq<EpisodeView>, boundary: int, k: int)
    requires
        0 <= k < newest_of(current_only(eps, boundary)).len(),
    ensures
        is_current(newest_of(current_only(eps, boundary))[k].published_at, boundary),
{
    let cur = current_only(eps, boundary);
    lemma_newest_drawn_from_input(cur, k);
    let j = choose|j: int| 0 <= j < cur.len() && cur[j] == newest_of(cur)[k];
    lemma_current_only_current(eps, boundary, j);
}

} // verus!

use vstd::prelude::*;
use crate::episode::{Episode, EpisodeView, views};

verus! {

/// `a` is strictly earlier than `b`; an absent date is earlier than every
/// present one, and two absent dates are equal.
pub open spec fn date_before(a: Option<i64>, b: Option<i64>) -> bool {
    match (a, b) {
        (None, Some(_)) => true,
        (Some(x), Some(y)) => x < y,
        _ => false,
    }
}

/// Episode `i` of `eps` comes before episode `j` in chronological order:
/// earlier date first, and on equal dates the earlier position first.
pub open spec fn precedes(eps: Seq<EpisodeView>, i: int, j: int) -> bool {
    date_before(eps[i].published_at, eps[j].published_at)
        || (eps[i].published_at == eps[j].published_at && i < j)
}

/// `ord` lists each index below `n` exactly once.
pub open spec fn is_index_permutation(ord: Seq<usize>, n: nat) -> bool {
    &&& ord.len() == n
    &&& forall|k: int| 0 <= k < n ==> ord[k] < n
    &&& forall|a: int, b: int| 0 <= a < b < n ==> ord[a] != ord[b]
}

/// `ord` is the stable chronological arrangement of `eps`.
pub open spec fn is_chronological(eps: Seq<EpisodeView>, ord: Seq<usize>) -> bool {
    &&& is_index_permutation(ord, eps.len())
    &&& forall|a: int, b: int| 0 <= a < b < ord.len() ==> precedes(eps, ord[a] as int, ord[b] as int)
}

/// The entries of `eps` taken at the positions listed in `ord`.
pub open spec fn arranged(eps: Seq<EpisodeView>, ord: Seq<usize>) -> Seq<EpisodeView> {
    ord.map_values(|j: usize| eps[j as int])
}

/// Compares two dates: true when `a` is strictly earlier than `b`.
pub fn is_date_before(a: Option<i64>, b: Option<i64>) -> (r: bool)
    ensures
        r == date_before(a, b),
{
    match (a, b) {
        (None, Some(_)) => true,
        (Some(x), Some(y)) => x < y,
        _ => false,
    }
}

/// The positions of `eps` in chronological order, oldest first, undated
/// episodes before dated ones, equal dates in their original order.
pub fn chronological_indices(eps: &Vec<Episode>) -> (ord: Vec<usize>)
    ensures
        is_chronological(views(eps@), ord@),
{
    let n = eps.len();
    let mut ord: Vec<usize> = Vec::new();
    let mut i: usize = 0;
    while i < n
        invariant
            n == eps@.len(),
            i <= n,
            ord@.len() == i,
            forall|k: int| 0 <= k < i ==> ord@[k] < i,
            forall|a: int, b: int| 0 <= a < b < i ==> ord@[a] != ord@[b],
            forall|a: int, b: int| 0 <= a < b < i ==> precedes(views(eps@), ord@[a] as int, ord@[b] as int),
        decreases n - i,
    {
        let di = eps[i].published_at;
        let mut pos: usize = 0;
        while pos < i && !is_date_before(di, eps[ord[pos]].published_at)
            invariant
                n == eps@.len(),
                i < n,
                pos <= i,
                ord@.len() == i,
                forall|k: int| 0 <= k < i ==> ord@[k] < i,
                forall|k: int| 0 <= k < pos ==> !date_before(di, views(eps@)[ord@[k] as int].published_at),
                di == views(eps@)[i as int].published_at,
            decreases i - pos,
        {
            pos = pos + 1;
        }
        proof {
            assert forall|k: int| pos <= k < i implies date_before(di, views(eps@)[ord@[k] as int].published_at) by {
                if k > pos {
                    assert(precedes(views(eps@), ord@[pos as int] as int, ord@[k] as int));
                }
            }
        }
        let ghost old_ord = ord@;
        ord.insert(pos, i);
        proof {
            assert(ord@ == old_ord.insert(pos as int, i));
            assert forall|k: int| 0 <= k < i + 1 implies ord@[k] < i + 1 by {
                if k < pos {
                    assert(ord@[k] == old_ord[k]);
                } else if k > pos {
                    assert(ord@[k] == old_ord[k - 1]);
                }
            }
            assert forall|a: int, b: int| 0 <= a < b < i + 1 implies ord@[a] != ord@[b]
                && precedes(views(eps@), ord@[a] as int, ord@[b] as int) by {
                if a < pos && b < pos {
                    assert(ord@[a] == old_ord[a] && ord@[b] == old_ord[b]);
                } else if a < pos && b == pos {
                    assert(ord@[a] == old_ord[a]);
                } else if a < pos {
                    assert(ord@[a] == old_ord[a] && ord@[b] == old_ord[b - 1]);
                } else if a == pos {
                    assert(ord@[b] == old_ord[b - 1]);
                } else {
                    assert(ord@[a] == old_ord[a - 1] && ord@[b] == old_ord[b - 1]);
                }
            }
        }
        i = i + 1;
    }
    ord
}

/// The episodes of `eps` rearranged oldest first (see `chronological_indices`).
pub fn order_chronologically(eps: &Vec<Episode>) -> (r: Vec<Episode>)
    ensures
        exists|ord: Seq<usize>|
            is_chronological(views(eps@), ord) && views(r@) == arranged(views(eps@), ord),
{
    let ord = chronological_indices(eps);
    let mut r: Vec<Episode> = Vec::new();
    let mut k: usize = 0;
    while k < ord.len()
        invariant
            is_chronological(views(eps@), ord@),
            k <= ord@.len(),
            views(r@) == arranged(views(eps@), ord@.subrange(0, k as int)),
        decreases ord@.len() - k,
    {
        let e = eps[ord[k]].duplicate();
        proof {
            assert(arranged(views(eps@), ord@.subrange(0, k as int + 1)) =~= arranged(views(eps@), ord@.subrange(0, k as int)).push(e@));
        }
        r.push(e);
        proof {
            assert(views(r@) =~= arranged(views(eps@), ord@.subrange(0, k as int + 1)));
        }
        k = k + 1;
    }
    assert(ord@.subrange(0, ord@.len() as int) == ord@);
    r
}

} // verus!

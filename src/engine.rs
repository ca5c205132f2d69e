//! Assembly of the two views from the fetched documents: every episode, and
//! the newest episode of each source.

use vstd::prelude::*;
use crate::episode::{Episode, EpisodeView, views};
use crate::extract::{document_episodes, scan_episodes, extract_structured, scan_document};
use crate::fetch::{FetchResult, result_views, successes};
use crate::ordering::{is_chronological, arranged, order_chronologically};
use crate::selection::{CutoffPolicy, current_only, newest_of, filter_current, newest_per_source};

verus! {

/// The episodes of one fetched document: its structured episodes, followed,
/// when the whole-document scan is on, by the scanned ones.
pub open spec fn source_episodes(r: (Seq<char>, Seq<char>), with_scan: bool) -> Seq<EpisodeView> {
    document_episodes(r.0, r.1) + if with_scan {
        scan_episodes(r.0, r.1)
    } else {
        Seq::empty()
    }
}

/// The episodes of all fetched documents, source after source.
pub open spec fn extracted(results: Seq<(Seq<char>, Seq<char>)>, with_scan: bool) -> Seq<EpisodeView>
    decreases results.len(),
{
    if results.len() == 0 {
        Seq::empty()
    } else {
        extracted(results.drop_last(), with_scan) + source_episodes(results.last(), with_scan)
    }
}

/// `eps` filtered by the cutoff when `apply` holds.
pub open spec fn under_cutoff(eps: Seq<EpisodeView>, apply: bool, boundary: int) -> Seq<EpisodeView> {
    if apply {
        current_only(eps, boundary)
    } else {
        eps
    }
}

/// The all-episodes view before any ordering: the episodes of every
/// document, filtered only when the policy cuts off this view too.
pub open spec fn all_view_base(results: Seq<(Seq<char>, Seq<char>)>, policy: CutoffPolicy, boundary: int, with_scan: bool) -> Seq<EpisodeView> {
    under_cutoff(extracted(results, with_scan), policy.apply_cutoff && policy.apply_to_all_view, boundary)
}

/// The episodes of every fetched document, source after source; the
/// whole-document scan adds its episodes when `with_scan` holds.
pub fn extract_all(results: &Vec<FetchResult>, with_scan: bool) -> (r: Vec<Episode>)
    ensures
        views(r@) == extracted(result_views(results@), with_scan),
{
    let mut r: Vec<Episode> = Vec::new();
    let mut i: usize = 0;
    while i < results.len()
        invariant
            i <= results@.len(),
            views(r@) == extracted(result_views(results@.subrange(0, i as int)), with_scan),
        decreases results@.len() - i,
    {
        let ghost before = r@;
        let ghost rv = result_views(results@.subrange(0, i as int + 1));
        assert(rv.drop_last() =~= result_views(results@.subrange(0, i as int)));
        assert(rv.last() == results@[i as int]@);
        let mut found = extract_structured(&results[i].source_name, &results[i].document);
        let ghost structured = found@;
        r.append(&mut found);
        assert(views(r@) =~= views(before) + views(structured));
        if with_scan {
            let ghost mid = r@;
            let mut scanned = scan_document(&results[i].source_name, &results[i].document);
            let ghost sc = scanned@;
            r.append(&mut scanned);
            assert(views(r@) =~= views(mid) + views(sc));
        } else {
            assert(views(r@) =~= views(before) + views(structured) + Seq::<EpisodeView>::empty());
        }
        i = i + 1;
    }
    assert(results@.subrange(0, results@.len() as int) == results@);
    r
}

/// The all-episodes view. Without chronological ordering: structured and
/// scanned episodes, source after source. With it: the structured episodes,
/// oldest first. Either way filtered by the cutoff only when the policy asks
/// for the cutoff on this view too.
pub fn all_episodes(results: &Vec<FetchResult>, policy: &CutoffPolicy, boundary: i128, chronological: bool) -> (r: Vec<Episode>)
    ensures
        !chronological ==> views(r@) == all_view_base(result_views(results@), *policy, boundary as int, true),
        chronological ==> exists|ord: Seq<usize>|
            #[trigger] is_chronological(all_view_base(result_views(results@), *policy, boundary as int, false), ord)
                && views(r@) == arranged(all_view_base(result_views(results@), *policy, boundary as int, false), ord),
{
    let eps = extract_all(results, !chronological);
    let kept = if policy.apply_cutoff && policy.apply_to_all_view {
        filter_current(&eps, boundary)
    } else {
        eps
    };
    assert(views(kept@) == all_view_base(result_views(results@), *policy, boundary as int, !chronological));
    if chronological {
        let r = order_chronologically(&kept);
        let ghost ord = choose|ord: Seq<usize>| #[trigger] is_chronological(views(kept@), ord)
            && views(r@) == arranged(views(kept@), ord);
        assert(is_chronological(all_view_base(result_views(results@), *policy, boundary as int, false), ord));
        r
    } else {
        kept
    }
}

/// The newest-per-source view: the structured episodes, filtered by the
/// cutoff when the policy applies one, reduced to the newest of each source.
pub fn newest_episodes(results: &Vec<FetchResult>, policy: &CutoffPolicy, boundary: i128) -> (r: Vec<Episode>)
    ensures
        views(r@) == newest_of(under_cutoff(extracted(result_views(results@), false), policy.apply_cutoff, boundary as int)),
{
    let eps = extract_all(results, false);
    if policy.apply_cutoff {
        let kept = filter_current(&eps, boundary);
        newest_per_source(&kept)
    } else {
        newest_per_source(&eps)
    }
}

/// Extraction distributes over concatenation of the source list.
pub proof fn lemma_extracted_concat(a: Seq<(Seq<char>, Seq<char>)>, b: Seq<(Seq<char>, Seq<char>)>, with_scan: bool)
    ensures
        extracted(a + b, with_scan) == extracted(a, with_scan) + extracted(b, with_scan),
    decreases b.len(),
{
    if b.len() == 0 {
        assert(a + b =~= a);
        assert(extracted(a, with_scan) + extracted(b, with_scan) =~= extracted(a, with_scan));
    } else {
        lemma_extracted_concat(a, b.drop_last(), with_scan);
        assert((a + b).drop_last() =~= a + b.drop_last());
        assert((a + b).last() == b.last());
        assert(extracted(a + b, with_scan) =~= extracted(a, with_scan) + extracted(b, with_scan));
    }
}

/// Keeping the successes distributes over concatenation.
pub proof fn lemma_successes_concat(a: Seq<Option<(Seq<char>, Seq<char>)>>, b: Seq<Option<(Seq<char>, Seq<char>)>>)
    ensures
        successes(a + b) == successes(a) + successes(b),
    decreases b.len(),
{
    if b.len() == 0 {
        assert(a + b =~= a);
        assert(successes(a) + successes(b) =~= successes(a));
    } else {
        lemma_successes_concat(a, b.drop_last());
        assert((a + b).drop_last() =~= a + b.drop_last());
        assert((a + b).last() == b.last());
        assert(successes(a + b) =~= successes(a) + successes(b));
    }
}

/// Every source that was fetched contributes its own episodes, whatever
/// happened to the others: the episodes of all attempts are those before it,
/// then its own, then those after it.
pub proof fn lemma_success_contributes_own_episodes(v: Seq<Option<(Seq<char>, Seq<char>)>>, i: int, with_scan: bool)
    requires
        0 <= i < v.len(),
        v[i] is Some,
    ensures
        extracted(successes(v), with_scan) == extracted(successes(v.take(i)), with_scan)
            + source_episodes(v[i]->0, with_scan) + extracted(successes(v.skip(i + 1)), with_scan),
{
    let pre = v.take(i);
    let one = seq![v[i]];
    let post = v.skip(i + 1);
    assert(v =~= pre + one + post);
    lemma_successes_concat(pre + one, post);
    lemma_successes_concat(pre, one);
    assert(one.drop_last() =~= Seq::<Option<(Seq<char>, Seq<char>)>>::empty());
    assert(successes(one.drop_last()) =~= Seq::<(Seq<char>, Seq<char>)>::empty());
    assert(one.last() == v[i]);
    assert(successes(one) =~= seq![v[i]->0]);
    lemma_extracted_concat(successes(pre) + successes(one), successes(post), with_scan);
    lemma_extracted_concat(successes(pre), successes(one), with_scan);
    let s1 = seq![v[i]->0];
    assert(s1.drop_last() =~= Seq::<(Seq<char>, Seq<char>)>::empty());
    assert(extracted(s1.drop_last(), with_scan) =~= Seq::<EpisodeView>::empty());
    assert(s1.last() == v[i]->0);
    assert(extracted(s1, with_scan) =~= source_episodes(v[i]->0, with_scan));
}

} // verus!

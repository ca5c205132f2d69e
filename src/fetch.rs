//! Fetch coordination: admission of sources under a concurrency ceiling, and
//! which responses count as fetched documents.

use vstd::prelude::*;

verus! {

/// A fetched document of one source.
#[derive(Clone, Debug)]
pub struct FetchResult {
    pub source_name: String,
    pub document: String,
}

impl View for FetchResult {
    type V = (Seq<char>, Seq<char>);

    open spec fn view(&self) -> (Seq<char>, Seq<char>) {
        (self.source_name@, self.document@)
    }
}

/// The contents of a list of fetch attempts, failures as `None`.
pub open spec fn outcome_views(v: Seq<Option<FetchResult>>) -> Seq<Option<(Seq<char>, Seq<char>)>> {
    v.map_values(|o: Option<FetchResult>| match o {
        Some(r) => Some(r@),
        None => None,
    })
}

/// The contents of a list of fetched documents.
pub open spec fn result_views(v: Seq<FetchResult>) -> Seq<(Seq<char>, Seq<char>)> {
    v.map_values(|r: FetchResult| r@)
}

/// The successful attempts, in order.
pub open spec fn successes(v: Seq<Option<(Seq<char>, Seq<char>)>>) -> Seq<(Seq<char>, Seq<char>)>
    decreases v.len(),
{
    if v.len() == 0 {
        Seq::empty()
    } else {
        let rest = successes(v.drop_last());
        match v.last() {
            Some(r) => rest.push(r),
            None => rest,
        }
    }
}

/// A response status that counts as success (2xx).
pub open spec fn is_success_status(status: u16) -> bool {
    200 <= status <= 299
}

/// The fetched document of a response, when its status is a success and its
/// body could be decoded; every other outcome yields nothing.
pub fn accept_response(source_name: &String, status: u16, body: Option<String>) -> (r: Option<FetchResult>)
    ensures
        r is Some <==> (is_success_status(status) && body is Some),
        r matches Some(f) ==> f.source_name@ == source_name@ && f.document@ == body->0@,
{
    if 200 <= status && status <= 299 {
        match body {
            Some(b) => Some(FetchResult { source_name: source_name.clone(), document: b }),
            None => None,
        }
    } else {
        None
    }
}

/// The successful attempts, in order; failures are dropped.
pub fn successful_results(outcomes: &Vec<Option<FetchResult>>) -> (r: Vec<FetchResult>)
    ensures
        result_views(r@) == successes(outcome_views(outcomes@)),
{
    let mut r: Vec<FetchResult> = Vec::new();
    let mut i: usize = 0;
    while i < outcomes.len()
        invariant
            i <= outcomes@.len(),
            result_views(r@) == successes(outcome_views(outcomes@.subrange(0, i as int))),
        decreases outcomes@.len() - i,
    {
        assert(outcome_views(outcomes@.subrange(0, i as int + 1)).drop_last() =~= outcome_views(outcomes@.subrange(0, i as int)));
        if let Some(f) = &outcomes[i] {
            let c = FetchResult { source_name: f.source_name.clone(), document: f.document.clone() };
            let ghost before = r@;
            r.push(c);
            assert(result_views(r@) =~= result_views(before).push(c@));
        }
        i = i + 1;
    }
    assert(outcomes@.subrange(0, outcomes@.len() as int) == outcomes@);
    r
}

/// The state of fetch admission: how many sources there are, how many may be in
/// flight at once, how many have been admitted and how many are in flight.
pub ghost struct AdmissionState {
    pub capacity: nat,
    pub total: nat,
    pub admitted: nat,
    pub in_flight: nat,
}

impl AdmissionState {
    /// The invariant: a positive ceiling that is never exceeded, and no
    /// more admissions than sources.
    pub open spec fn wf(self) -> bool {
        &&& self.capacity >= 1
        &&& self.in_flight <= self.capacity
        &&& self.admitted <= self.total
        &&& self.in_flight <= self.admitted
    }

    /// Whether one more source may start now.
    pub open spec fn can_admit(self) -> bool {
        self.in_flight < self.capacity && self.admitted < self.total
    }
}

/// What can happen to the admission state.
pub enum AdmissionEvent {
    /// A slot is asked for the next source.
    Admit,
    /// A fetch in flight finished, whatever its outcome.
    Complete,
}

/// The state after one event.
pub open spec fn admission_step(s: AdmissionState, ev: AdmissionEvent) -> AdmissionState {
    match ev {
        AdmissionEvent::Admit => if s.can_admit() {
            AdmissionState { admitted: s.admitted + 1, in_flight: s.in_flight + 1, ..s }
        } else {
            s
        },
        AdmissionEvent::Complete => if s.in_flight > 0 {
            AdmissionState { in_flight: (s.in_flight - 1) as nat, ..s }
        } else {
            s
        },
    }
}

/// The state after a run of events.
pub open spec fn admission_run(s: AdmissionState, evs: Seq<AdmissionEvent>) -> AdmissionState
    decreases evs.len(),
{
    if evs.len() == 0 {
        s
    } else {
        admission_step(admission_run(s, evs.drop_last()), evs.last())
    }
}

/// Admits sources, in list order, to be fetched under a ceiling on how many
/// are in flight at once. A slot is taken when a source is admitted and given
/// back when its fetch completes, whatever the outcome.
pub struct FetchAdmission {
    capacity: usize,
    total: usize,
    admitted: usize,
    in_flight: usize,
}

impl View for FetchAdmission {
    type V = AdmissionState;

    closed spec fn view(&self) -> AdmissionState {
        AdmissionState {
            capacity: self.capacity as nat,
            total: self.total as nat,
            admitted: self.admitted as nat,
            in_flight: self.in_flight as nat,
        }
    }
}

impl FetchAdmission {
    /// Admission for `total` sources with at most `capacity` in flight; none for
    /// a ceiling of zero, under which nothing could ever start.
    pub fn new(capacity: usize, total: usize) -> (r: Option<FetchAdmission>)
        ensures
            r is Some <==> capacity >= 1,
            r matches Some(g) ==> g@ == (AdmissionState { capacity: capacity as nat, total: total as nat, admitted: 0, in_flight: 0 }) && g@.wf(),
    {
        if capacity == 0 {
            None
        } else {
            Some(FetchAdmission { capacity, total, admitted: 0, in_flight: 0 })
        }
    }

    /// Takes a slot for the next source and returns its position in the
    /// source list, when a slot is free and a source is left.
    pub fn try_admit(&mut self) -> (r: Option<usize>)
        requires
            old(self)@.wf(),
        ensures
            final(self)@ == admission_step(old(self)@, AdmissionEvent::Admit),
            final(self)@.wf(),
            r is Some <==> old(self)@.can_admit(),
            r matches Some(k) ==> k == old(self)@.admitted,
    {
        if self.in_flight < self.capacity && self.admitted < self.total {
            let k = self.admitted;
            self.admitted = self.admitted + 1;
            self.in_flight = self.in_flight + 1;
            Some(k)
        } else {
            None
        }
    }

    /// Gives back the slot of a fetch that finished; false when none was in
    /// flight.
    pub fn complete(&mut self) -> (r: bool)
        requires
            old(self)@.wf(),
        ensures
            final(self)@ == admission_step(old(self)@, AdmissionEvent::Complete),
            final(self)@.wf(),
            r == (old(self)@.in_flight > 0),
    {
        if self.in_flight > 0 {
            self.in_flight = self.in_flight - 1;
            true
        } else {
            false
        }
    }

    /// How many fetches are in flight.
    pub fn in_flight(&self) -> (r: usize)
        ensures
            r == self@.in_flight,
    {
        self.in_flight
    }

    /// Every source was admitted and every fetch has completed.
    pub fn is_finished(&self) -> (r: bool)
        ensures
            r == (self@.admitted == self@.total && self@.in_flight == 0),
    {
        self.admitted == self.total && self.in_flight == 0
    }
}

/// Whatever events arrive, in whatever order, a well-formed admission state stays well
/// formed: the number of fetches in flight never exceeds the ceiling.
pub proof fn lemma_in_flight_never_exceeds_capacity(s: AdmissionState, evs: Seq<AdmissionEvent>)
    requires
        s.wf(),
    ensures
        admission_run(s, evs).wf(),
        admission_run(s, evs).in_flight <= s.capacity,
        admission_run(s, evs).capacity == s.capacity,
    decreases evs.len(),
{
    if evs.len() > 0 {
        lemma_in_flight_never_exceeds_capacity(s, evs.drop_last());
    }
}

/// A failed attempt contributes nothing: removing it leaves the successful
/// results as they were, so the other sources contribute exactly as before.
pub proof fn lemma_failure_contributes_nothing(v: Seq<Option<(Seq<char>, Seq<char>)>>, i: int)
    requires
        0 <= i < v.len(),
        v[i] is None,
    ensures
        successes(v) == successes(v.remove(i)),
    decreases v.len(),
{
    if i == v.len() - 1 {
        assert(v.remove(i) =~= v.drop_last());
    } else {
        lemma_failure_contributes_nothing(v.drop_last(), i);
        assert(v.remove(i).drop_last() =~= v.drop_last().remove(i));
        assert(v.remove(i).last() == v.last());
    }
}

} // verus!

//! The prefetchers: what they ask of the kernel and how they report.

use vstd::prelude::*;
use crate::domain::{MapId, MapKey, MapKeyView};
use crate::prefetch::plan::{PrefetchPlan, PrefetchReport};
use crate::stores::state::{Stores, StoresView};

verus! {

/// The prefetcher that does nothing: it reports that nothing was
/// prefetched.
#[derive(Clone, Copy, Debug, PartialEq, Eq, Structural)]
pub struct NoopPrefetcher;

impl NoopPrefetcher {
    /// The report of a cycle in which nothing was prefetched.
    pub fn execute(&self, plan: &PrefetchPlan, stores: &Stores) -> (r: PrefetchReport)
        ensures
            r.num_maps == 0,
            r.total_bytes == 0,
            r.failures@.len() == 0,
    {
        PrefetchReport::new()
    }
}

impl Default for NoopPrefetcher {
    fn default() -> (r: Self) {
        NoopPrefetcher
    }
}

/// What a readahead request stands for.
pub ghost struct ReadaheadRequestView {
    pub key: MapKeyView,
    pub offset: i64,
    pub length: i64,
}

/// One advisory request: the kernel is told that the region of the file
/// will be needed. The file is opened for reading only, without making it
/// the controlling terminal and without updating its access time.
#[derive(Clone, Debug, PartialEq, Eq)]
pub struct ReadaheadRequest {
    /// The map of the request; its path is the file to open.
    pub key: MapKey,
    /// Offset of the region, as the system call takes it.
    pub offset: i64,
    /// Length of the region, as the system call takes it.
    pub length: i64,
}

impl View for ReadaheadRequest {
    type V = ReadaheadRequestView;

    open spec fn view(&self) -> ReadaheadRequestView {
        ReadaheadRequestView { key: self.key@, offset: self.offset, length: self.length }
    }
}

/// What an outcome stands for.
pub ghost enum ReadaheadOutcomeView {
    Advised,
    Failed(MapKeyView),
    Lost,
}

/// What became of one request.
#[derive(Clone, Debug, PartialEq, Eq)]
pub enum ReadaheadOutcome {
    /// The hint was given.
    Advised,
    /// The file could not be opened or the hint was refused.
    Failed(MapKey),
    /// The task of the request did not come back.
    Lost,
}

impl View for ReadaheadOutcome {
    type V = ReadaheadOutcomeView;

    open spec fn view(&self) -> ReadaheadOutcomeView {
        match self {
            ReadaheadOutcome::Advised => ReadaheadOutcomeView::Advised,
            ReadaheadOutcome::Failed(key) => ReadaheadOutcomeView::Failed(key@),
            ReadaheadOutcome::Lost => ReadaheadOutcomeView::Lost,
        }
    }
}

/// The requests for the first `n` maps of `maps`: one for each map that
/// the stores hold, in order.
pub open spec fn requests_for(v: StoresView, maps: Seq<MapId>, n: nat) -> Seq<
    ReadaheadRequestView,
>
    decreases n,
{
    if n == 0 {
        Seq::empty()
    } else {
        let rest = requests_for(v, maps, (n - 1) as nat);
        let id = maps[n - 1];
        if v.has_map(id) {
            rest.push(
                ReadaheadRequestView {
                    key: v.maps[id.0 as int].key(),
                    offset: v.maps[id.0 as int].offset as i64,
                    length: v.maps[id.0 as int].length as i64,
                },
            )
        } else {
            rest
        }
    }
}

/// Number of requests among the first `n` outcomes for which the hint was
/// given.
pub open spec fn advised(outcomes: Seq<ReadaheadOutcomeView>, n: nat) -> nat
    decreases n,
{
    if n == 0 {
        0
    } else {
        advised(outcomes, (n - 1) as nat) + (if outcomes[n - 1] is Advised {
            1nat
        } else {
            0nat
        })
    }
}

/// The maps of the failed requests among the first `n` outcomes, in order.
pub open spec fn failed(outcomes: Seq<ReadaheadOutcomeView>, n: nat) -> Seq<MapKeyView>
    decreases n,
{
    if n == 0 {
        Seq::empty()
    } else {
        let rest = failed(outcomes, (n - 1) as nat);
        match outcomes[n - 1] {
            ReadaheadOutcomeView::Failed(key) => rest.push(key),
            _ => rest,
        }
    }
}

proof fn lemma_advised_bound(outcomes: Seq<ReadaheadOutcomeView>, n: nat)
    ensures
        advised(outcomes, n) <= n,
    decreases n,
{
    if n > 0 {
        lemma_advised_bound(outcomes, (n - 1) as nat);
    }
}

/// The prefetcher that gives the kernel a readahead hint for every map of
/// the plan, with a bounded number of requests in flight.
#[derive(Clone, Copy, Debug, PartialEq, Eq, Structural)]
pub struct PosixFadvisePrefetcher {
    concurrency: usize,
}

impl PosixFadvisePrefetcher {
    pub fn new(concurrency: usize) -> (r: Self)
        ensures
            r.spec_concurrency() == concurrency,
    {
        PosixFadvisePrefetcher { concurrency }
    }

    /// The concurrency that the prefetcher was made with.
    pub closed spec fn spec_concurrency(&self) -> usize {
        self.concurrency
    }

    /// Number of requests that may be in flight at a time: the concurrency
    /// that the prefetcher was made with, and at least one.
    pub fn limit(&self) -> (r: usize)
        ensures
            r == (if self.spec_concurrency() < 1 {
                1usize
            } else {
                self.spec_concurrency()
            }),
    {
        if self.concurrency < 1 {
            1
        } else {
            self.concurrency
        }
    }

    /// The requests of `plan`: one for each map of the plan that the stores
    /// hold, in the order of the plan. Offset and length are the signed
    /// values with the bits of those of the map.
    pub fn requests(&self, plan: &PrefetchPlan, stores: &Stores) -> (r: Vec<ReadaheadRequest>)
        ensures
            r@.map_values(|q: ReadaheadRequest| q@) == requests_for(
                stores@,
                plan.maps@,
                plan.maps@.len(),
            ),
    {
        let mut r: Vec<ReadaheadRequest> = Vec::new();
        let mut i: usize = 0;
        assert(r@.map_values(|q: ReadaheadRequest| q@) =~= requests_for(stores@, plan.maps@, 0));
        while i < plan.maps.len()
            invariant
                i <= plan.maps@.len(),
                r@.map_values(|q: ReadaheadRequest| q@) == requests_for(
                    stores@,
                    plan.maps@,
                    i as nat,
                ),
            decreases plan.maps@.len() - i,
        {
            let ghost before = r@.map_values(|q: ReadaheadRequest| q@);
            match stores.maps().get(plan.maps[i]) {
                Some(map) => {
                    let request = ReadaheadRequest {
                        key: map.key(),
                        offset: map.offset as i64,
                        length: map.length as i64,
                    };
                    r.push(request);
                    assert(r@.map_values(|q: ReadaheadRequest| q@) =~= before.push(
                        r@[r@.len() - 1]@,
                    ));
                },
                None => {},
            }
            i += 1;
        }
        r
    }

    /// The report of the execution of `plan`, given what became of each
    /// request: the number of hints given, the maps of the failed requests
    /// in order, and the bytes of the plan. A failure is reported and never
    /// stops the cycle.
    pub fn report(&self, plan: &PrefetchPlan, outcomes: &Vec<ReadaheadOutcome>) -> (r:
        PrefetchReport)
        ensures
            r.num_maps == advised(
                outcomes@.map_values(|o: ReadaheadOutcome| o@),
                outcomes@.len(),
            ),
            r.failures@.map_values(|k: MapKey| k@) == failed(
                outcomes@.map_values(|o: ReadaheadOutcome| o@),
                outcomes@.len(),
            ),
            r.total_bytes == plan.total_bytes,
    {
        let ghost views = outcomes@.map_values(|o: ReadaheadOutcome| o@);
        let mut num_maps: usize = 0;
        let mut failures: Vec<MapKey> = Vec::new();
        let mut i: usize = 0;
        assert(failures@.map_values(|k: MapKey| k@) =~= failed(views, 0));
        while i < outcomes.len()
            invariant
                i <= outcomes@.len(),
                views == outcomes@.map_values(|o: ReadaheadOutcome| o@),
                num_maps == advised(views, i as nat),
                num_maps <= i,
                failures@.map_values(|k: MapKey| k@) == failed(views, i as nat),
            decreases outcomes@.len() - i,
        {
            let ghost before = failures@.map_values(|k: MapKey| k@);
            match &outcomes[i] {
                ReadaheadOutcome::Advised => {
                    num_maps += 1;
                },
                ReadaheadOutcome::Failed(key) => {
                    failures.push(MapKey {
                        path: key.path.clone(),
                        offset: key.offset,
                        length: key.length,
                    });
                    assert(failures@.map_values(|k: MapKey| k@) =~= before.push(key@));
                },
                ReadaheadOutcome::Lost => {},
            }
            i += 1;
        }
        PrefetchReport { num_maps, total_bytes: plan.total_bytes, failures }
    }
}

/// The prefetcher that the options ask for.
#[derive(Clone, Copy, Debug, PartialEq, Eq)]
pub enum ChosenPrefetcher {
    Noop(NoopPrefetcher),
    Fadvise(PosixFadvisePrefetcher),
}

/// The prefetcher for a concurrency of `prefetch_concurrency`: zero
/// disables prefetching, and any other number is the concurrency of the
/// prefetcher that gives the hints.
pub fn prefetcher_for(prefetch_concurrency: u32) -> (r: ChosenPrefetcher)
    ensures
        match r {
            ChosenPrefetcher::Noop(_) => prefetch_concurrency == 0,
            ChosenPrefetcher::Fadvise(p) => prefetch_concurrency > 0 && p.spec_concurrency()
                == prefetch_concurrency,
        },
{
    if prefetch_concurrency == 0 {
        ChosenPrefetcher::Noop(NoopPrefetcher)
    } else {
        ChosenPrefetcher::Fadvise(PosixFadvisePrefetcher::new(prefetch_concurrency as usize))
    }
}

} // verus!

//! The checks that precede a run, the work plan, and the verdict drawn from
//! the workers' outcomes.

use vstd::prelude::*;

use crate::config::{Address, ConfigError, Settings};
use crate::oracle::OracleError;
use crate::product::{copy_words, lists_view};
use crate::space::{
    build_search_space, space_of, template_complexity, template_valid, SearchSpace, SpaceError,
    TemplateSlot,
};
use crate::split::{choose_worker_count, divides_wordlist, split_space, splits_into};

verus! {

/// Which oracle a run asks.
#[derive(PartialEq, Eq, Structural, Debug, Clone, Copy)]
pub enum Mode {
    /// A list of known addresses.
    AddressList,
    /// An offline ledger database.
    Ledger,
    /// A remote node's balances.
    Node,
}

/// The mode a settings number selects.
pub open spec fn mode_of(m: u8) -> Option<Mode> {
    if m == 1 {
        Some(Mode::AddressList)
    } else if m == 2 {
        Some(Mode::Ledger)
    } else if m == 3 {
        Some(Mode::Node)
    } else {
        None
    }
}

/// The mode for a settings number: 1 address list, 2 ledger, 3 node.
pub fn select_mode(m: u8) -> (r: Result<Mode, ConfigError>)
    ensures
        mode_of(m) is Some ==> r == Ok::<Mode, ConfigError>(mode_of(m)->Some_0),
        mode_of(m) is None ==> r == Err::<Mode, ConfigError>(ConfigError::UnknownMode),
{
    if m == 1 {
        Ok(Mode::AddressList)
    } else if m == 2 {
        Ok(Mode::Ledger)
    } else if m == 3 {
        Ok(Mode::Node)
    } else {
        Err(ConfigError::UnknownMode)
    }
}

/// Why a run does not start.
#[derive(PartialEq, Eq, Structural, Debug, Clone, Copy)]
pub enum RunError {
    Space(SpaceError),
    Config(ConfigError),
}

/// What a run will do: its mode, its search space, the worker count chosen,
/// and the candidate lists of each partition of the space.
pub struct RunPlan {
    pub mode: Mode,
    pub space: SearchSpace,
    pub workers: usize,
    pub partitions: Vec<Vec<Vec<u16>>>,
}

/// The partitions for `workers` workers where several are used, or the
/// whole space as one partition.
pub open spec fn plan_partitions(
    lists: Seq<Seq<u16>>,
    several: bool,
    workers: int,
    partitions: Seq<Vec<Vec<u16>>>,
) -> bool {
    if several {
        splits_into(lists, workers, partitions)
    } else {
        partitions.len() == 1 && lists_view(partitions[0]@) == lists
    }
}

/// A run spreads over several workers where multithreading is asked for,
/// except against a node.
pub open spec fn uses_workers(mode: Mode, multithreaded: bool) -> bool {
    multithreaded && mode != Mode::Node
}

/// The worker count chosen for `available` units: the largest from 2 to
/// `available` that divides the wordlist size.
pub open spec fn chosen_worker_count(available: int, n: int) -> bool {
    2 <= n <= available && divides_wordlist(n) && forall|k: int|
        n < k <= available ==> !divides_wordlist(k)
}

/// Checks a run's configuration and plans its work, before any worker
/// starts. In this order: the mode must be known; the template valid and
/// its number of combinations within `u64::MAX`; in address mode the
/// address list non-empty; and where several workers are asked for, at
/// least two execution units available.
pub fn plan_run(
    settings: &Settings,
    address: &Address,
    template: &Vec<TemplateSlot>,
    available_units: usize,
) -> (r: Result<RunPlan, RunError>)
    ensures
        mode_of(settings.mode) is None ==> r == Err::<RunPlan, RunError>(
            RunError::Config(ConfigError::UnknownMode),
        ),
        mode_of(settings.mode) is Some && !template_valid(template@) ==> r is Err && r->Err_0
            == RunError::Space(SpaceError::InvalidTemplate),
        mode_of(settings.mode) is Some && template_valid(template@) && template_complexity(
            template@,
        ) > u64::MAX ==> r is Err && r->Err_0 == RunError::Space(SpaceError::ComplexityOverflow),
        mode_of(settings.mode) is Some && template_valid(template@) && template_complexity(
            template@,
        ) <= u64::MAX ==> ({
            let mode = mode_of(settings.mode)->Some_0;
            let no_addresses = mode == Mode::AddressList && address.addresses@.len() == 0;
            let several = uses_workers(mode, settings.multithreaded);
            &&& no_addresses ==> r is Err && r->Err_0 == RunError::Config(ConfigError::NoAddresses)
            &&& !no_addresses && several && available_units < 2 ==> r is Err && r->Err_0
                == RunError::Config(ConfigError::TooFewExecutionUnits)
            &&& !no_addresses && (!several || available_units >= 2) ==> r is Ok && ({
                let plan = r->Ok_0;
                &&& plan.mode == mode
                &&& space_of(template@, plan.space)
                &&& plan.space.wf()
                &&& several ==> chosen_worker_count(available_units as int, plan.workers as int)
                &&& !several ==> plan.workers == 1
                &&& plan_partitions(
                    plan.space.lists(),
                    several,
                    plan.workers as int,
                    plan.partitions@,
                )
            })
        }),
{
    let mode = match select_mode(settings.mode) {
        Ok(m) => m,
        Err(e) => {
            return Err(RunError::Config(e));
        },
    };
    let space = match build_search_space(template) {
        Ok(s) => s,
        Err(e) => {
            return Err(RunError::Space(e));
        },
    };
    if mode == Mode::AddressList && address.addresses.as_str().unicode_len() == 0 {
        return Err(RunError::Config(ConfigError::NoAddresses));
    }
    if settings.multithreaded && mode != Mode::Node {
        let n = match choose_worker_count(available_units) {
            Ok(n) => n,
            Err(e) => {
                return Err(RunError::Config(e));
            },
        };
        let partitions = split_space(&space.possibilities, n);
        assert(chosen_worker_count(available_units as int, n as int));
        Ok(RunPlan { mode, space, workers: n, partitions })
    } else {
        let mut whole: Vec<Vec<u16>> = Vec::new();
        let mut k: usize = 0;
        while k < space.possibilities.len()
            invariant
                0 <= k <= space.possibilities@.len(),
                lists_view(whole@) == lists_view(space.possibilities@).take(k as int),
            decreases space.possibilities@.len() - k,
        {
            let ghost before = lists_view(whole@);
            whole.push(copy_words(&space.possibilities[k]));
            assert(lists_view(whole@) =~= before.push(space.possibilities@[k as int]@));
            assert(lists_view(space.possibilities@).take(k + 1) =~= lists_view(
                space.possibilities@,
            ).take(k as int).push(space.possibilities@[k as int]@));
            k = k + 1;
        }
        assert(lists_view(space.possibilities@).take(space.possibilities@.len() as int)
            =~= lists_view(space.possibilities@));
        let mut partitions: Vec<Vec<Vec<u16>>> = Vec::new();
        partitions.push(whole);
        Ok(RunPlan { mode, space, workers: 1, partitions })
    }
}

/// How one worker ended.
pub enum WorkerOutcome {
    /// It went through its partition, or was stopped, without a match.
    Exhausted,
    /// It found at least one match.
    Found,
    /// Its oracle failed.
    Failed(OracleError),
    /// Its derivation faulted.
    Panicked,
}

/// The verdict of a run.
#[derive(PartialEq, Eq, Structural, Debug, Clone, Copy)]
pub enum Verdict {
    Found,
    NotFound,
    /// An oracle failed or a worker faulted: a match may have been missed.
    Inconclusive,
}

pub open spec fn outcome_failed(o: WorkerOutcome) -> bool {
    o is Failed || o is Panicked
}

/// The verdict on the outcomes gathered: inconclusive where any worker
/// failed, found where any found a match, not found otherwise.
pub open spec fn verdict_of(outcomes: Seq<WorkerOutcome>) -> Verdict {
    if exists|i: int| 0 <= i < outcomes.len() && outcome_failed(#[trigger] outcomes[i]) {
        Verdict::Inconclusive
    } else if exists|i: int| 0 <= i < outcomes.len() && (#[trigger] outcomes[i]) is Found {
        Verdict::Found
    } else {
        Verdict::NotFound
    }
}

/// Gathers the workers' outcomes as they arrive.
pub struct Aggregator {
    stop_at_first: bool,
    outcomes: Ghost<Seq<WorkerOutcome>>,
    failed: bool,
    found: bool,
}

impl Aggregator {
    /// The outcomes recorded so far, in order of arrival.
    pub closed spec fn recorded(&self) -> Seq<WorkerOutcome> {
        self.outcomes@
    }

    pub closed spec fn stops_at_first(&self) -> bool {
        self.stop_at_first
    }

    pub closed spec fn wf(&self) -> bool {
        &&& self.failed == exists|i: int|
            0 <= i < self.outcomes@.len() && outcome_failed(#[trigger] self.outcomes@[i])
        &&& self.found == exists|i: int|
            0 <= i < self.outcomes@.len() && (#[trigger] self.outcomes@[i]) is Found
    }

    /// An aggregator with nothing recorded.
    pub fn new(stop_at_first: bool) -> (r: Aggregator)
        ensures
            r.wf(),
            r.recorded().len() == 0,
            r.stops_at_first() == stop_at_first,
    {
        Aggregator { stop_at_first, outcomes: Ghost(Seq::empty()), failed: false, found: false }
    }

    /// Records one worker's outcome. The result says whether to stop
    /// waiting for the others: where the run stops at the first match and
    /// this worker found one.
    pub fn record(&mut self, outcome: WorkerOutcome) -> (stop_waiting: bool)
        requires
            old(self).wf(),
        ensures
            final(self).wf(),
            final(self).recorded() == old(self).recorded().push(outcome),
            final(self).stops_at_first() == old(self).stops_at_first(),
            stop_waiting == (old(self).stops_at_first() && outcome is Found),
    {
        let ghost before = self.outcomes@;
        let is_found = match outcome {
            WorkerOutcome::Found => true,
            _ => false,
        };
        let is_failed = match outcome {
            WorkerOutcome::Failed(_) => true,
            WorkerOutcome::Panicked => true,
            _ => false,
        };
        proof {
            self.outcomes@ = before.push(outcome);
        }
        let ghost after = self.outcomes@;
        assert(after[before.len() as int] == outcome);
        assert forall|i: int| 0 <= i < before.len() implies after[i] == before[i] by {}
        if is_found {
            self.found = true;
        }
        if is_failed {
            self.failed = true;
        }
        assert(self.found == exists|i: int| 0 <= i < after.len() && (#[trigger] after[i]) is Found)
            by {
            if self.found && !is_found {
                let i = choose|i: int| 0 <= i < before.len() && (#[trigger] before[i]) is Found;
                assert(after[i] is Found);
            }
        }
        assert(self.failed == exists|i: int|
            0 <= i < after.len() && outcome_failed(#[trigger] after[i])) by {
            if self.failed && !is_failed {
                let i = choose|i: int| 0 <= i < before.len() && outcome_failed(#[trigger] before[i]);
                assert(outcome_failed(after[i]));
            }
        }
        self.stop_at_first && is_found
    }

    /// The verdict on the outcomes recorded.
    pub fn verdict(&self) -> (r: Verdict)
        requires
            self.wf(),
        ensures
            r == verdict_of(self.recorded()),
    {
        if self.failed {
            Verdict::Inconclusive
        } else if self.found {
            Verdict::Found
        } else {
            Verdict::NotFound
        }
    }
}

/// Zero for a conclusive verdict, one for an inconclusive verdict.
pub fn exit_code(v: Verdict) -> (r: i32)
    ensures
        v == Verdict::Inconclusive ==> r == 1,
        v != Verdict::Inconclusive ==> r == 0,
{
    match v {
        Verdict::Inconclusive => 1,
        _ => 0,
    }
}

} // verus!

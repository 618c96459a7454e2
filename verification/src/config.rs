//! Options that the core consumes from the daemon's configuration.

use vstd::prelude::*;

verus! {

/// Lowest percentage a memory policy field may carry after clamping.
pub const PERCENT_MIN: i32 = -100;

/// Highest percentage a memory policy field may carry after clamping.
pub const PERCENT_MAX: i32 = 100;

/// `v` limited to the closed range of percentages.
pub open spec fn clamp_percent(v: int) -> int {
    if v < PERCENT_MIN {
        PERCENT_MIN as int
    } else if v > PERCENT_MAX {
        PERCENT_MAX as int
    } else {
        v
    }
}

/// Shares of total, free and cached memory that prefetching may claim,
/// in percent. A negative share debits the budget.
#[derive(Clone, Copy, Debug, PartialEq, Eq, Structural)]
pub struct MemoryPolicy {
    /// Percentage of total memory.
    pub memtotal: i32,
    /// Percentage of free memory.
    pub memfree: i32,
    /// Percentage of cached memory.
    pub memcached: i32,
}

impl MemoryPolicy {
    /// Every field lies within the closed range of percentages.
    pub open spec fn in_range(self) -> bool {
        &&& PERCENT_MIN <= self.memtotal <= PERCENT_MAX
        &&& PERCENT_MIN <= self.memfree <= PERCENT_MAX
        &&& PERCENT_MIN <= self.memcached <= PERCENT_MAX
    }

    /// The policy with each field limited to `[-100, 100]`.
    pub open spec fn clamp_spec(self) -> MemoryPolicy {
        MemoryPolicy {
            memtotal: clamp_percent(self.memtotal as int) as i32,
            memfree: clamp_percent(self.memfree as int) as i32,
            memcached: clamp_percent(self.memcached as int) as i32,
        }
    }

    /// The policy with each field limited to `[-100, 100]`.
    pub fn clamp(self) -> (r: Self)
        ensures
            r == self.clamp_spec(),
            r.in_range(),
            self.in_range() ==> r == self,
    {
        MemoryPolicy {
            memtotal: clamp_field(self.memtotal),
            memfree: clamp_field(self.memfree),
            memcached: clamp_field(self.memcached),
        }
    }
}

fn clamp_field(v: i32) -> (r: i32)
    ensures
        r == clamp_percent(v as int),
{
    if v < PERCENT_MIN {
        PERCENT_MIN
    } else if v > PERCENT_MAX {
        PERCENT_MAX
    } else {
        v
    }
}

impl Default for MemoryPolicy {
    fn default() -> (r: Self)
        ensures
            r.memtotal == -10,
            r.memfree == 50,
            r.memcached == 0,
    {
        MemoryPolicy { memtotal: -10, memfree: 50, memcached: 0 }
    }
}

/// The order in which the maps of a plan are issued.
#[derive(Clone, Copy, Debug, PartialEq, Eq, Structural)]
pub enum SortStrategy {
    /// The order of selection: by descending score.
    Unsorted,
    /// By the path of the mapped file, in the order of paths.
    Path,
    /// By device, block on the device and offset.
    Block,
    /// By device, inode and offset.
    Inode,
}

impl Default for SortStrategy {
    fn default() -> (r: Self)
        ensures
            r == SortStrategy::Block,
    {
        SortStrategy::Block
    }
}

/// Options of the cycle as a whole.
#[derive(Clone, Debug)]
pub struct System {
    /// Whether a tick scans and updates the model.
    pub doscan: bool,
    /// Whether a tick predicts, plans and prefetches.
    pub dopredict: bool,
    /// Number of readahead requests in flight; zero disables prefetching.
    pub prefetch_concurrency: u32,
    pub sortstrategy: SortStrategy,
    /// Path prefixes of the executables to follow; a prefix behind `!`
    /// excludes.
    pub exeprefix: Vec<String>,
    /// Seconds between two saves of the state.
    pub autosave: u64,
}

/// What the options of the cycle stand for.
pub ghost struct SystemView {
    pub doscan: bool,
    pub dopredict: bool,
    pub prefetch_concurrency: u32,
    pub sortstrategy: SortStrategy,
    pub exeprefix: Seq<Seq<char>>,
    pub autosave: u64,
}

impl View for System {
    type V = SystemView;

    open spec fn view(&self) -> SystemView {
        SystemView {
            doscan: self.doscan,
            dopredict: self.dopredict,
            prefetch_concurrency: self.prefetch_concurrency,
            sortstrategy: self.sortstrategy,
            exeprefix: self.exeprefix@.map_values(|p: String| p@),
            autosave: self.autosave,
        }
    }
}

/// Seconds of the default cycle.
pub const DEFAULT_CYCLE_SECS: u64 = 20;

/// Bytes below which an executable is not followed by default.
pub const DEFAULT_MINSIZE: u64 = 2_000_000;

/// Seconds of the default active window: six hours.
pub const DEFAULT_ACTIVE_WINDOW_SECS: u64 = 21_600;

/// Options of the model. The decay factor of the Markov statistics is a
/// floating-point option; the program that evaluates them holds it.
#[derive(Clone, Copy, Debug, PartialEq, Eq, Structural)]
pub struct Model {
    /// Seconds between two ticks.
    pub cycle: u64,
    /// Whether the predictor weighs an edge by the correlation of its
    /// executables.
    pub use_correlation: bool,
    /// Bytes an executable must have mapped to be followed.
    pub minsize: u64,
    /// Seconds for which an executable stays active after it was last seen.
    pub active_window: u64,
    pub memory: MemoryPolicy,
}

impl Default for Model {
    fn default() -> (r: Self)
        ensures
            r.cycle == DEFAULT_CYCLE_SECS,
            r.use_correlation,
            r.minsize == DEFAULT_MINSIZE,
            r.active_window == DEFAULT_ACTIVE_WINDOW_SECS,
            r.memory.memtotal == -10,
            r.memory.memfree == 50,
            r.memory.memcached == 0,
    {
        Model {
            cycle: DEFAULT_CYCLE_SECS,
            use_correlation: true,
            minsize: DEFAULT_MINSIZE,
            active_window: DEFAULT_ACTIVE_WINDOW_SECS,
            memory: MemoryPolicy { memtotal: -10, memfree: 50, memcached: 0 },
        }
    }
}

/// Options of persistence.
#[derive(Clone, Debug, PartialEq, Eq)]
pub struct Persistence {
    /// Where the state is kept; without a path nothing is persisted.
    pub state_path: Option<String>,
    /// Seconds between two saves; takes the place of `System::autosave`.
    pub autosave_interval: Option<u64>,
    pub save_on_shutdown: bool,
}

/// What the options of persistence stand for.
pub ghost struct PersistenceView {
    pub state_path: Option<Seq<char>>,
    pub autosave_interval: Option<u64>,
    pub save_on_shutdown: bool,
}

impl View for Persistence {
    type V = PersistenceView;

    open spec fn view(&self) -> PersistenceView {
        PersistenceView {
            state_path: match self.state_path {
                Some(p) => Some(p@),
                None => None,
            },
            autosave_interval: self.autosave_interval,
            save_on_shutdown: self.save_on_shutdown,
        }
    }
}

impl Default for Persistence {
    fn default() -> (r: Self)
        ensures
            r.state_path is None,
            r.autosave_interval is None,
            r.save_on_shutdown,
    {
        Persistence { state_path: None, autosave_interval: None, save_on_shutdown: true }
    }
}

/// The options that the core consumes.
#[derive(Clone, Debug)]
pub struct Config {
    pub system: System,
    pub model: Model,
    pub persistence: Persistence,
}

/// What the options stand for.
pub ghost struct ConfigView {
    pub system: SystemView,
    pub model: Model,
    pub persistence: PersistenceView,
}

impl View for Config {
    type V = ConfigView;

    open spec fn view(&self) -> ConfigView {
        ConfigView { system: self.system@, model: self.model, persistence: self.persistence@ }
    }
}

impl Config {
    /// Seconds between two saves of the state: the interval of the
    /// persistence options where they give one, that of the system options
    /// otherwise.
    pub open spec fn spec_autosave_secs(v: ConfigView) -> u64 {
        match v.persistence.autosave_interval {
            Some(secs) => secs,
            None => v.system.autosave,
        }
    }

    /// Seconds between two saves of the state.
    pub fn autosave_secs(&self) -> (r: u64)
        ensures
            r == Self::spec_autosave_secs(self@),
    {
        match self.persistence.autosave_interval {
            Some(secs) => secs,
            None => self.system.autosave,
        }
    }
}

} // verus!

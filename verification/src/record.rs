use vstd::prelude::*;
use crate::stats::{BenchmarkComputations, BenchmarkDurations, TimingMethod};

verus! {

/// Inventory of the machine a run was measured on, as attached by the
/// caller: CPU and GPU names. This crate stores and transports it unchanged.
#[derive(Clone, Debug, PartialEq)]
pub struct BenchmarkSystemInfo {
    /// CPU names.
    pub cpus: Vec<String>,
    /// GPU names.
    pub gpus: Vec<String>,
}

/// Result of a benchmark run, with metadata.
#[derive(Clone, Debug, PartialEq)]
pub struct BenchmarkResult {
    /// Individual raw results of the run.
    pub raw: BenchmarkDurations,
    /// Computed values for the run.
    pub computed: BenchmarkComputations,
    /// Git commit hash of the commit in which the run occurred.
    pub git_hash: String,
    /// Name of the benchmark.
    pub name: String,
    /// Options passed to the benchmark.
    pub options: Option<String>,
    /// Shape dimensions.
    pub shapes: Vec<Vec<usize>>,
    /// Time just before the run, in milliseconds since the epoch.
    pub timestamp: u128,
}

/// One benchmark record: a run's result plus where it ran.
#[derive(Clone, Debug, PartialEq)]
pub struct BenchmarkRecord {
    pub backend: String,
    pub device: String,
    pub feature: String,
    pub burn_version: String,
    pub system_info: BenchmarkSystemInfo,
    pub results: BenchmarkResult,
}

/// Mathematical view of the computed statistics, in total nanoseconds.
pub ghost struct ComputationsView {
    pub mean: int,
    pub median: int,
    pub variance: int,
    pub min: int,
    pub max: int,
}

/// Mathematical view of the raw samples of a run.
pub ghost struct DurationsView {
    pub timing_method: TimingMethod,
    pub samples: Seq<int>,
}

/// Mathematical view of the system inventory.
pub ghost struct SystemInfoView {
    pub cpus: Seq<Seq<char>>,
    pub gpus: Seq<Seq<char>>,
}

/// Mathematical view of a run's result.
pub ghost struct ResultView {
    pub raw: DurationsView,
    pub computed: ComputationsView,
    pub git_hash: Seq<char>,
    pub name: Seq<char>,
    pub options: Option<Seq<char>>,
    pub shapes: Seq<Seq<int>>,
    pub timestamp: int,
}

/// Mathematical view of a benchmark record.
pub ghost struct RecordView {
    pub backend: Seq<char>,
    pub device: Seq<char>,
    pub feature: Seq<char>,
    pub burn_version: Seq<char>,
    pub system_info: SystemInfoView,
    pub results: ResultView,
}

impl View for BenchmarkComputations {
    type V = ComputationsView;

    open spec fn view(&self) -> ComputationsView {
        ComputationsView {
            mean: self.mean@,
            median: self.median@,
            variance: self.variance@,
            min: self.min@,
            max: self.max@,
        }
    }
}

impl View for BenchmarkDurations {
    type V = DurationsView;

    open spec fn view(&self) -> DurationsView {
        DurationsView {
            timing_method: self.timing_method,
            samples: crate::stats::dur_seq(self.durations@),
        }
    }
}

impl View for BenchmarkSystemInfo {
    type V = SystemInfoView;

    open spec fn view(&self) -> SystemInfoView {
        SystemInfoView {
            cpus: self.cpus@.map_values(|s: String| s@),
            gpus: self.gpus@.map_values(|s: String| s@),
        }
    }
}

impl View for BenchmarkResult {
    type V = ResultView;

    open spec fn view(&self) -> ResultView {
        ResultView {
            raw: self.raw@,
            computed: self.computed@,
            git_hash: self.git_hash@,
            name: self.name@,
            options: match self.options {
                Some(s) => Some(s@),
                None => None,
            },
            shapes: self.shapes@.map_values(|row: Vec<usize>| row@.map_values(|n: usize| n as int)),
            timestamp: self.timestamp as int,
        }
    }
}

impl View for BenchmarkRecord {
    type V = RecordView;

    open spec fn view(&self) -> RecordView {
        RecordView {
            backend: self.backend@,
            device: self.device@,
            feature: self.feature@,
            burn_version: self.burn_version@,
            system_info: self.system_info@,
            results: self.results@,
        }
    }
}

/// The zeroed record every decode starts from: empty strings and sequences,
/// zero durations, the default timing method.
pub open spec fn empty_record_view() -> RecordView {
    RecordView {
        backend: Seq::empty(),
        device: Seq::empty(),
        feature: Seq::empty(),
        burn_version: Seq::empty(),
        system_info: SystemInfoView { cpus: Seq::empty(), gpus: Seq::empty() },
        results: ResultView {
            raw: DurationsView { timing_method: TimingMethod::System, samples: Seq::empty() },
            computed: ComputationsView { mean: 0, median: 0, variance: 0, min: 0, max: 0 },
            git_hash: Seq::empty(),
            name: Seq::empty(),
            options: None,
            shapes: Seq::empty(),
            timestamp: 0,
        },
    }
}

impl Default for BenchmarkSystemInfo {
    fn default() -> (r: Self)
        ensures
            r@ == (SystemInfoView { cpus: Seq::<Seq<char>>::empty(), gpus: Seq::<Seq<char>>::empty() }),
    {
        let r = BenchmarkSystemInfo { cpus: Vec::new(), gpus: Vec::new() };
        proof {
            assert(r@.cpus =~= Seq::<Seq<char>>::empty());
            assert(r@.gpus =~= Seq::<Seq<char>>::empty());
        }
        r
    }
}

impl Default for BenchmarkResult {
    /// The zeroed result decode scaffolding starts from; never a real
    /// result until the codec fills it.
    fn default() -> (r: Self)
        ensures
            r@ == empty_record_view().results,
    {
        let r = BenchmarkResult {
            raw: BenchmarkDurations::default(),
            computed: BenchmarkComputations::default(),
            git_hash: String::new(),
            name: String::new(),
            options: None,
            shapes: Vec::new(),
            timestamp: 0,
        };
        proof {
            assert(r@.raw.samples =~= Seq::<int>::empty());
            assert(r@.shapes =~= Seq::<Seq<int>>::empty());
        }
        r
    }
}

impl Default for BenchmarkRecord {
    fn default() -> (r: Self)
        ensures
            r@ == empty_record_view(),
    {
        let r = BenchmarkRecord {
            backend: String::new(),
            device: String::new(),
            feature: String::new(),
            burn_version: String::new(),
            system_info: BenchmarkSystemInfo::default(),
            results: BenchmarkResult::default(),
        };
        r
    }
}

} // verus!

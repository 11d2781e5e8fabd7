use vstd::prelude::*;

verus! {

/// Upper bound on the number of patients of a problem instance.
pub const MAX_PATIENTS: usize = 10_000;

/// Upper bound on the number of nurses of a problem instance.
pub const MAX_NURSES: u32 = 10_000;

/// Upper bound on every travel time, service window bound and care duration.
/// Times are plain integers: an instance whose raw data is fractional is
/// expected to be scaled to integer units before it is handed to the engine.
pub const MAX_TIME: u32 = 1_000_000;

/// Upper bound on the demand of one patient.
pub const MAX_DEMAND: u32 = 1_000_000;

/// Upper bound on the length of any single route the operators may build,
/// with headroom above `MAX_PATIENTS` for transient states during repair.
pub const MAX_ROUTE: usize = 30_000;

/// The depot every route starts from and returns to.
#[derive(Clone, Copy)]
pub struct Depot {
    pub return_time: u32,
    pub x_coord: i32,
    pub y_coord: i32,
}

/// One patient: location, demand, care duration and service window.
#[derive(Clone, Copy)]
pub struct Patient {
    pub x_coord: i32,
    pub y_coord: i32,
    pub demand: u32,
    pub start_time: u32,
    pub end_time: u32,
    pub care_time: u32,
}

/// The pairwise travel-time matrix. Row and column 0 stand for the depot;
/// patient `p` is row and column `p + 1`.
#[derive(Clone)]
pub struct TravelTimes {
    pub times: Vec<Vec<u32>>,
}

impl TravelTimes {
    /// A square matrix over depot + `n_patients` stops, entries bounded.
    pub open spec fn wf(self, n_patients: int) -> bool {
        &&& self.times@.len() == n_patients + 1
        &&& forall|i: int|
            0 <= i < self.times@.len() ==> (#[trigger] self.times@[i])@.len() == n_patients + 1
        &&& forall|i: int, j: int|
            0 <= i < self.times@.len() && 0 <= j < self.times@.len() ==> (
            #[trigger] self.times@[i]@[j]) <= MAX_TIME
    }

    /// The travel time between stops `a` and `b` of the matrix.
    pub open spec fn at(self, a: int, b: int) -> int {
        self.times@[a]@[b] as int
    }

    /// Reads one entry of the matrix.
    pub fn get(&self, a: usize, b: usize) -> (t: u32)
        requires
            a < self.times@.len(),
            b < self.times@[a as int]@.len(),
        ensures
            t as int == self.at(a as int, b as int),
    {
        self.times[a][b]
    }
}

/// One parsed problem instance, immutable for the lifetime of a run.
#[derive(Clone)]
pub struct Info {
    pub instance_name: String,
    pub nbr_nurses: u32,
    pub capacity_nurse: u32,
    /// Reference fitness of the instance, in the same scaled integer units
    /// as the travel times.
    pub benchmark: u64,
    pub depot: Depot,
    pub travel_times: TravelTimes,
    /// For each patient, other patient ids ranked by proximity; used to bound
    /// the insertion search of the optimized repair.
    pub travel_times_sorted: Vec<Vec<usize>>,
    pub patients: Vec<Patient>,
}

impl Info {
    /// Number of patients of the instance.
    pub open spec fn n_patients(self) -> int {
        self.patients@.len() as int
    }

    /// Well-formed instance: bounded sizes, a square travel matrix and
    /// bounded times and demands, so that every cost the engine computes
    /// fits comfortably in 64 bits.
    pub open spec fn wf(self) -> bool {
        &&& 1 <= self.nbr_nurses <= MAX_NURSES
        &&& self.n_patients() <= MAX_PATIENTS as int
        &&& self.travel_times.wf(self.n_patients())
        &&& self.depot.return_time <= MAX_TIME
        &&& forall|p: int|
            0 <= p < self.n_patients() ==> {
                &&& (#[trigger] self.patients@[p]).start_time <= MAX_TIME
                &&& self.patients@[p].end_time <= MAX_TIME
                &&& self.patients@[p].care_time <= MAX_TIME
                &&& self.patients@[p].demand <= MAX_DEMAND
            }
        &&& self.travel_times_sorted@.len() == self.n_patients()
        &&& forall|p: int, k: int|
            0 <= p < self.n_patients() && 0 <= k < self.travel_times_sorted@[p]@.len() ==> (
            #[trigger] self.travel_times_sorted@[p]@[k]) < self.n_patients()
    }
}

} // verus!

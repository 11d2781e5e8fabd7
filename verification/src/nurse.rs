use vstd::prelude::*;

verus! {

/// Copies a route into a fresh vector.
pub(crate) fn copy_route(v: &Vec<usize>) -> (r: Vec<usize>)
    ensures
        r@ == v@,
{
    let mut r: Vec<usize> = Vec::new();
    let mut i: usize = 0;
    while i < v.len()
        invariant
            i <= v@.len(),
            r@.len() == i,
            forall|j: int| 0 <= j < i ==> r@[j] == v@[j],
        decreases v@.len() - i,
    {
        r.push(v[i]);
        i += 1;
    }
    proof {
        assert(r@ =~= v@);
    }
    r
}

/// One nurse: the ordered visit sequence, as 0-based patient ids, and the
/// cached cumulative demand of the route.
pub struct Nurse {
    pub capacity: u32,
    pub route: Vec<usize>,
}

impl View for Nurse {
    type V = Seq<usize>;

    open spec fn view(&self) -> Seq<usize> {
        self.route@
    }
}

impl Nurse {
    /// An empty route with no accumulated demand.
    pub fn new() -> (r: Nurse)
        ensures
            r.capacity == 0,
            r@ == Seq::<usize>::empty(),
    {
        Nurse { capacity: 0, route: Vec::new() }
    }

    /// An independent copy of this nurse.
    pub fn duplicate(&self) -> (r: Nurse)
        ensures
            r.capacity == self.capacity,
            r@ == self@,
    {
        Nurse { capacity: self.capacity, route: copy_route(&self.route) }
    }
}

impl PartialEq for Nurse {
    fn eq(&self, other: &Self) -> (r: bool) {
        if self.capacity != other.capacity {
            return false;
        }
        if self.route.len() != other.route.len() {
            return false;
        }
        let mut i: usize = 0;
        while i < self.route.len()
            invariant
                i <= self.route@.len(),
                self.route@.len() == other.route@.len(),
                self.capacity == other.capacity,
                forall|j: int| 0 <= j < i ==> self.route@[j] == other.route@[j],
            decreases self.route@.len() - i,
        {
            if self.route[i] != other.route[i] {
                return false;
            }
            i += 1;
        }
        proof {
            assert(self.route@ =~= other.route@);
        }
        true
    }
}

impl vstd::std_specs::cmp::PartialEqSpecImpl for Nurse {
    open spec fn obeys_eq_spec() -> bool {
        true
    }

    open spec fn eq_spec(&self, other: &Nurse) -> bool {
        self.capacity == other.capacity && self.route@ == other.route@
    }
}

/// One candidate solution: a fixed set of routes plus its cached score.
/// `fitness` and `feasible` are derived data and are only meaningful after an
/// evaluation pass.
pub struct Individual {
    pub nurses: Vec<Nurse>,
    pub fitness: u64,
    pub feasible: bool,
}

impl View for Individual {
    type V = Seq<Seq<usize>>;

    open spec fn view(&self) -> Seq<Seq<usize>> {
        crate::partition::routes_of(self.nurses@)
    }
}

impl Individual {
    /// An independent copy of this individual.
    pub fn duplicate(&self) -> (r: Individual)
        ensures
            r.fitness == self.fitness,
            r.feasible == self.feasible,
            r.nurses@.len() == self.nurses@.len(),
            forall|j: int|
                0 <= j < self.nurses@.len() ==> (#[trigger] r.nurses@[j]).capacity
                    == self.nurses@[j].capacity && r.nurses@[j].route@ == self.nurses@[j].route@,
            r@ == self@,
    {
        let mut nurses: Vec<Nurse> = Vec::new();
        let mut i: usize = 0;
        while i < self.nurses.len()
            invariant
                i <= self.nurses@.len(),
                nurses@.len() == i,
                forall|j: int|
                    0 <= j < i ==> (#[trigger] nurses@[j]).capacity == self.nurses@[j].capacity
                        && nurses@[j].route@ == self.nurses@[j].route@,
            decreases self.nurses@.len() - i,
        {
            nurses.push(self.nurses[i].duplicate());
            i += 1;
        }
        let r = Individual { nurses, fitness: self.fitness, feasible: self.feasible };
        proof {
            assert(r@ =~= self@);
        }
        r
    }
}

impl PartialEq for Individual {
    /// Individuals compare by route structure alone: the cached scores are
    /// derived data.
    fn eq(&self, other: &Self) -> (r: bool) {
        if self.nurses.len() != other.nurses.len() {
            return false;
        }
        let mut i: usize = 0;
        while i < self.nurses.len()
            invariant
                i <= self.nurses@.len(),
                self.nurses@.len() == other.nurses@.len(),
                forall|j: int|
                    0 <= j < i ==> (#[trigger] self.nurses@[j]).capacity == other.nurses@[j].capacity
                        && self.nurses@[j].route@ == other.nurses@[j].route@,
            decreases self.nurses@.len() - i,
        {
            if !(self.nurses[i] == other.nurses[i]) {
                return false;
            }
            i += 1;
        }
        true
    }
}

impl vstd::std_specs::cmp::PartialEqSpecImpl for Individual {
    open spec fn obeys_eq_spec() -> bool {
        true
    }

    open spec fn eq_spec(&self, other: &Individual) -> bool {
        &&& self.nurses@.len() == other.nurses@.len()
        &&& forall|j: int|
            0 <= j < self.nurses@.len() ==> (#[trigger] self.nurses@[j]).capacity
                == other.nurses@[j].capacity && self.nurses@[j].route@ == other.nurses@[j].route@
    }
}

} // verus!

//! The epoch table of the CALS10K field model: the years at which a set of
//! spherical-harmonic coefficients is held, and how a year finds its entry.
use vstd::prelude::*;
use crate::archaeo::{ArchaeologyMagneticData, site_year};

verus! {

/// First year of the table (3000 BCE in astronomical year numbering).
pub const FIRST_EPOCH_YEAR: i64 = -3000;

/// Last year of the table.
pub const LAST_EPOCH_YEAR: i64 = 2000;

/// Years between two neighbouring entries of the table.
pub const EPOCH_STEP: i64 = 50;

/// Number of entries of the table.
pub const EPOCH_COUNT: usize = 101;

/// The year of entry `k` of the table.
pub open spec fn epoch_year(k: int) -> int {
    FIRST_EPOCH_YEAR + EPOCH_STEP * k
}

/// A year that has an entry of its own: a multiple of the step inside the covered span.
pub open spec fn is_epoch_year(year: int) -> bool {
    FIRST_EPOCH_YEAR <= year <= LAST_EPOCH_YEAR && year % (EPOCH_STEP as int) == 0
}

/// The entry that holds `year`, for a year that has one.
pub open spec fn epoch_slot(year: int) -> int {
    (year - FIRST_EPOCH_YEAR) / (EPOCH_STEP as int)
}

/// The years of the whole table, oldest first.
pub open spec fn epoch_grid() -> Seq<i64> {
    Seq::new(EPOCH_COUNT as nat, |k: int| epoch_year(k) as i64)
}

/// The entry a lookup of `year` lands on: its own entry where it has one,
/// the first entry of the table otherwise.
pub open spec fn slot_or_first_spec(year: int) -> int {
    if is_epoch_year(year) {
        epoch_slot(year)
    } else {
        0
    }
}

/// The calibration steps for `sites`, in the order of the sites: one step, made of the
/// site's position and the entry it adjusts, for each site whose rounded age is a year
/// of the table; the other sites leave the table alone.
pub open spec fn calibration_plan(sites: Seq<ArchaeologyMagneticData>) -> Seq<(usize, usize)>
    decreases sites.len(),
{
    if sites.len() == 0 {
        Seq::empty()
    } else {
        let n = sites.len() - 1;
        let earlier = calibration_plan(sites.drop_last());
        if is_epoch_year(site_year(sites[n])) {
            earlier.push((n as usize, epoch_slot(site_year(sites[n])) as usize))
        } else {
            earlier
        }
    }
}

/// The key set of the model's coefficient table. The coefficients themselves
/// are floating-point data kept beside it, one set per entry, in the same order.
pub struct CALS10KModel {
    years: Vec<i64>,
}

impl View for CALS10KModel {
    type V = Seq<i64>;

    closed spec fn view(&self) -> Seq<i64> {
        self.years@
    }
}

impl CALS10KModel {
    #[verifier::type_invariant]
    spec fn keys_are_grid(self) -> bool {
        self.years@ == epoch_grid()
    }

    /// A model whose table has one entry every 50 years from 3000 BCE to 2000 CE.
    pub fn new() -> (model: Self)
        ensures
            model@ == epoch_grid(),
    {
        let years = grid_years();
        CALS10KModel { years }
    }

    /// The years that have an entry, in ascending order.
    pub fn get_available_years(&self) -> (years: Vec<i64>)
        ensures
            years@ == self@,
            years@ == epoch_grid(),
    {
        proof {
            use_type_invariant(self);
        }
        grid_years()
    }

    /// The entry of `year`, where the table has one.
    pub fn slot_of(&self, year: i64) -> (slot: Option<usize>)
        ensures
            slot == (if is_epoch_year(year as int) {
                Some(epoch_slot(year as int) as usize)
            } else {
                None::<usize>
            }),
            slot matches Some(k) ==> k < self@.len() && self@[k as int] == year,
    {
        proof {
            use_type_invariant(self);
        }
        if FIRST_EPOCH_YEAR <= year && year <= LAST_EPOCH_YEAR && year % EPOCH_STEP == 0 {
            let k = ((year - FIRST_EPOCH_YEAR) / EPOCH_STEP) as usize;
            Some(k)
        } else {
            None
        }
    }

    /// The entry a coefficient lookup of `year` uses: the year's own entry, or the
    /// first entry of the table where the year has none.
    pub fn slot_or_first(&self, year: i64) -> (slot: usize)
        ensures
            slot as int == slot_or_first_spec(year as int),
            slot < self@.len(),
            is_epoch_year(year as int) ==> self@[slot as int] == year,
    {
        proof {
            use_type_invariant(self);
        }
        match self.slot_of(year) {
            Some(k) => k,
            None => 0,
        }
    }
}

impl CALS10KModel {
    /// The entries that the measurements of `sites` adjust, site by site, in order.
    pub fn calibration_targets(&self, sites: &Vec<ArchaeologyMagneticData>) -> (plan: Vec<(usize, usize)>)
        ensures
            plan@ == calibration_plan(sites@),
    {
        let mut plan: Vec<(usize, usize)> = Vec::new();
        let n = sites.len();
        for i in 0..n
            invariant
                n == sites@.len(),
                plan@ == calibration_plan(sites@.take(i as int)),
        {
            assert(sites@.take(i + 1).drop_last() =~= sites@.take(i as int));
            let year = sites[i].rounded_age();
            match self.slot_of(year) {
                Some(k) => plan.push((i, k)),
                None => {},
            }
        }
        assert(sites@.take(n as int) =~= sites@);
        plan
    }
}

/// The years of the table rise strictly from one entry to the next.
pub proof fn lemma_grid_ascending(i: int, j: int)
    requires
        0 <= i < j < EPOCH_COUNT,
    ensures
        epoch_grid()[i] < epoch_grid()[j],
{
}

/// A year has an entry exactly when it is a multiple of 50 between 3000 BCE and 2000 CE,
/// and that entry holds the year itself.
pub proof fn lemma_grid_holds_exactly_epoch_years(year: int)
    ensures
        is_epoch_year(year) <==> (exists|k: int| 0 <= k < EPOCH_COUNT && epoch_grid()[k] == year),
        is_epoch_year(year) ==> 0 <= epoch_slot(year) < EPOCH_COUNT && epoch_grid()[epoch_slot(year)]
            == year,
{
    if is_epoch_year(year) {
        let k = epoch_slot(year);
        assert(epoch_grid()[k] == year);
    }
    if exists|k: int| 0 <= k < EPOCH_COUNT && epoch_grid()[k] == year {
        let k = choose|k: int| 0 <= k < EPOCH_COUNT && epoch_grid()[k] == year;
        assert(year == -3000 + 50 * k);
        assert(year % 50 == 0);
    }
}

/// Every entry of the table is found again by a lookup of its own year.
pub proof fn lemma_slot_of_entry_year(k: int)
    requires
        0 <= k < EPOCH_COUNT,
    ensures
        is_epoch_year(epoch_year(k)),
        epoch_slot(epoch_year(k)) == k,
        slot_or_first_spec(epoch_year(k)) == k,
{
    assert((-3000 + 50 * k) % 50 == 0);
    assert((50 * k) / 50 == k);
}

/// The entry after the one of an epoch year, below the last, is the entry of the year 50 later:
/// the two coefficient sets between which a year is interpolated are neighbours in the table.
pub proof fn lemma_next_epoch_is_next_slot(year: int)
    requires
        is_epoch_year(year),
        year < LAST_EPOCH_YEAR,
    ensures
        is_epoch_year(year + EPOCH_STEP),
        epoch_slot(year + EPOCH_STEP) == epoch_slot(year) + 1,
{
}

/// Each calibration step names a site whose rounded age is a year of the table, together with
/// the entry of that year; every such site has a step, and the steps follow the order of the sites.
pub proof fn lemma_calibration_plan_steps(sites: Seq<ArchaeologyMagneticData>)
    requires
        sites.len() <= usize::MAX,
    ensures
        forall|k: int|
            0 <= k < calibration_plan(sites).len() ==> {
                let step = #[trigger] calibration_plan(sites)[k];
                &&& step.0 < sites.len()
                &&& is_epoch_year(site_year(sites[step.0 as int]))
                &&& step.1 as int == epoch_slot(site_year(sites[step.0 as int]))
                &&& step.1 < EPOCH_COUNT
                &&& epoch_grid()[step.1 as int] == site_year(sites[step.0 as int])
            },
        forall|i: int|
            0 <= i < sites.len() && is_epoch_year(site_year(#[trigger] sites[i])) ==> exists|k: int|
                0 <= k < calibration_plan(sites).len() && calibration_plan(sites)[k].0 == i,
        forall|k1: int, k2: int|
            0 <= k1 < k2 < calibration_plan(sites).len() ==> calibration_plan(sites)[k1].0
                < calibration_plan(sites)[k2].0,
    decreases sites.len(),
{
    if sites.len() > 0 {
        let n = sites.len() - 1;
        let prefix = sites.drop_last();
        lemma_calibration_plan_steps(prefix);
        let earlier = calibration_plan(prefix);
        let plan = calibration_plan(sites);
        assert forall|k: int| 0 <= k < earlier.len() implies #[trigger] earlier[k].0 < n by {}
        if is_epoch_year(site_year(sites[n])) {
            lemma_grid_holds_exactly_epoch_years(site_year(sites[n]));
            assert(plan[earlier.len() as int].0 == n);
        }
        assert forall|k: int| 0 <= k < plan.len() implies {
            let step = #[trigger] plan[k];
            &&& step.0 < sites.len()
            &&& is_epoch_year(site_year(sites[step.0 as int]))
            &&& step.1 as int == epoch_slot(site_year(sites[step.0 as int]))
            &&& step.1 < EPOCH_COUNT
            &&& epoch_grid()[step.1 as int] == site_year(sites[step.0 as int])
        } by {
            if k < earlier.len() {
                assert(plan[k] == earlier[k]);
                assert(prefix[earlier[k].0 as int] == sites[earlier[k].0 as int]);
            }
        }
        assert forall|i: int| 0 <= i < sites.len() && is_epoch_year(site_year(#[trigger] sites[i])) implies exists|k: int|
            0 <= k < plan.len() && plan[k].0 == i by {
            if i < n {
                assert(prefix[i] == sites[i]);
                let k = choose|k: int| 0 <= k < earlier.len() && earlier[k].0 == i;
                assert(plan[k] == earlier[k]);
            } else {
                assert(plan[earlier.len() as int].0 == n);
            }
        }
    }
}

/// The years of the table, oldest first.
fn grid_years() -> (years: Vec<i64>)
    ensures
        years@ == epoch_grid(),
{
    let mut years: Vec<i64> = Vec::new();
    let mut k: usize = 0;
    while k < EPOCH_COUNT
        invariant
            k <= EPOCH_COUNT,
            years@.len() == k,
            forall|i: int| 0 <= i < k ==> years@[i] == epoch_year(i),
        decreases EPOCH_COUNT - k,
    {
        let year: i64 = FIRST_EPOCH_YEAR + EPOCH_STEP * (k as i64);
        years.push(year);
        k = k + 1;
    }
    assert(years@ =~= epoch_grid());
    years
}

} // verus!

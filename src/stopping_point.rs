//! Stopping points: how many flows must cross a hop before all of its
//! successors are found with the chosen confidence.

use vstd::prelude::*;

verus! {

/// The largest number of probes that the oracle ever asks for at one hop.
pub const MAX_N_PROBES: usize = 722;

/// The largest number of interfaces that the estimator considers.
pub const MAX_N_INTERFACES: usize = 1024;

/// Stopping points at failure probability 0.05, for 0 to 62 observed successors.
pub open spec fn table_failure_5() -> Seq<usize> {
    seq![
        1, 6, 11, 16, 21, 27, 33, 38, 44, 51, 57, 63, 70, 76, 83, 90, 96, 103, 110, 117, 124,
        131, 138, 145, 152, 159, 167, 174, 181, 189, 196, 203, 211, 218, 226, 233, 241, 248,
        256, 264, 271, 279, 287, 294, 302, 310, 318, 326, 333, 341, 349, 357, 365, 373, 381,
        389, 397, 405, 413, 421, 429, 437, 445,
    ]
}

/// Stopping points at failure probability 0.01, for 0 to 62 observed successors.
pub open spec fn table_failure_1() -> Seq<usize> {
    seq![
        1, 8, 15, 21, 28, 36, 43, 51, 58, 66, 74, 82, 90, 98, 106, 115, 123, 132, 140, 149,
        157, 166, 175, 183, 192, 201, 210, 219, 228, 237, 246, 255, 264, 273, 282, 291, 300,
        309, 319, 328, 337, 347, 356, 365, 375, 384, 393, 403, 412, 422, 431, 441, 450, 460,
        470, 479, 489, 499, 508, 518, 528, 537, 547,
    ]
}

/// Whether every entry of a table stays within the oracle's bound.
pub open spec fn bounded_table(t: Seq<usize>) -> bool {
    forall|i: int| 0 <= i < t.len() ==> #[trigger] t[i] <= MAX_N_PROBES
}

/// The stopping point that a table gives for `k` observed successors:
/// its entry where it has one, the oracle's bound beyond.
pub open spec fn spec_stopping_point(t: Seq<usize>, k: int) -> int {
    if 0 <= k < t.len() {
        t[k] as int
    } else {
        MAX_N_PROBES as int
    }
}

/// The stopping points of one failure probability, indexed by the number of
/// observed successors.
pub struct StoppingPoints {
    points: Vec<usize>,
}

impl View for StoppingPoints {
    type V = Seq<usize>;

    closed spec fn view(&self) -> Seq<usize> {
        self.points@
    }
}

impl StoppingPoints {
    pub open spec fn wf(&self) -> bool {
        bounded_table(self@)
    }

    /// The stopping points for `k` observed successors.
    pub open spec fn at(&self, k: int) -> int {
        spec_stopping_point(self@, k)
    }

    /// The built-in table for failure probability 0.05 (confidence 95%). It
    /// covers 0 to 62 observed successors only: beyond, `stopping_point`
    /// gives the bound `MAX_N_PROBES`, which overstates the need; a table
    /// computed for every count (`from_points`) avoids that.
    pub fn failure_5_percent() -> (r: Self)
        ensures
            r@ == table_failure_5(),
            r.wf(),
    {
        let points: Vec<usize> = vec![
            1, 6, 11, 16, 21, 27, 33, 38, 44, 51, 57, 63, 70, 76, 83, 90, 96, 103, 110, 117, 124,
            131, 138, 145, 152, 159, 167, 174, 181, 189, 196, 203, 211, 218, 226, 233, 241, 248,
            256, 264, 271, 279, 287, 294, 302, 310, 318, 326, 333, 341, 349, 357, 365, 373, 381,
            389, 397, 405, 413, 421, 429, 437, 445,
        ];
        let r = StoppingPoints { points };
        assert(r@ =~= table_failure_5());
        r
    }

    /// The built-in table for failure probability 0.01 (confidence 99%). It
    /// covers 0 to 62 observed successors only, like the 95% table.
    pub fn failure_1_percent() -> (r: Self)
        ensures
            r@ == table_failure_1(),
            r.wf(),
    {
        let points: Vec<usize> = vec![
            1, 8, 15, 21, 28, 36, 43, 51, 58, 66, 74, 82, 90, 98, 106, 115, 123, 132, 140, 149,
            157, 166, 175, 183, 192, 201, 210, 219, 228, 237, 246, 255, 264, 273, 282, 291, 300,
            309, 319, 328, 337, 347, 356, 365, 375, 384, 393, 403, 412, 422, 431, 441, 450, 460,
            470, 479, 489, 499, 508, 518, 528, 537, 547,
        ];
        let r = StoppingPoints { points };
        assert(r@ =~= table_failure_1());
        r
    }

    /// A table computed elsewhere; `None` when an entry exceeds the oracle's bound.
    pub fn from_points(points: Vec<usize>) -> (r: Option<Self>)
        ensures
            r.is_some() <==> bounded_table(points@),
            r.is_some() ==> r.unwrap()@ == points@ && r.unwrap().wf(),
    {
        let mut i: usize = 0;
        while i < points.len()
            invariant
                i <= points.len(),
                forall|j: int| 0 <= j < i ==> #[trigger] points@[j] <= MAX_N_PROBES,
            decreases points.len() - i,
        {
            if points[i] > MAX_N_PROBES {
                return None;
            }
            i = i + 1;
        }
        Some(StoppingPoints { points })
    }

    /// Number of entries of the table.
    pub fn len(&self) -> (r: usize)
        ensures
            r == self@.len(),
    {
        self.points.len()
    }
}

/// The minimum number of flows that must cross a hop with `n_interfaces`
/// observed successors so that one more successor would have been found
/// with the table's confidence. Past the end of the table the result is the
/// bound `MAX_N_PROBES`: with the built-in tables, which stop at 62 observed
/// successors, that is more than the exact stopping point.
pub fn stopping_point(n_interfaces: usize, points: &StoppingPoints) -> (r: usize)
    requires
        points.wf(),
    ensures
        r == points.at(n_interfaces as int),
        r <= MAX_N_PROBES,
{
    if n_interfaces < points.points.len() {
        points.points[n_interfaces]
    } else {
        MAX_N_PROBES
    }
}

/// The built-in tables give, for each of 0 to 62 observed successors, the
/// stopping points of failure probabilities 0.05 and 0.01 listed entry by entry.
pub proof fn lemma_default_tables(k: int)
    requires
        0 <= k <= 62,
    ensures
        spec_stopping_point(table_failure_5(), k) == table_failure_5()[k],
        spec_stopping_point(table_failure_1(), k) == table_failure_1()[k],
        table_failure_5().len() == 63,
        table_failure_1().len() == 63,
        spec_stopping_point(table_failure_5(), 1) == 6,
        spec_stopping_point(table_failure_5(), 2) == 11,
        spec_stopping_point(table_failure_1(), 1) == 8,
{
}

} // verus!

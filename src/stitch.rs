use vstd::prelude::*;

use crate::crossing::{is_crossing_list, sorted_by_first, DistanceGrid};
use crate::error::InputError;

verus! {

/// One closed loop of the region between two paths, by sample index: along
/// the first path from `first_from` to `first_to`; when `bridged`, straight to
/// sample `second_from` of the second path; along the second path from
/// `second_from` to `second_to` (backwards when `second_to < second_from`);
/// and straight back to sample `first_from` of the first path.
#[derive(Debug, Clone, Copy, PartialEq, Eq, Structural)]
pub struct Region {
    pub first_from: usize,
    pub first_to: usize,
    pub second_from: usize,
    pub second_to: usize,
    pub bridged: bool,
}

/// Where region `k` starts: the shared start for the first region, else the
/// crossing that ended the region before it.
pub open spec fn cursor(crossings: Seq<(usize, usize)>, k: int) -> (usize, usize) {
    if k == 0 {
        (0, 0)
    } else {
        crossings[k - 1]
    }
}

/// Region `k` of two paths of `len1` and `len2` samples cut at `crossings`:
/// one region per crossing, ending there, then a last one that runs to the
/// ends of both paths and has no bridge between them.
pub open spec fn region_spec(crossings: Seq<(usize, usize)>, len1: int, len2: int, k: int) -> Region {
    let a = cursor(crossings, k);
    if k < crossings.len() {
        Region {
            first_from: a.0,
            first_to: crossings[k].0,
            second_from: crossings[k].1,
            second_to: a.1,
            bridged: true,
        }
    } else {
        Region {
            first_from: a.0,
            first_to: (len1 - 1) as usize,
            second_from: (len2 - 1) as usize,
            second_to: a.1,
            bridged: false,
        }
    }
}

/// Every crossing names a sample of each path.
pub open spec fn in_range(crossings: Seq<(usize, usize)>, len1: int, len2: int) -> bool {
    forall|k: int| 0 <= k < crossings.len() ==> crossings[k].0 < len1 && crossings[k].1 < len2
}

/// `regions` are the regions of two paths of `len1` and `len2` samples cut
/// at `crossings`.
pub open spec fn are_regions_of(
    regions: Seq<Region>,
    crossings: Seq<(usize, usize)>,
    len1: int,
    len2: int,
) -> bool {
    &&& regions.len() == crossings.len() + 1
    &&& forall|k: int| 0 <= k < regions.len() ==> regions[k] == region_spec(crossings, len1, len2, k)
}

/// Cuts the region between two paths of `len1` and `len2` samples, both from
/// a shared start to a shared end, into closed loops at `crossings`, pairs of
/// sample indices `(i, j)` where `path1[i]` meets `path2[j]`.
///
/// The loops follow the first path from its start to its end, each starting
/// where the one before it ended, so none of the first path is covered twice.
pub fn split_regions(crossings: &Vec<(usize, usize)>, len1: usize, len2: usize) -> (r: Result<
    Vec<Region>,
    InputError,
>)
    ensures
        (len1 == 0 || len2 == 0) <==> r == Err::<Vec<Region>, InputError>(InputError::EmptyPath),
        (len1 > 0 && len2 > 0 && !in_range(crossings@, len1 as int, len2 as int)) <==> r == Err::<
            Vec<Region>,
            InputError,
        >(InputError::IndexOutOfRange),
        (len1 > 0 && len2 > 0 && in_range(crossings@, len1 as int, len2 as int) && !sorted_by_first(
            crossings@,
        )) <==> r == Err::<Vec<Region>, InputError>(InputError::Unsorted),
        r is Ok <==> (len1 > 0 && len2 > 0 && in_range(crossings@, len1 as int, len2 as int)
            && sorted_by_first(crossings@)),
        r is Ok ==> {
            let v = r->Ok_0@;
            &&& are_regions_of(v, crossings@, len1 as int, len2 as int)
            &&& v[0].first_from == 0
            &&& v[v.len() - 1].first_to == len1 - 1
            &&& forall|k: int| 0 <= k < v.len() - 1 ==> v[k].first_to == v[k + 1].first_from
            &&& forall|k: int| 0 <= k < v.len() ==> v[k].first_from <= v[k].first_to
        },
{
    if len1 == 0 || len2 == 0 {
        return Err(InputError::EmptyPath);
    }
    let n = crossings.len();
    let mut i: usize = 0;
    while i < n
        invariant
            n == crossings@.len(),
            len1 > 0,
            len2 > 0,
            i <= n,
            in_range(crossings@.subrange(0, i as int), len1 as int, len2 as int),
        decreases n - i,
    {
        let (b1, b2) = crossings[i];
        if b1 >= len1 || b2 >= len2 {
            assert(crossings@[i as int] == (b1, b2));
            return Err(InputError::IndexOutOfRange);
        }
        proof {
            assert(crossings@.subrange(0, i + 1) == crossings@.subrange(0, i as int).push((b1, b2)));
        }
        i += 1;
    }
    assert(crossings@.subrange(0, n as int) == crossings@);
    let mut i: usize = 1;
    while i < n
        invariant
            n == crossings@.len(),
            len1 > 0,
            len2 > 0,
            in_range(crossings@, len1 as int, len2 as int),
            1 <= i,
            i <= n || n == 0,
            forall|k: int, l: int| 0 <= k < l < i && l < n ==> crossings@[k].0 <= crossings@[l].0,
        decreases n - i,
    {
        if crossings[i - 1].0 > crossings[i].0 {
            return Err(InputError::Unsorted);
        }
        i += 1;
    }
    proof {
        assert forall|k: int, l: int| 0 <= k < l < crossings@.len() implies crossings@[k].0
            <= crossings@[l].0 by {
            assert(l < i);
        }
    }
    let mut regions: Vec<Region> = Vec::new();
    let mut a1: usize = 0;
    let mut a2: usize = 0;
    let mut k: usize = 0;
    while k < n
        invariant
            n == crossings@.len(),
            len1 > 0,
            len2 > 0,
            in_range(crossings@, len1 as int, len2 as int),
            sorted_by_first(crossings@),
            k <= n,
            (a1, a2) == cursor(crossings@, k as int),
            regions@.len() == k,
            forall|m: int| 0 <= m < k ==> regions@[m] == region_spec(
                crossings@,
                len1 as int,
                len2 as int,
                m,
            ),
        decreases n - k,
    {
        let (b1, b2) = crossings[k];
        regions.push(Region { first_from: a1, first_to: b1, second_from: b2, second_to: a2, bridged: true });
        a1 = b1;
        a2 = b2;
        k += 1;
    }
    regions.push(
        Region { first_from: a1, first_to: len1 - 1, second_from: len2 - 1, second_to: a2, bridged: false },
    );
    proof {
        let v = regions@;
        assert forall|m: int| 0 <= m < v.len() implies v[m].first_from <= v[m].first_to by {
            if 0 < m < n {
                assert(crossings@[m - 1].0 <= crossings@[m].0);
            }
        }
    }
    Ok(regions)
}

/// The regions between two paths that `grid` compares, `len1 = rows` and
/// `len2 = cols` samples long, cut at the grid's crossings below `threshold`.
/// It fails only where a path is empty.
pub fn regions_between(grid: &DistanceGrid, threshold: u32) -> (r: Result<Vec<Region>, InputError>)
    requires
        grid.wf(),
    ensures
        (grid@.rows == 0 || grid@.cols == 0) <==> r == Err::<Vec<Region>, InputError>(InputError::EmptyPath),
        r is Err ==> r == Err::<Vec<Region>, InputError>(InputError::EmptyPath),
        r is Ok ==> exists|c: Seq<(usize, usize)>|
            is_crossing_list(grid@, threshold, c) && are_regions_of(
                r->Ok_0@,
                c,
                grid@.rows as int,
                grid@.cols as int,
            ),
{
    let crossings = grid.crossings(threshold);
    proof {
        assert forall|k: int| 0 <= k < crossings@.len() implies crossings@[k].0 < grid@.rows
            && crossings@[k].1 < grid@.cols by {
            assert(grid@.is_crossing(threshold, crossings@[k].0 as int, crossings@[k].1 as int));
        }
        assert(in_range(crossings@, grid@.rows as int, grid@.cols as int));
    }
    let r = split_regions(&crossings, grid.rows(), grid.cols());
    proof {
        if r is Ok {
            assert(is_crossing_list(grid@, threshold, crossings@));
        }
    }
    r
}

/// When both sides are the same path and every crossing pairs a sample with
/// itself, each loop runs back over exactly the stretch it came along and
/// both of its straight edges join a sample to itself: on the same points,
/// every loop encloses no area.
pub proof fn lemma_identical_paths_retrace(crossings: Seq<(usize, usize)>, len: int)
    requires
        len > 0,
        forall|k: int| 0 <= k < crossings.len() ==> crossings[k].0 == crossings[k].1,
    ensures
        forall|k: int|
            0 <= k <= crossings.len() ==> {
                let g = #[trigger] region_spec(crossings, len, len, k);
                g.first_from == g.second_to && g.first_to == g.second_from
            },
{
}

} // verus!

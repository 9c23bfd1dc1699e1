use vstd::prelude::*;

verus! {

/// The abstract content of a distance grid: `rows * cols` keys, row-major.
pub struct GridView {
    pub rows: nat,
    pub cols: nat,
    pub keys: Seq<u32>,
}

impl GridView {
    /// The key of cell `(i, j)`.
    pub open spec fn key(&self, i: int, j: int) -> u32 {
        self.keys[i * self.cols + j]
    }

    /// Cell `(i, j)` lies off the grid's border.
    pub open spec fn is_interior(&self, i: int, j: int) -> bool {
        1 <= i < self.rows - 1 && 1 <= j < self.cols - 1
    }

    /// Cell `(i, j)` is below `threshold` and no greater than any of its eight
    /// neighbours. Cells on the border are never counted.
    pub open spec fn is_crossing(&self, threshold: u32, i: int, j: int) -> bool {
        let d = self.key(i, j);
        &&& self.is_interior(i, j)
        &&& d < threshold
        &&& d <= self.key(i - 1, j - 1)
        &&& d <= self.key(i - 1, j)
        &&& d <= self.key(i - 1, j + 1)
        &&& d <= self.key(i, j - 1)
        &&& d <= self.key(i, j + 1)
        &&& d <= self.key(i + 1, j - 1)
        &&& d <= self.key(i + 1, j)
        &&& d <= self.key(i + 1, j + 1)
    }
}

/// Cell `a` comes before cell `b` in row-major order.
pub open spec fn row_major_before(a: (usize, usize), b: (usize, usize)) -> bool {
    a.0 < b.0 || (a.0 == b.0 && a.1 < b.1)
}

/// The pairs come in non-decreasing order of their first index.
pub open spec fn sorted_by_first(pairs: Seq<(usize, usize)>) -> bool {
    forall|k: int, l: int| 0 <= k < l < pairs.len() ==> pairs[k].0 <= pairs[l].0
}

/// `c` lists every crossing of `g` below `threshold`, each once, in row-major
/// order.
pub open spec fn is_crossing_list(g: GridView, threshold: u32, c: Seq<(usize, usize)>) -> bool {
    &&& forall|k: int| 0 <= k < c.len() ==> g.is_crossing(threshold, c[k].0 as int, c[k].1 as int)
    &&& forall|i: int, j: int|
        g.is_crossing(threshold, i, j) ==> exists|k: int|
            0 <= k < c.len() && c[k] == (i as usize, j as usize)
    &&& forall|k: int, l: int| 0 <= k < l < c.len() ==> row_major_before(c[k], c[l])
}

/// A grid of keys, one per pair of samples `(i, j)` of two paths, that order
/// as the distances between `path1[i]` and `path2[j]` do: a smaller key for a
/// closer pair, equal keys for equal distances.
pub struct DistanceGrid {
    rows: usize,
    cols: usize,
    keys: Vec<u32>,
}

impl View for DistanceGrid {
    type V = GridView;

    closed spec fn view(&self) -> GridView {
        GridView { rows: self.rows as nat, cols: self.cols as nat, keys: self.keys@ }
    }
}

impl DistanceGrid {
    /// The keys fill the grid exactly.
    pub open spec fn wf(&self) -> bool {
        self@.keys.len() == self@.rows * self@.cols
    }

    /// A grid of `rows` by `cols` cells, with `keys` listed row by row; none
    /// where the number of keys is not `rows * cols`.
    pub fn new(rows: usize, cols: usize, keys: Vec<u32>) -> (r: Option<DistanceGrid>)
        ensures
            r is Some <==> keys@.len() == rows * cols,
            r is Some ==> r->Some_0.wf() && r->Some_0@ == (GridView {
                rows: rows as nat,
                cols: cols as nat,
                keys: keys@,
            }),
    {
        let len = keys.len();
        match rows.checked_mul(cols) {
            Some(n) => {
                if n == len {
                    Some(DistanceGrid { rows, cols, keys })
                } else {
                    None
                }
            },
            None => None,
        }
    }

    pub fn rows(&self) -> (r: usize)
        ensures
            r == self@.rows,
    {
        self.rows
    }

    pub fn cols(&self) -> (r: usize)
        ensures
            r == self@.cols,
    {
        self.cols
    }

    /// The key of cell `(i, j)`.
    pub fn key_at(&self, i: usize, j: usize) -> (r: u32)
        requires
            self.wf(),
            i < self@.rows,
            j < self@.cols,
        ensures
            r == self@.key(i as int, j as int),
    {
        let len = self.keys.len();
        proof {
            let (ii, jj, c, n) = (i as int, j as int, self.cols as int, self.rows as int);
            assert(0 <= ii * c && ii * c + jj < n * c) by (nonlinear_arith)
                requires
                    0 <= ii < n,
                    0 <= jj < c,
            ;
            assert(len == n * c);
        }
        self.keys[i * self.cols + j]
    }

    /// Whether cell `(i, j)` is a crossing below `threshold`.
    fn is_crossing_at(&self, threshold: u32, i: usize, j: usize) -> (r: bool)
        requires
            self.wf(),
            self@.is_interior(i as int, j as int),
        ensures
            r == self@.is_crossing(threshold, i as int, j as int),
    {
        let d = self.key_at(i, j);
        d < threshold
            && d <= self.key_at(i - 1, j - 1)
            && d <= self.key_at(i - 1, j)
            && d <= self.key_at(i - 1, j + 1)
            && d <= self.key_at(i, j - 1)
            && d <= self.key_at(i, j + 1)
            && d <= self.key_at(i + 1, j - 1)
            && d <= self.key_at(i + 1, j)
            && d <= self.key_at(i + 1, j + 1)
    }

    /// Every crossing of the grid below `threshold`, each once, in row-major
    /// order (and so in non-decreasing order of the index into the first path).
    pub fn crossings(&self, threshold: u32) -> (r: Vec<(usize, usize)>)
        requires
            self.wf(),
        ensures
            is_crossing_list(self@, threshold, r@),
            sorted_by_first(r@),
    {
        let mut r: Vec<(usize, usize)> = Vec::new();
        if self.rows < 3 || self.cols < 3 {
            return r;
        }
        let mut i: usize = 1;
        while i < self.rows - 1
            invariant
                self.wf(),
                self@.rows >= 3,
                self@.cols >= 3,
                1 <= i <= self@.rows - 1,
                forall|k: int|
                    0 <= k < r@.len() ==> self@.is_crossing(
                        threshold,
                        r@[k].0 as int,
                        r@[k].1 as int,
                    ) && r@[k].0 < i,
                forall|a: int, b: int|
                    a < i && self@.is_crossing(threshold, a, b) ==> exists|k: int|
                        0 <= k < r@.len() && r@[k] == (a as usize, b as usize),
                forall|k: int, l: int| 0 <= k < l < r@.len() ==> row_major_before(r@[k], r@[l]),
            decreases self@.rows - 1 - i,
        {
            let mut j: usize = 1;
            while j < self.cols - 1
                invariant
                    self.wf(),
                    self@.rows >= 3,
                    self@.cols >= 3,
                    1 <= i < self@.rows - 1,
                    1 <= j <= self@.cols - 1,
                    forall|k: int|
                        0 <= k < r@.len() ==> self@.is_crossing(
                            threshold,
                            r@[k].0 as int,
                            r@[k].1 as int,
                        ) && row_major_before(r@[k], (i, j)),
                    forall|a: int, b: int|
                        (a < i || (a == i && b < j)) && self@.is_crossing(threshold, a, b)
                            ==> exists|k: int| 0 <= k < r@.len() && r@[k] == (a as usize, b as usize),
                    forall|k: int, l: int|
                        0 <= k < l < r@.len() ==> row_major_before(r@[k], r@[l]),
                decreases self@.cols - 1 - j,
            {
                if self.is_crossing_at(threshold, i, j) {
                    let ghost before = r@;
                    r.push((i, j));
                    proof {
                        let n = r@.len() - 1;
                        assert(forall|k: int| 0 <= k < before.len() ==> r@[k] == before[k]);
                        assert(r@[n] == (i, j));
                        assert forall|a: int, b: int|
                            (a < i || (a == i && b < j + 1)) && self@.is_crossing(threshold, a, b)
                                implies exists|k: int|
                                0 <= k < r@.len() && r@[k] == (a as usize, b as usize) by {
                            if a == i && b == j {
                                assert(r@[n] == (a as usize, b as usize));
                            } else {
                                let k = choose|k: int|
                                    0 <= k < before.len() && before[k] == (a as usize, b as usize);
                                assert(r@[k] == (a as usize, b as usize));
                            }
                        }
                    }
                }
                j += 1;
            }
            i += 1;
        }
        proof {
            assert forall|a: int, b: int| self@.is_crossing(threshold, a, b) implies exists|k: int|
                0 <= k < r@.len() && r@[k] == (a as usize, b as usize) by {
                assert(a < i);
            }
            assert forall|k: int, l: int| 0 <= k < l < r@.len() implies r@[k].0 <= r@[l].0 by {
                assert(row_major_before(r@[k], r@[l]));
            }
        }
        r
    }
}

/// When the two paths are the same path, every pair `(i, i)` is at distance
/// zero, the least key there is: then each interior cell on the diagonal is a
/// crossing, for any positive threshold.
pub proof fn lemma_identical_paths_cross_on_diagonal(g: GridView, threshold: u32)
    requires
        g.keys.len() == g.rows * g.cols,
        g.rows == g.cols,
        forall|i: int| 0 <= i < g.rows ==> g.key(i, i) == 0,
        threshold > 0,
    ensures
        forall|i: int| 1 <= i < g.rows - 1 ==> g.is_crossing(threshold, i, i),
{
    assert forall|i: int| 1 <= i < g.rows - 1 implies g.is_crossing(threshold, i, i) by {
        assert(g.key(i, i) == 0);
    }
}

} // verus!

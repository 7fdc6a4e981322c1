//! Title levels out of font sizes, by k-means on the line of sizes.
//!
//! The sizes of all headings are clustered into at most six groups. The group
//! with the largest centre is level one, the next level two, and so on; every
//! size takes the level of the centre nearest to it.

use crate::blocks::{TitleLevel, MAX_TITLE_LEVEL};
use crate::order::{ascending, lemma_sort_properties, sort_by_key, spec_sort, SortKey};
use vstd::prelude::*;
use vstd::seq_lib::*;

verus! {

/// The largest number of clusters.
pub const MAX_CLUSTERS: usize = 6;

/// The largest number of rounds.
pub const MAX_ROUNDS: usize = 50;

/// Distance between two sizes.
pub open spec fn spec_dist(a: u32, b: u32) -> int {
    if a >= b {
        a - b
    } else {
        b - a
    }
}

/// The sequence without repeats of the item before.
pub open spec fn spec_dedup(s: Seq<u32>) -> Seq<u32>
    decreases s.len(),
{
    if s.len() == 0 {
        s
    } else {
        let d = spec_dedup(s.drop_last());
        if d.len() > 0 && d.last() == s.last() {
            d
        } else {
            d.push(s.last())
        }
    }
}

/// The sizes that occur, each once, in ascending order.
pub open spec fn spec_distinct(points: Seq<u32>) -> Seq<u32> {
    spec_dedup(spec_sort(points))
}

/// Number of clusters for `n` distinct sizes when `k` were asked for: `k` held
/// between one and six, and no more than there are sizes.
pub open spec fn spec_clusters(k: usize, n: int) -> int {
    let wanted: int = if k < 1 {
        1
    } else if k > MAX_CLUSTERS {
        MAX_CLUSTERS as int
    } else {
        k as int
    };
    if wanted <= n {
        wanted
    } else {
        n
    }
}

/// Index of the `j`-th of `k` evenly spaced quantiles of `n` sorted sizes.
pub open spec fn spec_quantile(j: int, n: int, k: int) -> int {
    if k <= 1 {
        0
    } else {
        (j * (n - 1)) / (k - 1)
    }
}

/// The first centres: `k` evenly spaced quantiles of the distinct sizes.
pub open spec fn spec_init(distinct: Seq<u32>, k: int) -> Seq<u32> {
    Seq::new(k as nat, |j: int| distinct[spec_quantile(j, distinct.len() as int, k)])
}

/// Index of the centre nearest to `x` among the first `k`; of two centres
/// equally near, the one with the lower index.
pub open spec fn spec_nearest_among(centers: Seq<u32>, x: u32, k: int) -> int
    decreases k,
{
    if k <= 1 {
        0
    } else {
        let best = spec_nearest_among(centers, x, k - 1);
        if spec_dist(centers[k - 1], x) < spec_dist(centers[best], x) {
            k - 1
        } else {
            best
        }
    }
}

pub open spec fn spec_nearest(centers: Seq<u32>, x: u32) -> int {
    spec_nearest_among(centers, x, centers.len() as int)
}

/// Sum of those of the first `n` points whose nearest centre is `j`.
pub open spec fn spec_cluster_sum(points: Seq<u32>, centers: Seq<u32>, j: int, n: int) -> int
    decreases n,
{
    if n <= 0 {
        0
    } else {
        spec_cluster_sum(points, centers, j, n - 1) + if spec_nearest(centers, points[n - 1]) == j {
            points[n - 1] as int
        } else {
            0
        }
    }
}

/// Number of those of the first `n` points whose nearest centre is `j`.
pub open spec fn spec_cluster_size(points: Seq<u32>, centers: Seq<u32>, j: int, n: int) -> int
    decreases n,
{
    if n <= 0 {
        0
    } else {
        spec_cluster_size(points, centers, j, n - 1) + if spec_nearest(centers, points[n - 1]) == j {
            1int
        } else {
            0
        }
    }
}

/// The new centre `j`: the mean of its points, rounded down; a centre without
/// points stays where it is.
pub open spec fn spec_mean(points: Seq<u32>, centers: Seq<u32>, j: int) -> u32 {
    let size = spec_cluster_size(points, centers, j, points.len() as int);
    if size > 0 {
        (spec_cluster_sum(points, centers, j, points.len() as int) / size) as u32
    } else {
        centers[j]
    }
}

/// One round: every centre moves to the mean of its points.
pub open spec fn spec_update(points: Seq<u32>, centers: Seq<u32>) -> Seq<u32> {
    Seq::new(centers.len(), |j: int| spec_mean(points, centers, j))
}

/// Rounds until the centres stay put, `rounds` at most.
pub open spec fn spec_iterate(points: Seq<u32>, centers: Seq<u32>, rounds: nat) -> Seq<u32>
    decreases rounds,
{
    if rounds == 0 {
        centers
    } else {
        let next = spec_update(points, centers);
        if next =~= centers {
            centers
        } else {
            spec_iterate(points, next, (rounds - 1) as nat)
        }
    }
}

/// Number of the first `n` centres that come before centre `j` when the
/// centres are put in descending order, equal centres by ascending index.
pub open spec fn spec_outranked(centers: Seq<u32>, j: int, n: int) -> int
    decreases n,
{
    if n <= 0 {
        0
    } else {
        spec_outranked(centers, j, n - 1) + if centers[n - 1] > centers[j] || (centers[n - 1]
            == centers[j] && n - 1 < j) {
            1int
        } else {
            0
        }
    }
}

/// Level of centre `j`: one for the largest centre.
pub open spec fn spec_level(centers: Seq<u32>, j: int) -> int {
    1 + spec_outranked(centers, j, centers.len() as int)
}

/// The centres that k-means ends with.
pub open spec fn spec_centers(points: Seq<u32>, k: usize) -> Seq<u32> {
    let distinct = spec_distinct(points);
    spec_iterate(
        points,
        spec_init(distinct, spec_clusters(k, distinct.len() as int)),
        MAX_ROUNDS as nat,
    )
}

/// The level of every distinct size.
pub open spec fn spec_levels(points: Seq<u32>, k: usize) -> Seq<TitleLevel> {
    let distinct = spec_distinct(points);
    let centers = spec_centers(points, k);
    Seq::new(
        distinct.len(),
        |i: int| spec_level(centers, spec_nearest(centers, distinct[i])) as TitleLevel,
    )
}

/// The level that `size` has in the table, where it has one.
pub open spec fn spec_lookup(sizes: Seq<u32>, levels: Seq<TitleLevel>, size: u32) -> Option<
    TitleLevel,
>
    decreases sizes.len(),
{
    if sizes.len() == 0 || levels.len() == 0 {
        None
    } else if sizes[0] == size {
        Some(levels[0])
    } else {
        spec_lookup(sizes.drop_first(), levels.drop_first(), size)
    }
}

/// A table from font sizes to title levels.
#[derive(Debug)]
pub struct TitleLevels {
    pub sizes: Vec<u32>,
    pub levels: Vec<TitleLevel>,
}

impl TitleLevels {
    /// Every size has a level, and every level lies between one and six.
    pub open spec fn valid(&self) -> bool {
        &&& self.sizes.len() == self.levels.len()
        &&& forall|i: int| 0 <= i < self.levels.len() ==> 1 <= #[trigger] self.levels[i] <= MAX_TITLE_LEVEL
    }

    pub open spec fn spec_level_of(&self, size: u32) -> Option<TitleLevel> {
        spec_lookup(self.sizes@, self.levels@, size)
    }

    /// The table has a level for every size in `sizes`.
    pub open spec fn covers(&self, sizes: Seq<u32>) -> bool {
        forall|i: int| 0 <= i < sizes.len() ==> (#[trigger] self.spec_level_of(sizes[i])) is Some
    }

    /// The level of `size`, where the table has one.
    pub fn level_of(&self, size: u32) -> (r: Option<TitleLevel>)
        ensures
            r == self.spec_level_of(size),
    {
        let n: usize = if self.sizes.len() <= self.levels.len() {
            self.sizes.len()
        } else {
            self.levels.len()
        };
        let mut i: usize = 0;
        assert(self.sizes@.subrange(0, self.sizes.len() as int) =~= self.sizes@);
        assert(self.levels@.subrange(0, self.levels.len() as int) =~= self.levels@);
        while i < n
            invariant
                i <= n,
                n <= self.sizes.len(),
                n <= self.levels.len(),
                n == self.sizes.len() || n == self.levels.len(),
                self.spec_level_of(size) == spec_lookup(
                    self.sizes@.subrange(i as int, self.sizes.len() as int),
                    self.levels@.subrange(i as int, self.levels.len() as int),
                    size,
                ),
            decreases n - i,
        {
            let ghost s = self.sizes@.subrange(i as int, self.sizes.len() as int);
            let ghost l = self.levels@.subrange(i as int, self.levels.len() as int);
            assert(s[0] == self.sizes[i as int]);
            assert(l[0] == self.levels[i as int]);
            if self.sizes[i] == size {
                return Some(self.levels[i]);
            }
            assert(s.drop_first() =~= self.sizes@.subrange(i + 1, self.sizes.len() as int));
            assert(l.drop_first() =~= self.levels@.subrange(i + 1, self.levels.len() as int));
            i = i + 1;
        }
        None
    }
}

/// A size that stands in the table has a level.
pub proof fn lemma_lookup_at(sizes: Seq<u32>, levels: Seq<TitleLevel>, i: int)
    requires
        0 <= i < sizes.len(),
        sizes.len() == levels.len(),
    ensures
        spec_lookup(sizes, levels, sizes[i]) is Some,
    decreases sizes.len(),
{
    if sizes[0] == sizes[i] {
    } else {
        let s = sizes.drop_first();
        let l = levels.drop_first();
        assert(s[i - 1] == sizes[i]);
        assert(l[i - 1] == levels[i]);
        lemma_lookup_at(s, l, i - 1);
    }
}

/// A level that a lookup finds stands in the table.
pub proof fn lemma_lookup_in_table(sizes: Seq<u32>, levels: Seq<TitleLevel>, size: u32)
    requires
        spec_lookup(sizes, levels, size) is Some,
    ensures
        exists|i: int|
            0 <= i < levels.len() && i < sizes.len() && sizes[i] == size && #[trigger] levels[i]
                == spec_lookup(sizes, levels, size).unwrap(),
    decreases sizes.len(),
{
    if sizes[0] == size {
        assert(levels[0] == spec_lookup(sizes, levels, size).unwrap());
    } else {
        let s = sizes.drop_first();
        let l = levels.drop_first();
        lemma_lookup_in_table(s, l, size);
        let i = choose|i: int|
            0 <= i < l.len() && i < s.len() && s[i] == size && #[trigger] l[i] == spec_lookup(
                s,
                l,
                size,
            ).unwrap();
        assert(levels[i + 1] == l[i]);
        assert(sizes[i + 1] == s[i]);
    }
}

/// Removing repeats keeps every value that occurs.
pub proof fn lemma_dedup_keeps(s: Seq<u32>, x: u32)
    requires
        s.contains(x),
    ensures
        spec_dedup(s).contains(x),
        spec_dedup(s).len() > 0,
        spec_dedup(s).last() == s.last(),
    decreases s.len(),
{
    let head = s.drop_last();
    let d = spec_dedup(head);
    let i = choose|i: int| 0 <= i < s.len() && s[i] == x;
    if head.len() > 0 {
        assert(head.contains(head[0]));
        lemma_dedup_keeps(head, head[0]);
    }
    if i < s.len() - 1 {
        assert(head[i] == x);
        lemma_dedup_keeps(head, x);
        let p = choose|p: int| 0 <= p < d.len() && d[p] == x;
        if d.len() > 0 && d.last() == s.last() {
        } else {
            assert(d.push(s.last())[p] == x);
        }
    } else {
        if d.len() > 0 && d.last() == s.last() {
            assert(d[d.len() - 1] == x);
        } else {
            assert(d.push(s.last())[d.len() as int] == x);
        }
    }
}

/// Removing repeats never lengthens a sequence.
pub proof fn lemma_dedup_len(s: Seq<u32>)
    ensures
        spec_dedup(s).len() <= s.len(),
        s.len() > 0 ==> spec_dedup(s).len() > 0,
    decreases s.len(),
{
    if s.len() > 0 {
        lemma_dedup_len(s.drop_last());
    }
}

/// Fewer centres come before a centre than there are centres.
pub proof fn lemma_outranked_bound(centers: Seq<u32>, j: int, n: int)
    requires
        0 <= n,
    ensures
        0 <= spec_outranked(centers, j, n) <= n,
        n > j >= 0 ==> spec_outranked(centers, j, n) <= n - 1,
    decreases n,
{
    if n > 0 {
        lemma_outranked_bound(centers, j, n - 1);
    }
}

/// A cluster's sum is at most its size times the largest size there is.
pub proof fn lemma_cluster_sum_bound(points: Seq<u32>, centers: Seq<u32>, j: int, n: int)
    requires
        0 <= n <= points.len(),
    ensures
        0 <= spec_cluster_size(points, centers, j, n) <= n,
        0 <= spec_cluster_sum(points, centers, j, n) <= spec_cluster_size(points, centers, j, n)
            * 0xFFFF_FFFF,
    decreases n,
{
    if n > 0 {
        lemma_cluster_sum_bound(points, centers, j, n - 1);
        let c = spec_cluster_size(points, centers, j, n - 1);
        assert((c + 1) * 0xFFFF_FFFF == c * 0xFFFF_FFFF + 0xFFFF_FFFF) by (nonlinear_arith);
    }
}

/// Every value is larger than the values before it.
pub open spec fn spec_increasing(s: Seq<u32>) -> bool {
    forall|i: int, j: int| 0 <= i < j < s.len() ==> #[trigger] s[i] < #[trigger] s[j]
}

/// Every value of `points` is one of `values`.
pub open spec fn spec_all_among(points: Seq<u32>, values: Seq<u32>) -> bool {
    forall|q: int| 0 <= q < points.len() ==> values.contains(#[trigger] points[q])
}

proof fn lemma_dedup_increasing(s: Seq<u32>)
    requires
        ascending(s),
    ensures
        spec_increasing(spec_dedup(s)),
        s.len() > 0 ==> spec_dedup(s).len() > 0 && spec_dedup(s).last() == s.last(),
    decreases s.len(),
{
    if s.len() > 0 {
        let head = s.drop_last();
        assert forall|i: int, j: int| 0 <= i < j < head.len() implies #[trigger] head[i].spec_sort_key()
            <= #[trigger] head[j].spec_sort_key() by {
            assert(head[i] == s[i] && head[j] == s[j]);
        }
        lemma_dedup_increasing(head);
        let d = spec_dedup(head);
        if head.len() > 0 {
            assert(head.last() == s[s.len() - 2]);
            assert(s[s.len() - 2].spec_sort_key() <= s[s.len() - 1].spec_sort_key());
        }
    }
}

/// The distinct sizes increase, and every size is one of them.
pub proof fn lemma_distinct(points: Seq<u32>)
    ensures
        spec_increasing(spec_distinct(points)),
        spec_all_among(points, spec_distinct(points)),
{
    lemma_sort_properties(points);
    lemma_dedup_increasing(spec_sort(points));
    assert forall|q: int| 0 <= q < points.len() implies spec_distinct(points).contains(
        #[trigger] points[q],
    ) by {
        let x = points[q];
        assert(points.contains(x));
        to_multiset_contains(points, x);
        to_multiset_contains(spec_sort(points), x);
        lemma_dedup_keeps(spec_sort(points), x);
    }
}

proof fn lemma_nearest_below(centers: Seq<u32>, x: u32, k: int)
    requires
        1 <= k,
    ensures
        0 <= spec_nearest_among(centers, x, k) < k,
    decreases k,
{
    if k > 1 {
        lemma_nearest_below(centers, x, k - 1);
    }
}

/// Among increasing centres, the centre nearest to a value that is itself a
/// centre is that centre.
proof fn lemma_nearest_is_itself(centers: Seq<u32>, i: int, k: int)
    requires
        spec_increasing(centers),
        0 <= i < k <= centers.len(),
    ensures
        spec_nearest_among(centers, centers[i], k) == i,
    decreases k,
{
    let x = centers[i];
    if k == i + 1 {
        if i > 0 {
            lemma_nearest_below(centers, x, k - 1);
            let best = spec_nearest_among(centers, x, k - 1);
            assert(centers[best] < centers[i]);
        }
    } else {
        lemma_nearest_is_itself(centers, i, k - 1);
        assert(centers[i] < centers[k - 1]);
    }
}

/// Where every point is one of the increasing centres, the points of a
/// cluster all have the value of its centre.
proof fn lemma_cluster_of_equals(points: Seq<u32>, centers: Seq<u32>, j: int, n: int)
    requires
        spec_increasing(centers),
        spec_all_among(points, centers),
        0 <= j < centers.len(),
        0 <= n <= points.len(),
    ensures
        spec_cluster_size(points, centers, j, n) >= 0,
        spec_cluster_sum(points, centers, j, n) == spec_cluster_size(points, centers, j, n)
            * centers[j],
    decreases n,
{
    if n > 0 {
        lemma_cluster_of_equals(points, centers, j, n - 1);
        let p = points[n - 1];
        let size = spec_cluster_size(points, centers, j, n - 1);
        let c = centers[j] as int;
        assert((size + 1) * c == size * c + c) by (nonlinear_arith);
        if spec_nearest(centers, p) == j {
            assert(centers.contains(p));
            let i = choose|i: int| 0 <= i < centers.len() && centers[i] == p;
            lemma_nearest_is_itself(centers, i, centers.len() as int);
        }
    } else {
        assert(0 * (centers[j] as int) == 0) by (nonlinear_arith);
    }
}

/// Increasing centres that hold every point stay where they are.
proof fn lemma_centers_stay(points: Seq<u32>, centers: Seq<u32>, rounds: nat)
    requires
        spec_increasing(centers),
        spec_all_among(points, centers),
    ensures
        spec_iterate(points, centers, rounds) == centers,
{
    let next = spec_update(points, centers);
    assert forall|j: int| 0 <= j < centers.len() implies next[j] == centers[j] by {
        lemma_cluster_of_equals(points, centers, j, points.len() as int);
        let size = spec_cluster_size(points, centers, j, points.len() as int);
        let c = centers[j] as int;
        if size > 0 {
            assert((size * c) / size == c) by (nonlinear_arith)
                requires
                    size > 0,
            ;
        }
    }
    assert(next =~= centers);
}

/// Among increasing centres, those that come before a centre in descending
/// order are those after it.
proof fn lemma_outranked_increasing(centers: Seq<u32>, j: int, n: int)
    requires
        spec_increasing(centers),
        0 <= j < centers.len(),
        0 <= n <= centers.len(),
    ensures
        spec_outranked(centers, j, n) == if n > j + 1 {
            n - j - 1
        } else {
            0
        },
    decreases n,
{
    if n > 0 {
        lemma_outranked_increasing(centers, j, n - 1);
        if n - 1 < j {
            assert(centers[n - 1] < centers[j]);
        } else if n - 1 > j {
            assert(centers[j] < centers[n - 1]);
        }
    }
}

/// Where there are no more distinct sizes than clusters, every size keeps a
/// level of its own: the largest has level one, the next level two, and so
/// on down to the smallest.
pub proof fn lemma_levels_of_few_sizes(points: Seq<u32>, k: usize)
    requires
        spec_clusters(k, spec_distinct(points).len() as int) == spec_distinct(points).len(),
    ensures
        spec_levels(points, k).len() == spec_distinct(points).len(),
        forall|i: int|
            0 <= i < spec_distinct(points).len() ==> #[trigger] spec_levels(points, k)[i]
                == spec_distinct(points).len() - i,
{
    let distinct = spec_distinct(points);
    let n = distinct.len() as int;
    lemma_distinct(points);
    let init = spec_init(distinct, n);
    assert forall|j: int| 0 <= j < n implies init[j] == distinct[j] by {
        if n > 1 {
            assert((j * (n - 1)) / (n - 1) == j) by (nonlinear_arith)
                requires
                    n - 1 > 0,
            ;
        }
    }
    assert(init =~= distinct);
    lemma_centers_stay(points, distinct, MAX_ROUNDS as nat);
    let centers = spec_centers(points, k);
    assert(centers == distinct);
    assert forall|i: int| 0 <= i < n implies #[trigger] spec_levels(points, k)[i] == n - i by {
        lemma_nearest_is_itself(distinct, i, n);
        lemma_outranked_increasing(distinct, i, n);
    }
}

fn dedup(sorted: &Vec<u32>) -> (r: Vec<u32>)
    ensures
        r@ == spec_dedup(sorted@),
{
    let mut r: Vec<u32> = Vec::new();
    let mut i: usize = 0;
    assert(sorted@.subrange(0, 0) =~= Seq::<u32>::empty());
    while i < sorted.len()
        invariant
            i <= sorted.len(),
            r@ == spec_dedup(sorted@.subrange(0, i as int)),
        decreases sorted.len() - i,
    {
        let ghost next = sorted@.subrange(0, i + 1);
        assert(next.drop_last() =~= sorted@.subrange(0, i as int));
        assert(next.last() == sorted[i as int]);
        let x: u32 = sorted[i];
        let n: usize = r.len();
        if n == 0 || r[n - 1] != x {
            r.push(x);
        }
        i = i + 1;
    }
    assert(sorted@.subrange(0, sorted.len() as int) =~= sorted@);
    r
}

fn dist(a: u32, b: u32) -> (d: u32)
    ensures
        d == spec_dist(a, b),
{
    if a >= b {
        a - b
    } else {
        b - a
    }
}

fn nearest(centers: &Vec<u32>, x: u32) -> (j: usize)
    requires
        centers.len() > 0,
    ensures
        j == spec_nearest(centers@, x),
        j < centers.len(),
{
    let mut best: usize = 0;
    let mut k: usize = 1;
    while k < centers.len()
        invariant
            1 <= k <= centers.len(),
            best == spec_nearest_among(centers@, x, k as int),
            best < k,
        decreases centers.len() - k,
    {
        if dist(centers[k], x) < dist(centers[best], x) {
            best = k;
        }
        k = k + 1;
    }
    best
}

fn cluster_mean(points: &Vec<u32>, centers: &Vec<u32>, j: usize) -> (m: u32)
    requires
        j < centers.len(),
    ensures
        m == spec_mean(points@, centers@, j as int),
{
    let mut sum: u128 = 0;
    let mut size: u64 = 0;
    let mut i: usize = 0;
    while i < points.len()
        invariant
            i <= points.len(),
            j < centers.len(),
            sum == spec_cluster_sum(points@, centers@, j as int, i as int),
            size == spec_cluster_size(points@, centers@, j as int, i as int),
        decreases points.len() - i,
    {
        proof {
            lemma_cluster_sum_bound(points@, centers@, j as int, i as int);
            assert(size * 0xFFFF_FFFF <= 0xFFFF_FFFF_FFFF_FFFF * 0xFFFF_FFFF) by (nonlinear_arith)
                requires
                    0 <= size <= 0xFFFF_FFFF_FFFF_FFFF,
            ;
        }
        if nearest(centers, points[i]) == j {
            sum = sum + points[i] as u128;
            size = size + 1;
        }
        i = i + 1;
    }
    if size > 0 {
        proof {
            lemma_cluster_sum_bound(points@, centers@, j as int, points.len() as int);
            let s = sum as int;
            let c = size as int;
            assert(s / c <= 0xFFFF_FFFF) by (nonlinear_arith)
                requires
                    0 <= s <= c * 0xFFFF_FFFF,
                    c > 0,
            ;
            assert(s / c >= 0) by (nonlinear_arith)
                requires
                    0 <= s,
                    c > 0,
            ;
        }
        (sum / (size as u128)) as u32
    } else {
        centers[j]
    }
}

fn update(points: &Vec<u32>, centers: &Vec<u32>) -> (r: Vec<u32>)
    ensures
        r@ =~= spec_update(points@, centers@),
{
    let mut r: Vec<u32> = Vec::new();
    let mut j: usize = 0;
    while j < centers.len()
        invariant
            j <= centers.len(),
            r.len() == j,
            forall|i: int| 0 <= i < j ==> r[i] == spec_mean(points@, centers@, i),
        decreases centers.len() - j,
    {
        r.push(cluster_mean(points, centers, j));
        j = j + 1;
    }
    r
}

fn same(a: &Vec<u32>, b: &Vec<u32>) -> (r: bool)
    ensures
        r == (a@ =~= b@),
{
    if a.len() != b.len() {
        return false;
    }
    let mut i: usize = 0;
    while i < a.len()
        invariant
            i <= a.len(),
            a.len() == b.len(),
            forall|k: int| 0 <= k < i ==> a[k] == b[k],
        decreases a.len() - i,
    {
        if a[i] != b[i] {
            return false;
        }
        i = i + 1;
    }
    true
}

fn level(centers: &Vec<u32>, j: usize) -> (l: TitleLevel)
    requires
        j < centers.len(),
        centers.len() <= MAX_CLUSTERS,
    ensures
        l == spec_level(centers@, j as int),
        1 <= l <= centers.len(),
{
    let mut before: u8 = 0;
    let mut i: usize = 0;
    while i < centers.len()
        invariant
            i <= centers.len(),
            j < centers.len(),
            centers.len() <= MAX_CLUSTERS,
            before == spec_outranked(centers@, j as int, i as int),
        decreases centers.len() - i,
    {
        proof {
            lemma_outranked_bound(centers@, j as int, i as int);
        }
        if centers[i] > centers[j] || (centers[i] == centers[j] && i < j) {
            before = before + 1;
        }
        i = i + 1;
    }
    proof {
        lemma_outranked_bound(centers@, j as int, centers.len() as int);
    }
    before + 1
}

/// Clusters the font sizes of a document's headings and gives every size that
/// occurs its title level. Without sizes the table is empty.
pub fn title_levels_kmeans(sizes: &Vec<u32>, k: usize) -> (r: TitleLevels)
    ensures
        r.sizes@ == spec_distinct(sizes@),
        r.levels@ == spec_levels(sizes@, k),
        r.valid(),
        r.covers(sizes@),
        forall|i: int|
            0 <= i < r.levels.len() ==> 1 <= #[trigger] r.levels[i] <= spec_clusters(
                k,
                r.sizes.len() as int,
            ),
        sizes.len() == 0 ==> r.sizes.len() == 0,
        spec_increasing(r.sizes@),
        spec_clusters(k, r.sizes.len() as int) == r.sizes.len() ==> forall|i: int|
            0 <= i < r.levels.len() ==> #[trigger] r.levels[i] == r.sizes.len() - i,
{
    let mut sorted: Vec<u32> = Vec::new();
    let mut c: usize = 0;
    while c < sizes.len()
        invariant
            c <= sizes.len(),
            sorted@ == sizes@.subrange(0, c as int),
        decreases sizes.len() - c,
    {
        sorted.push(sizes[c]);
        assert(sorted@ =~= sizes@.subrange(0, c + 1));
        c = c + 1;
    }
    assert(sorted@ =~= sizes@);
    let sorted: Vec<u32> = sort_by_key(sorted);
    let distinct: Vec<u32> = dedup(&sorted);
    let n: usize = distinct.len();
    proof {
        lemma_dedup_len(sorted@);
        lemma_sort_properties(sizes@);
        lemma_distinct(sizes@);
    }
    let wanted: usize = if k < 1 {
        1
    } else if k > MAX_CLUSTERS {
        MAX_CLUSTERS
    } else {
        k
    };
    let clusters: usize = if wanted <= n {
        wanted
    } else {
        n
    };
    if n == 0 {
        let r = TitleLevels { sizes: distinct, levels: Vec::new() };
        assert(r.levels@ =~= spec_levels(sizes@, k));
        assert(sizes.len() == 0);
        return r;
    }
    let mut centers: Vec<u32> = Vec::new();
    let mut j: usize = 0;
    while j < clusters
        invariant
            j <= clusters,
            1 <= clusters <= n,
            clusters <= MAX_CLUSTERS,
            n == distinct.len(),
            centers.len() == j,
            forall|i: int|
                0 <= i < j ==> centers[i] == distinct[spec_quantile(i, n as int, clusters as int)],
        decreases clusters - j,
    {
        let at: usize = if clusters <= 1 {
            0
        } else {
            proof {
                let jj = j as int;
                let nn = (n - 1) as int;
                let kk = (clusters - 1) as int;
                assert(0 <= jj * nn <= kk * nn) by (nonlinear_arith)
                    requires
                        0 <= jj <= kk,
                        0 <= nn,
                ;
                assert(kk * nn <= 5 * nn) by (nonlinear_arith)
                    requires
                        0 <= kk <= 5,
                        0 <= nn,
                ;
                assert((jj * nn) / kk <= nn) by (nonlinear_arith)
                    requires
                        0 <= jj * nn <= kk * nn,
                        kk > 0,
                ;
                assert((jj * nn) / kk >= 0) by (nonlinear_arith)
                    requires
                        0 <= jj * nn,
                        kk > 0,
                ;
            }
            let wide: u128 = (j as u128) * ((n - 1) as u128);
            (wide / ((clusters - 1) as u128)) as usize
        };
        centers.push(distinct[at]);
        j = j + 1;
    }
    assert(centers@ =~= spec_init(distinct@, clusters as int));
    let mut round: usize = 0;
    while round < MAX_ROUNDS
        invariant
            round <= MAX_ROUNDS,
            centers.len() == clusters,
            1 <= clusters <= MAX_CLUSTERS,
            spec_iterate(sizes@, spec_init(distinct@, clusters as int), MAX_ROUNDS as nat)
                == spec_iterate(sizes@, centers@, (MAX_ROUNDS - round) as nat),
        decreases MAX_ROUNDS - round,
    {
        let next: Vec<u32> = update(sizes, &centers);
        if same(&next, &centers) {
            round = MAX_ROUNDS;
        } else {
            centers = next;
            round = round + 1;
        }
    }
    assert(centers@ == spec_centers(sizes@, k));
    let mut levels: Vec<TitleLevel> = Vec::new();
    let mut i: usize = 0;
    while i < n
        invariant
            i <= n,
            n == distinct.len(),
            centers.len() == clusters,
            1 <= clusters <= MAX_CLUSTERS,
            levels.len() == i,
            forall|p: int|
                0 <= p < i ==> levels[p] == spec_level(
                    centers@,
                    spec_nearest(centers@, distinct[p]),
                ) as TitleLevel,
            forall|p: int| 0 <= p < i ==> 1 <= #[trigger] levels[p] <= clusters,
        decreases n - i,
    {
        let at: usize = nearest(&centers, distinct[i]);
        levels.push(level(&centers, at));
        i = i + 1;
    }
    assert(levels@ =~= spec_levels(sizes@, k));
    let r = TitleLevels { sizes: distinct, levels };
    proof {
        if spec_clusters(k, n as int) == n {
            lemma_levels_of_few_sizes(sizes@, k);
        }
        assert forall|q: int| 0 <= q < sizes.len() implies (#[trigger] r.spec_level_of(sizes[q]))
            is Some by {
            let x = sizes[q];
            assert(sizes@.contains(x));
            to_multiset_contains(sizes@, x);
            to_multiset_contains(spec_sort(sizes@), x);
            lemma_dedup_keeps(spec_sort(sizes@), x);
            let p = choose|p: int| 0 <= p < r.sizes@.len() && r.sizes@[p] == x;
            lemma_lookup_at(r.sizes@, r.levels@, p);
        }
    }
    r
}

} // verus!

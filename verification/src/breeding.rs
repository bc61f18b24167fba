//! Population-level operations: fitness-proportionate selection and the
//! generational breeding driver, with elitism and stagnation-triggered
//! purges.

use vstd::prelude::*;
use crate::collections::Vector;
use crate::genes::{
    Chromosome, Fitness, Gene, GENES_MAX, clone_genes, fitness_le, rot_shapes_of, wf_chromosome,
    wf_genes,
};
use crate::random::{RandomSource, draw_below};

verus! {

/// Tenth of the population that is kept alive, unchanged, for the next
/// round of breeding (elitism), in hundredths.
pub const KEEP_ALIVE_PERCENTAGE: usize = 10;

/// Share of the population that a purge regenerates from scratch, in
/// hundredths.
pub const PURGE_PERCENTAGE: usize = 70;

/// How many generations between stagnation checks.
pub const PURGE_INTERVAL: usize = 100;

/// Largest population the driver handles.
pub const POP_MAX: usize = 0x10_0000;

/// Scale that turns a packing density into an integer selection weight.
pub const WEIGHT_SCALE: u64 = 1024;

/// Candidate is a container for a chromosome (by its index in the
/// population) with a determined probability range for selection: a
/// chromosome is drawn when the draw falls at or under its range end and
/// over its predecessor's.
#[derive(PartialEq, Eq, Structural, Copy, Clone, Debug)]
pub struct Candidate {
    pub prob_range_end: u64,
    pub index: usize,
}

impl Candidate {
    /// Constructor for a candidate.
    pub fn new(prob_range_end: u64, index: usize) -> (r: Candidate)
        ensures
            r == (Candidate { prob_range_end, index }),
    {
        Candidate { prob_range_end, index }
    }
}

/// Candidates sorted in ascending order of their probability range ends.
pub open spec fn sorted_candidates(s: Seq<Candidate>) -> bool {
    forall|i: int, j: int|
        0 <= i < j < s.len() ==> #[trigger] s[i].prob_range_end <= #[trigger] s[j].prob_range_end
}

/// All chromosomes of the population are well-formed and hold equally many
/// genes.
pub open spec fn wf_population(s: Seq<Chromosome>) -> bool {
    &&& forall|i: int| 0 <= i < s.len() ==> wf_chromosome(#[trigger] s[i])
    &&& forall|i: int, j: int|
        0 <= i < s.len() && 0 <= j < s.len() ==> (#[trigger] s[i].genes)@.len() == (
        #[trigger] s[j].genes)@.len()
}

/// Chromosomes sorted in descending order of fitness.
pub open spec fn sorted_desc_by_fitness(s: Seq<Chromosome>) -> bool {
    forall|i: int, j: int|
        0 <= i < j < s.len() ==> fitness_le(#[trigger] s[j].fitness, #[trigger] s[i].fitness)
}

/// The two chromosomes hold the same value in every field.
pub open spec fn same_chromosome(a: Chromosome, b: Chromosome) -> bool {
    &&& a.genes@ == b.genes@
    &&& a.total_area == b.total_area
    &&& a.fitness == b.fitness
    &&& a.bounding_box == b.bounding_box
    &&& a.bounding_box_fresh == b.bounding_box_fresh
}

/// How many of the best chromosomes (a rounded tenth) survive a breeding
/// step unchanged.
pub open spec fn keep_alive_count(n: int) -> int {
    (n * KEEP_ALIVE_PERCENTAGE + 50) / 100
}

/// How many of the worst chromosomes (a rounded seven tenths) a purge
/// regenerates.
pub open spec fn purge_count(n: int) -> int {
    (n * PURGE_PERCENTAGE + 50) / 100
}

/// Binary searches for the candidate with the smallest probability range end
/// that is at least `random_value` (an inclusive lower bound), returning its
/// position; `None` exactly when every range end is below `random_value`.
pub fn search_candidate(candidates: &Vector<Candidate>, random_value: u64) -> (r: Option<usize>)
    requires
        candidates@.len() >= 1,
        sorted_candidates(candidates@),
    ensures
        match r {
            Some(idx) => idx < candidates@.len() && candidates@[idx as int].prob_range_end
                >= random_value && forall|k: int|
                0 <= k < idx ==> #[trigger] candidates@[k].prob_range_end < random_value,
            None => forall|k: int|
                0 <= k < candidates@.len() ==> #[trigger] candidates@[k].prob_range_end
                    < random_value,
        },
{
    let n = candidates.len();
    let mut lo: usize = 0;
    let mut hi: usize = n;
    while lo < hi
        invariant
            lo <= hi <= n,
            n == candidates@.len(),
            sorted_candidates(candidates@),
            forall|k: int| 0 <= k < lo ==> #[trigger] candidates@[k].prob_range_end < random_value,
            forall|k: int|
                hi <= k < n ==> #[trigger] candidates@[k].prob_range_end >= random_value,
        decreases hi - lo,
    {
        let mid = lo + (hi - lo) / 2;
        if candidates.get(mid).prob_range_end < random_value {
            proof {
                assert forall|k: int| 0 <= k < mid + 1 implies
                    #[trigger] candidates@[k].prob_range_end < random_value by {
                    if k < lo {
                    } else {
                        assert(candidates@[k].prob_range_end <= candidates@[mid as int
                        ].prob_range_end);
                    }
                }
            }
            lo = mid + 1;
        } else {
            proof {
                assert forall|k: int| mid <= k < n implies
                    #[trigger] candidates@[k].prob_range_end >= random_value by {
                    if k > mid {
                        assert(candidates@[mid as int].prob_range_end
                            <= candidates@[k].prob_range_end);
                    }
                }
            }
            hi = mid;
        }
    }
    if lo == n {
        None
    } else {
        Some(lo)
    }
}

/// Builds the cumulative selection table over a population: each
/// chromosome's integer weight is its scaled packing density plus one, and
/// the entries carry the running totals, so the table is strictly
/// increasing and its last entry carries the grand total.
fn build_candidates(population: &Vector<Chromosome>) -> (r: (Vector<Candidate>, u64))
    requires
        1 <= population@.len() <= POP_MAX,
        wf_population(population@),
    ensures
        r.0@.len() == population@.len(),
        sorted_candidates(r.0@),
        forall|k: int| 0 <= k < r.0@.len() ==> (#[trigger] r.0@[k]).index == k,
        r.1 >= 1,
        r.0@.last().prob_range_end == r.1,
{
    let n = population.len();
    let mut candidates: Vector<Candidate> = Vector::new();
    let mut running: u64 = 0;
    let mut i: usize = 0;
    while i < n
        invariant
            i <= n,
            n == population@.len() <= POP_MAX,
            wf_population(population@),
            candidates@.len() == i,
            sorted_candidates(candidates@),
            forall|k: int| 0 <= k < i ==> (#[trigger] candidates@[k]).index == k,
            forall|k: int|
                0 <= k < i ==> (#[trigger] candidates@[k]).prob_range_end <= running,
            i >= 1 ==> candidates@.last().prob_range_end == running,
            i >= 1 ==> running >= 1,
            running <= (i as int) * 0x100_0000_0000,
        decreases n - i,
    {
        let c = population.get(i);
        proof {
            assert(wf_chromosome(population@[i as int]));
            assert((1 <= c.fitness.num <= 0x400_0000_0000 && 1 <= c.fitness.den)
                ==> 0 <= (c.fitness.num as int) * (WEIGHT_SCALE as int) / (c.fitness.den as int)
                <= 0x400_0000_0000 * 1024) by (nonlinear_arith);
        }
        let scaled: u128 = (c.fitness.num as u128) * (WEIGHT_SCALE as u128) / (c.fitness.den
            as u128);
        let weight: u64 = if scaled >= 0xFF_FFFF_FFFF {
            0x100_0000_0000
        } else {
            (scaled as u64) + 1
        };
        running = running + weight;
        candidates.push(Candidate::new(running, i));
        i = i + 1;
    }
    (candidates, running)
}

/// Generates an initial population of the given size, each chromosome
/// independently generated from the same gene templates.
pub fn generate_initial_population<R: RandomSource>(
    genes: Vector<Gene>,
    size: usize,
    rng: &mut R,
) -> (r: Vector<Chromosome>)
    requires
        1 <= genes@.len() <= GENES_MAX,
        wf_genes(genes@),
        1 <= size <= POP_MAX,
    ensures
        r@.len() == size,
        wf_population(r@),
        forall|k: int| 0 <= k < r@.len() ==> (#[trigger] r@[k]).genes@.len() == genes@.len(),
        forall|k: int|
            0 <= k < r@.len() ==> rot_shapes_of((#[trigger] r@[k]).genes@).to_multiset()
                == rot_shapes_of(genes@).to_multiset(),
{
    let n = genes.len();
    let mut templates: Vec<Gene> = Vec::new();
    let mut i: usize = 0;
    while i < n
        invariant
            i <= n,
            n == genes@.len() <= GENES_MAX,
            wf_genes(genes@),
            templates@ == genes@.take(i as int),
        decreases n - i,
    {
        templates.push(*genes.get(i));
        proof {
            assert(templates@ =~= genes@.take(i as int + 1));
        }
        i = i + 1;
    }
    proof {
        assert(genes@.take(n as int) == genes@);
    }
    let mut population: Vector<Chromosome> = Vector::new();
    let mut made: usize = 0;
    while made < size
        invariant
            made <= size <= POP_MAX,
            templates@ == genes@,
            1 <= genes@.len() <= GENES_MAX,
            wf_genes(genes@),
            population@.len() == made,
            forall|k: int| 0 <= k < made ==> wf_chromosome(#[trigger] population@[k]),
            forall|k: int|
                0 <= k < made ==> (#[trigger] population@[k]).genes@.len() == genes@.len(),
            forall|k: int|
                0 <= k < made ==> rot_shapes_of((#[trigger] population@[k]).genes@).to_multiset()
                    == rot_shapes_of(genes@).to_multiset(),
        decreases size - made,
    {
        let chromosome = Chromosome::generate_initial(clone_genes(&templates), rng);
        population.push(chromosome);
        made = made + 1;
    }
    population
}

/// Returns the position of the most fit chromosome in a population: the
/// first chromosome whose fitness every other chromosome's fitness stays at
/// or under; `None` exactly when no chromosome has positive fitness.
pub fn most_fit(population: &Vector<Chromosome>) -> (r: Option<usize>)
    requires
        forall|i: int| 0 <= i < population@.len() ==> (#[trigger] population@[i]).fitness.den >= 1,
    ensures
        match r {
            Some(idx) => idx < population@.len() && population@[idx as int].fitness.num >= 1
                && forall|k: int|
                0 <= k < population@.len() ==> fitness_le(
                    (#[trigger] population@[k]).fitness,
                    population@[idx as int].fitness,
                ),
            None => forall|k: int|
                0 <= k < population@.len() ==> (#[trigger] population@[k]).fitness.num <= 0,
        },
{
    let n = population.len();
    let mut best: Option<usize> = None;
    let mut largest = Fitness { num: 0, den: 1 };
    let mut i: usize = 0;
    while i < n
        invariant
            i <= n,
            n == population@.len(),
            forall|k: int|
                0 <= k < population@.len() ==> (#[trigger] population@[k]).fitness.den >= 1,
            largest.den >= 1,
            largest.num >= 0,
            match best {
                Some(idx) => idx < i && population@[idx as int].fitness == largest
                    && largest.num >= 1 && forall|k: int|
                    0 <= k < i ==> fitness_le((#[trigger] population@[k]).fitness, largest),
                None => largest.num == 0 && largest.den == 1 && forall|k: int|
                    0 <= k < i ==> (#[trigger] population@[k]).fitness.num <= 0,
            },
        decreases n - i,
    {
        let f = population.get(i).fitness;
        let is_better = !f.le(&largest);
        proof {
            let fi = population@[i as int].fitness;
            if !fitness_le(fi, largest) {
                assert((fi.num * largest.den > largest.num * fi.den && largest.num >= 0
                    && largest.den >= 1 && fi.den >= 1) ==> fi.num >= 1) by (nonlinear_arith);
            }
            if !fitness_le(fi, largest) {
                assert(fitness_le(largest, fi)) by {
                    assert(!(fi.num * largest.den <= largest.num * fi.den) ==> largest.num
                        * fi.den <= fi.num * largest.den);
                }
                assert forall|k: int| 0 <= k < i + 1 implies fitness_le(
                    (#[trigger] population@[k]).fitness,
                    fi,
                ) by {
                    if k < i {
                        let fk = population@[k].fitness;
                        if best is Some {
                            assert(fitness_le(fk, largest));
                        } else {
                            assert(fk.num <= 0);
                            assert((fk.num <= 0 && fk.den >= 1 && fi.num >= 1 && fi.den >= 1)
                                ==> fk.num * fi.den <= fi.num * fk.den) by (nonlinear_arith);
                        }
                        lemma_fitness_le_trans(fk, largest, fi);
                    }
                }
            } else {
                if best is Some {
                    assert forall|k: int| 0 <= k < i + 1 implies fitness_le(
                        (#[trigger] population@[k]).fitness,
                        largest,
                    ) by {}
                } else {
                    assert((fi.num * 1 <= 0 * fi.den && fi.den >= 1) ==> fi.num <= 0)
                        by (nonlinear_arith);
                }
            }
        }
        if is_better {
            best = Some(i);
            largest = f;
        }
        i = i + 1;
    }
    best
}

/// `<=` on fitness rationals with positive denominators is transitive.
proof fn lemma_fitness_le_trans(a: Fitness, b: Fitness, c: Fitness)
    requires
        a.den >= 1,
        b.den >= 1,
        c.den >= 1,
        fitness_le(a, b),
        fitness_le(b, c),
    ensures
        fitness_le(a, c),
{
    assert((a.den >= 1 && b.den >= 1 && c.den >= 1 && a.num * b.den <= b.num * a.den && b.num
        * c.den <= c.num * b.den) ==> a.num * c.den <= c.num * a.den) by (nonlinear_arith);
}

/// Sorts a population in descending order of fitness by insertion,
/// preserving the population's chromosomes.
fn sort_population_desc(population: &mut Vector<Chromosome>)
    requires
        old(population)@.len() <= POP_MAX,
        forall|i: int|
            0 <= i < old(population)@.len() ==> (#[trigger] old(population)@[i]).fitness.den >= 1,
    ensures
        final(population)@.len() == old(population)@.len(),
        final(population)@.to_multiset() == old(population)@.to_multiset(),
        sorted_desc_by_fitness(final(population)@),
        wf_population(old(population)@) ==> wf_population(final(population)@),
{
    let n = population.len();
    if n <= 1 {
        return ;
    }
    let mut i: usize = 1;
    while i < n
        invariant
            1 <= i <= n,
            n == population@.len() <= POP_MAX,
            population@.to_multiset() == old(population)@.to_multiset(),
            sorted_desc_by_fitness(population@.take(i as int)),
            forall|k: int|
                0 <= k < population@.len() ==> (#[trigger] population@[k]).fitness.den >= 1,
            wf_population(old(population)@) ==> wf_population(population@),
        decreases n - i,
    {
        let ghost pre = population@;
        let key = population.remove(i);
        let mut j: usize = i;
        while j > 0 && population.get(j - 1).fitness.le(&key.fitness)
            invariant
                j <= i < pre.len(),
                population@ == pre.remove(i as int),
                key == pre[i as int],
                forall|k: int|
                    j <= k < i ==> fitness_le((#[trigger] population@[k]).fitness, key.fitness),
            decreases j,
        {
            j = j - 1;
        }
        population.insert(j, key);
        proof {
            broadcast use vstd::seq_lib::group_to_multiset_ensures;

            let cur = population@;
            assert(cur == pre.remove(i as int).insert(j as int, key));
            lemma_population_remove_insert_multiset(pre, i as int, j as int);
            assert(sorted_desc_by_fitness(cur.take(i as int + 1))) by {
                assert forall|a: int, b: int| 0 <= a < b < i + 1 implies fitness_le(
                    cur[b].fitness,
                    cur[a].fitness,
                ) by {
                    if b < j {
                    } else if a < j && b == j {
                        assert(cur[a] == pre[a]);
                        assert(j >= 1);
                        assert(!fitness_le(pre[j - 1].fitness, key.fitness));
                        lemma_fitness_total(pre[j - 1].fitness, key.fitness);
                        if a < j - 1 {
                            assert(fitness_le(pre[j - 1].fitness, pre[a].fitness));
                            lemma_fitness_le_trans(
                                key.fitness,
                                pre[j - 1].fitness,
                                pre[a].fitness,
                            );
                        }
                    } else if a < j && b > j {
                        assert(cur[b] == pre[b - 1]);
                    } else if a == j {
                        assert(cur[b] == pre[b - 1]);
                        assert(fitness_le(cur[b].fitness, key.fitness));
                    } else {
                        assert(cur[a] == pre[a - 1]);
                        assert(cur[b] == pre[b - 1]);
                    }
                }
            }
            if wf_population(old(population)@) {
                assert forall|k: int| 0 <= k < cur.len() implies wf_chromosome(cur[k]) && (
                #[trigger] cur[k]).genes@.len() == pre[0].genes@.len() by {
                    let o = if k == j {
                        i as int
                    } else if k < j || k > i {
                        k
                    } else {
                        k - 1
                    };
                    assert(cur[k] == pre[o]);
                }
            }
            assert forall|k: int| 0 <= k < cur.len() implies (#[trigger] cur[k]).fitness.den
                >= 1 by {
                let o = if k == j {
                    i as int
                } else if k < j || k > i {
                    k
                } else {
                    k - 1
                };
                assert(cur[k] == pre[o]);
            }
        }
        i = i + 1;
    }
    proof {
        assert(population@.take(n as int) == population@);
    }
}

/// When `a <= b` fails on fitness rationals, `b <= a` holds: the order is
/// total.
proof fn lemma_fitness_total(a: Fitness, b: Fitness)
    requires
        !fitness_le(a, b),
    ensures
        fitness_le(b, a),
{
}

/// Removing a chromosome at `i` and re-inserting it at `j <= i` keeps the
/// population's multiset of chromosomes.
proof fn lemma_population_remove_insert_multiset(s: Seq<Chromosome>, i: int, j: int)
    requires
        0 <= i < s.len(),
        0 <= j <= i,
    ensures
        s.remove(i).insert(j, s[i]).to_multiset() == s.to_multiset(),
{
    broadcast use vstd::seq_lib::group_to_multiset_ensures;

    let removed = s.remove(i);
    assert(removed.insert(j, s[i]).to_multiset() =~= removed.to_multiset().insert(s[i]));
    assert(s.to_multiset().remove(s[i]).insert(s[i]) =~= s.to_multiset());
}

/// Breeds a population by one step: sorts it by descending fitness, carries
/// the best tenth over unchanged, then repeatedly draws two parents from the
/// selection table, mates them and mutates both children until the next
/// population reaches the old size (dropping a second child that would
/// overshoot). The population's cardinality is preserved.
pub fn breed<R: RandomSource>(population: Vector<Chromosome>, rng: &mut R) -> (r: Vector<
    Chromosome,
>)
    requires
        1 <= population@.len() <= POP_MAX,
        wf_population(population@),
    ensures
        r@.len() == population@.len(),
        wf_population(r@),
        forall|k: int|
            0 <= k < r@.len() ==> (#[trigger] r@[k]).genes@.len() == population@[0].genes@.len(),
        exists|s: Seq<Chromosome>|
            {
                &&& #[trigger] s.to_multiset() == population@.to_multiset()
                &&& sorted_desc_by_fitness(s)
                &&& forall|k: int|
                    0 <= k < keep_alive_count(population@.len() as int) ==> same_chromosome(
                        #[trigger] r@[k],
                        s[k],
                    )
            },
{
    let n = population.len();
    let ghost orig = population@;
    let mut work_population = population;
    sort_population_desc(&mut work_population);
    proof {
        lemma_multiset_population_len(orig, work_population@);
        assert(work_population@.len() == n);
    }
    let (candidates, total) = build_candidates(&work_population);
    let keep_alive = (n * KEEP_ALIVE_PERCENTAGE + 50) / 100;
    proof {
        assert(keep_alive <= n);
    }
    let mut next_population: Vector<Chromosome> = Vector::new();
    let mut kept: usize = 0;
    while kept < keep_alive
        invariant
            kept <= keep_alive <= n,
            n == work_population@.len() <= POP_MAX,
            wf_population(work_population@),
            next_population@.len() == kept,
            forall|k: int|
                0 <= k < work_population@.len() ==> (#[trigger] work_population@[k]).genes@.len()
                    == orig[0].genes@.len(),
            forall|k: int| 0 <= k < kept ==> wf_chromosome(#[trigger] next_population@[k]),
            forall|k: int|
                0 <= k < kept ==> (#[trigger] next_population@[k]).genes@.len()
                    == orig[0].genes@.len(),
            forall|k: int|
                0 <= k < kept ==> same_chromosome(
                    #[trigger] next_population@[k],
                    work_population@[k],
                ),
        decreases n - kept,
    {
        next_population.push(work_population.get(kept).duplicate());
        kept = kept + 1;
    }
    while next_population.len() < n
        invariant
            keep_alive <= n,
            keep_alive == keep_alive_count(n as int),
            n == work_population@.len() <= POP_MAX,
            wf_population(work_population@),
            candidates@.len() == n,
            sorted_candidates(candidates@),
            forall|k: int| 0 <= k < candidates@.len() ==> (#[trigger] candidates@[k]).index == k,
            total >= 1,
            candidates@.last().prob_range_end == total,
            keep_alive <= next_population@.len() <= n,
            forall|k: int|
                0 <= k < work_population@.len() ==> (#[trigger] work_population@[k]).genes@.len()
                    == orig[0].genes@.len(),
            forall|k: int|
                0 <= k < next_population@.len() ==> wf_chromosome(
                    #[trigger] next_population@[k],
                ),
            forall|k: int|
                0 <= k < next_population@.len() ==> (#[trigger] next_population@[k]).genes@.len()
                    == orig[0].genes@.len(),
            forall|k: int|
                0 <= k < keep_alive ==> same_chromosome(
                    #[trigger] next_population@[k],
                    work_population@[k],
                ),
        decreases n - next_population@.len(),
    {
        let draw1 = draw_below(rng, total);
        let found1 = search_candidate(&candidates, draw1);
        let idx1 = match found1 {
            Some(idx) => idx,
            None => {
                proof {
                    assert(candidates@.last().prob_range_end >= draw1 + 1);
                    assert(false);
                }
                0
            },
        };
        let draw2 = draw_below(rng, total);
        let found2 = search_candidate(&candidates, draw2);
        let idx2 = match found2 {
            Some(idx) => idx,
            None => {
                proof {
                    assert(candidates@.last().prob_range_end >= draw2 + 1);
                    assert(false);
                }
                0
            },
        };
        let parent1 = work_population.get(candidates.get(idx1).index);
        let parent2 = work_population.get(candidates.get(idx2).index);
        let (mut child1, mut child2) = parent1.mate(parent2, rng);
        child1.mutate(rng);
        child2.mutate(rng);
        next_population.push(child1);
        if next_population.len() < n {
            next_population.push(child2);
        }
    }
    proof {
        let s = work_population@;
        assert(s.to_multiset() == population@.to_multiset());
        assert(forall|k: int|
            0 <= k < keep_alive_count(population@.len() as int) ==> same_chromosome(
                #[trigger] next_population@[k],
                s[k],
            ));
    }
    next_population
}

/// Two populations with equal multisets have equal lengths, and every
/// chromosome of the second population holds as many genes as the first
/// chromosome of a well-formed first population.
proof fn lemma_multiset_population_len(s1: Seq<Chromosome>, s2: Seq<Chromosome>)
    requires
        s1.to_multiset() == s2.to_multiset(),
        wf_population(s1),
    ensures
        s1.len() == s2.len(),
        forall|k: int|
            0 <= k < s2.len() ==> (#[trigger] s2[k]).genes@.len() == s1[0].genes@.len(),
{
    broadcast use vstd::seq_lib::group_to_multiset_ensures;

    assert(s1.len() == s1.to_multiset().len());
    assert(s2.len() == s2.to_multiset().len());
    assert forall|k: int|
        0 <= k < s2.len() implies (#[trigger] s2[k]).genes@.len() == s1[0].genes@.len() by {
        assert(s2.contains(s2[k]));
        assert(s2.to_multiset().count(s2[k]) > 0);
        assert(s1.contains(s2[k]));
        let idx = choose|idx: int| 0 <= idx < s1.len() && s1[idx] == s2[k];
        assert(s1[idx].genes@.len() == s1[0].genes@.len());
    }
}

/// Replaces the worst `PURGE_PERCENTAGE` (rounded) of the population with
/// chromosomes regenerated from scratch out of the best chromosome's gene
/// templates, to escape stagnation. The population's cardinality is
/// preserved.
pub fn purge<R: RandomSource>(population: &mut Vector<Chromosome>, rng: &mut R)
    requires
        1 <= old(population)@.len() <= POP_MAX,
        wf_population(old(population)@),
    ensures
        final(population)@.len() == old(population)@.len(),
        wf_population(final(population)@),
        forall|k: int|
            0 <= k < final(population)@.len() ==> (#[trigger] final(population)@[k]).genes@.len()
                == old(population)@[0].genes@.len(),
        exists|s: Seq<Chromosome>|
            {
                &&& #[trigger] s.to_multiset() == old(population)@.to_multiset()
                &&& sorted_desc_by_fitness(s)
                &&& forall|k: int|
                    0 <= k < s.len() - purge_count(s.len() as int) ==> final(population)@[k] == s[k]
                &&& forall|k: int|
                    s.len() - purge_count(s.len() as int) <= k < s.len()
                        ==> rot_shapes_of((#[trigger] final(population)@[k]).genes@).to_multiset()
                        == rot_shapes_of(s[0].genes@).to_multiset()
            },
{
    let ghost orig = population@;
    sort_population_desc(population);
    proof {
        lemma_multiset_population_len(orig, population@);
    }
    let ghost sorted = population@;
    let n = population.len();
    let kill = (n * PURGE_PERCENTAGE + 50) / 100;
    proof {
        assert(kill <= n);
    }
    let start = n - kill;
    let templates = clone_genes(&population.get(0).genes);
    let mut i: usize = start;
    while i < n
        invariant
            start <= i <= n,
            start == n - purge_count(n as int),
            n == population@.len() <= POP_MAX,
            templates@ == sorted[0].genes@,
            templates@.len() == orig[0].genes@.len(),
            1 <= templates@.len() <= GENES_MAX,
            wf_genes(templates@),
            forall|k: int| 0 <= k < start ==> #[trigger] population@[k] == sorted[k],
            forall|k: int|
                start <= k < i ==> rot_shapes_of(
                    (#[trigger] population@[k]).genes@,
                ).to_multiset() == rot_shapes_of(sorted[0].genes@).to_multiset(),
            forall|k: int| i <= k < n ==> #[trigger] population@[k] == sorted[k],
            forall|k: int| 0 <= k < n ==> wf_chromosome(#[trigger] population@[k]),
            forall|k: int|
                0 <= k < n ==> (#[trigger] population@[k]).genes@.len() == orig[0].genes@.len(),
        decreases n - i,
    {
        let fresh = Chromosome::generate_initial(clone_genes(&templates), rng);
        population.set(i, fresh);
        i = i + 1;
    }
}

/// In a descending-fitness ordering of a population, the head is at least
/// as fit as every chromosome of the population.
proof fn lemma_sorted_head_dominates(x: Seq<Chromosome>, s: Seq<Chromosome>)
    requires
        s.to_multiset() == x.to_multiset(),
        sorted_desc_by_fitness(s),
        x.len() >= 1,
    ensures
        s.len() == x.len(),
        forall|k: int| 0 <= k < x.len() ==> fitness_le((#[trigger] x[k]).fitness, s[0].fitness),
{
    broadcast use vstd::seq_lib::group_to_multiset_ensures;

    assert(s.len() == s.to_multiset().len());
    assert(x.len() == x.to_multiset().len());
    assert forall|k: int|
        0 <= k < x.len() implies fitness_le((#[trigger] x[k]).fitness, s[0].fitness) by {
        assert(x.contains(x[k]));
        assert(x.to_multiset().count(x[k]) > 0);
        assert(s.contains(x[k]));
        let j = choose|j: int| 0 <= j < s.len() && s[j] == x[k];
        if j > 0 {
            assert(fitness_le(s[j].fitness, s[0].fitness));
        }
    }
}

/// A population large enough to carry an elite through breeding also keeps
/// at least its best chromosome through a purge.
proof fn lemma_keep_implies_purge_slack(n: int)
    requires
        1 <= n,
        keep_alive_count(n) >= 1,
    ensures
        n >= 5,
        1 <= n - purge_count(n),
{
    assert((n * KEEP_ALIVE_PERCENTAGE + 50) / 100 >= 1 ==> n * KEEP_ALIVE_PERCENTAGE + 50
        >= 100) by (nonlinear_arith);
    assert(n >= 5 ==> (n * PURGE_PERCENTAGE + 50) / 100 <= n - 1) by (nonlinear_arith);
}

/// Breeds the population for the given number of generations; at every
/// `PURGE_INTERVAL` generations, compares the best fitness to the best
/// fitness at the previous checkpoint and, when it has not improved, purges
/// the stale population right after the checkpoint. Once at least one
/// generation has run with a nonempty elite, the head of the returned
/// population is at least as fit as every chromosome of the input: elitism
/// carries the best ever seen forward, and a purge never touches the head.
pub fn breed_for<R: RandomSource>(
    population: Vector<Chromosome>,
    generations: usize,
    rng: &mut R,
) -> (r: Vector<Chromosome>)
    requires
        1 <= population@.len() <= POP_MAX,
        wf_population(population@),
    ensures
        r@.len() == population@.len(),
        wf_population(r@),
        forall|k: int|
            0 <= k < r@.len() ==> (#[trigger] r@[k]).genes@.len() == population@[0].genes@.len(),
        (generations >= 1 && keep_alive_count(population@.len() as int) >= 1) ==> forall|k: int|
            0 <= k < population@.len() ==> fitness_le(
                (#[trigger] population@[k]).fitness,
                r@[0].fitness,
            ),
{
    let n = population.len();
    let ghost orig = population@;
    let ghost glen = population@[0].genes@.len();
    let mut work_population = population;
    let mut last_fitness = Fitness { num: 0, den: 1 };
    let mut purge_imminent = false;
    let mut i: usize = 0;
    while i < generations
        invariant
            i <= generations,
            work_population@.len() == n,
            1 <= n <= POP_MAX,
            orig.len() == n,
            wf_population(orig),
            wf_population(work_population@),
            forall|k: int|
                0 <= k < work_population@.len() ==> (
                #[trigger] work_population@[k]).genes@.len() == glen,
            last_fitness.den >= 1,
            i == 0 ==> work_population@ == orig,
            (i >= 1 && keep_alive_count(n as int) >= 1) ==> forall|k: int|
                0 <= k < orig.len() ==> fitness_le(
                    (#[trigger] orig[k]).fitness,
                    work_population@[0].fitness,
                ),
        decreases generations - i,
    {
        let ghost pre_breed = work_population@;
        work_population = breed(work_population, rng);
        proof {
            if keep_alive_count(n as int) >= 1 {
                let s = choose|s: Seq<Chromosome>|
                    {
                        &&& #[trigger] s.to_multiset() == pre_breed.to_multiset()
                        &&& sorted_desc_by_fitness(s)
                        &&& forall|k: int|
                            0 <= k < keep_alive_count(pre_breed.len() as int) ==> same_chromosome(
                                #[trigger] work_population@[k],
                                s[k],
                            )
                    };
                lemma_sorted_head_dominates(pre_breed, s);
                assert(same_chromosome(work_population@[0], s[0]));
                assert forall|k: int|
                    0 <= k < orig.len() implies fitness_le(
                    (#[trigger] orig[k]).fitness,
                    work_population@[0].fitness,
                ) by {
                    if i == 0 {
                        assert(fitness_le(orig[k].fitness, s[0].fitness));
                    } else {
                        assert(fitness_le(orig[k].fitness, pre_breed[0].fitness));
                        assert(fitness_le(pre_breed[0].fitness, s[0].fitness));
                        lemma_fitness_le_trans(
                            orig[k].fitness,
                            pre_breed[0].fitness,
                            work_population@[0].fitness,
                        );
                    }
                }
            }
        }
        if i % PURGE_INTERVAL == 0 {
            let found = most_fit(&work_population);
            let idx = match found {
                Some(idx) => idx,
                None => {
                    proof {
                        assert(wf_chromosome(work_population@[0]));
                        assert(work_population@[0].fitness.num >= 1);
                        assert(false);
                    }
                    0
                },
            };
            let best_fitness = work_population.get(idx).fitness;
            if !best_fitness.le(&last_fitness) {
                last_fitness = best_fitness;
            } else {
                purge_imminent = true;
            }
        }
        if purge_imminent {
            let ghost pre_purge = work_population@;
            purge(&mut work_population, rng);
            proof {
                if keep_alive_count(n as int) >= 1 {
                    lemma_keep_implies_purge_slack(n as int);
                    let s = choose|s: Seq<Chromosome>|
                        {
                            &&& #[trigger] s.to_multiset() == pre_purge.to_multiset()
                            &&& sorted_desc_by_fitness(s)
                            &&& forall|k: int|
                                0 <= k < s.len() - purge_count(s.len() as int)
                                    ==> work_population@[k] == s[k]
                            &&& forall|k: int|
                                s.len() - purge_count(s.len() as int) <= k < s.len()
                                    ==> rot_shapes_of(
                                    (#[trigger] work_population@[k]).genes@,
                                ).to_multiset() == rot_shapes_of(s[0].genes@).to_multiset()
                        };
                    lemma_sorted_head_dominates(pre_purge, s);
                    assert(work_population@[0] == s[0]);
                    assert forall|k: int|
                        0 <= k < orig.len() implies fitness_le(
                        (#[trigger] orig[k]).fitness,
                        work_population@[0].fitness,
                    ) by {
                        assert(fitness_le(orig[k].fitness, pre_purge[0].fitness));
                        assert(fitness_le(pre_purge[0].fitness, s[0].fitness));
                        lemma_fitness_le_trans(
                            orig[k].fitness,
                            pre_purge[0].fitness,
                            work_population@[0].fitness,
                        );
                    }
                }
            }
            purge_imminent = false;
        }
        i = i + 1;
    }
    work_population
}

/// Creates a population of the given size from the gene templates, breeds
/// it for the given number of generations, and returns the most fit
/// chromosome of the final population.
pub fn breeder<R: RandomSource>(
    genes: Vector<Gene>,
    pop_size: usize,
    generations: usize,
    rng: &mut R,
) -> (r: Chromosome)
    requires
        1 <= genes@.len() <= GENES_MAX,
        wf_genes(genes@),
        1 <= pop_size <= POP_MAX,
    ensures
        wf_chromosome(r),
        r.genes@.len() == genes@.len(),
{
    let ghost glen = genes@.len();
    let population = generate_initial_population(genes, pop_size, rng);
    let bred = breed_for(population, generations, rng);
    let found = most_fit(&bred);
    let idx = match found {
        Some(idx) => idx,
        None => {
            proof {
                assert(wf_chromosome(bred@[0]));
                assert(bred@[0].fitness.num >= 1);
                assert(false);
            }
            0
        },
    };
    bred.get(idx).duplicate()
}

} // verus!

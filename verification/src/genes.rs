//! Genes, chromosomes and the genetic operations on them: relaxation,
//! fitness, crossover and mutation.

use vstd::prelude::*;
use vstd::seq_lib::group_to_multiset_ensures;
use crate::shapes::{Direction, Point, Rect, rect_fits, spec_collides, spec_dist2};
use crate::random::{RandomSource, draw_below};
use crate::rooms::{Layout, Room};
use crate::collections::Vector;

verus! {

/// Largest number of genes a chromosome handles.
pub const GENES_MAX: usize = 1024;

/// Largest width or height of a gene's rectangle.
pub const SIZE_MAX: i64 = 65536;

/// Largest magnitude of a gene's coordinates. Small enough that every sum and
/// squared distance the algorithms compute fits in `i64`, large enough that
/// the bound is never reached by sane layouts.
pub const PLACE_MAX: i64 = 0x1000_0000;

/// Threshold on a uniform 32-bit draw below which, during mating, the two
/// parents' genes at a slot are switched between the children: one half of
/// the draw's range, a 50% chance.
pub const CROSSOVER_CHANCE: u32 = 0x8000_0000;

/// Threshold on a uniform 32-bit draw below which, during mutation, a gene
/// mutates: about 4% of the draw's range.
pub const MUTATION_CHANCE: u32 = 171798692;

/// Ceiling on the number of pushes the relaxation pass spends on one gene
/// before it falls back to a deterministic non-overlapping placement.
pub const PUSH_LIMIT: u64 = 1000000;

/// Largest total gene area of a chromosome: `GENES_MAX * SIZE_MAX * SIZE_MAX`.
pub const AREA_CAP: i64 = 0x400_0000_0000;

/// Possible mutation kinds.
#[derive(Copy, Clone, Debug)]
pub enum Mutation {
    RotationMutation,
    PositionMutation,
}

/// Genes are rooms represented only by their bounding rectangle. A chromosome
/// is made of these.
#[derive(PartialEq, Eq, Structural, Copy, Clone, Debug)]
pub struct Gene {
    pub rect: Rect,
    pub gene_id: i64,
}

/// A chromosome's quality: the exact packing density `num / den` of total
/// gene area over bounding-box area. The reference quality measure,
/// `1 / |log10(density)|`, is a strictly increasing function of the density
/// on `(0, 1]`, so ordering chromosomes by this rational orders them exactly
/// as the reference measure does, and the density `1` of a perfectly packed
/// layout needs no special cap.
#[derive(PartialEq, Eq, Structural, Copy, Clone, Debug)]
pub struct Fitness {
    pub num: i64,
    pub den: i64,
}

/// Chromosomes are candidate layouts. They own the genetic operations.
#[derive(Clone, Debug)]
pub struct Chromosome {
    pub genes: Vec<Gene>,
    pub total_area: i64,
    pub fitness: Fitness,
    pub bounding_box: Rect,
    pub bounding_box_fresh: bool,
}

/// A well-formed gene: positive sizes up to `SIZE_MAX`, coordinates within
/// `PLACE_MAX`.
pub open spec fn wf_gene(g: Gene) -> bool {
    &&& 1 <= g.rect.w <= SIZE_MAX
    &&& 1 <= g.rect.h <= SIZE_MAX
    &&& -PLACE_MAX <= g.rect.x <= PLACE_MAX
    &&& -PLACE_MAX <= g.rect.y <= PLACE_MAX
}

/// Every gene of the sequence is well-formed.
pub open spec fn wf_genes(s: Seq<Gene>) -> bool {
    forall|i: int| 0 <= i < s.len() ==> wf_gene(#[trigger] s[i])
}

/// Genes are sorted in ascending order of their ids.
pub open spec fn sorted_by_id(s: Seq<Gene>) -> bool {
    forall|i: int, j: int| 0 <= i < j < s.len() ==> #[trigger] s[i].gene_id <= #[trigger] s[j].gene_id
}

/// No two distinct genes of the sequence overlap.
pub open spec fn pairwise_separated(s: Seq<Gene>) -> bool {
    forall|i: int, j: int|
        0 <= i < s.len() && 0 <= j < s.len() && i != j ==> !spec_collides(
            #[trigger] s[i].rect,
            #[trigger] s[j].rect,
        )
}

/// Genes sorted in ascending order of their centers' distance from the
/// origin, leaving the anchor at index 0 alone.
pub open spec fn tail_sorted_by_dist(s: Seq<Gene>) -> bool {
    forall|i: int, j: int|
        1 <= i < j < s.len() ==> #[trigger] spec_dist2(s[i].rect) <= #[trigger] spec_dist2(
            s[j].rect,
        )
}

/// Sum of the areas of the genes' rectangles.
pub open spec fn total_area_of(s: Seq<Gene>) -> int
    decreases s.len(),
{
    if s.len() == 0 {
        0
    } else {
        total_area_of(s.drop_last()) + s.last().rect.w * s.last().rect.h
    }
}

/// `bb` is exactly the axis-aligned bounding box of the given rectangles:
/// it encloses each of them, and each of its four edges is touched by one.
pub open spec fn is_bbox(rs: Seq<Rect>, bb: Rect) -> bool {
    &&& forall|i: int|
        0 <= i < rs.len() ==> bb.x <= #[trigger] rs[i].x && rs[i].x + rs[i].w <= bb.x + bb.w
            && bb.y <= rs[i].y && rs[i].y + rs[i].h <= bb.y + bb.h
    &&& exists|i: int| 0 <= i < rs.len() && #[trigger] rs[i].x == bb.x
    &&& exists|i: int| 0 <= i < rs.len() && #[trigger] rs[i].y == bb.y
    &&& exists|i: int| 0 <= i < rs.len() && #[trigger] rs[i].x + rs[i].w == bb.x + bb.w
    &&& exists|i: int| 0 <= i < rs.len() && #[trigger] rs[i].y + rs[i].h == bb.y + bb.h
}

/// The rectangles of a gene sequence.
pub open spec fn rects_of(s: Seq<Gene>) -> Seq<Rect> {
    s.map_values(|g: Gene| g.rect)
}

/// The identity and dimensions of a gene, without its position.
pub open spec fn shape_of(g: Gene) -> (i64, i64, i64) {
    (g.gene_id, g.rect.w, g.rect.h)
}

/// The identities and dimensions of a gene sequence.
pub open spec fn shapes_of(s: Seq<Gene>) -> Seq<(i64, i64, i64)> {
    s.map_values(|g: Gene| shape_of(g))
}

/// The identity and dimensions of a gene up to rotation: the dimensions in
/// ascending order. Rotation, repositioning and relaxation all preserve it.
pub open spec fn rot_shape_of(g: Gene) -> (i64, i64, i64) {
    if g.rect.w <= g.rect.h {
        (g.gene_id, g.rect.w, g.rect.h)
    } else {
        (g.gene_id, g.rect.h, g.rect.w)
    }
}

/// The identities and rotation-free dimensions of a gene sequence.
pub open spec fn rot_shapes_of(s: Seq<Gene>) -> Seq<(i64, i64, i64)> {
    s.map_values(|g: Gene| rot_shape_of(g))
}

/// Sequences with equal multisets of items keep equal multisets under any
/// mapping of the items.
pub proof fn lemma_multiset_map<A, B>(s1: Seq<A>, s2: Seq<A>, f: spec_fn(A) -> B)
    requires
        s1.to_multiset() == s2.to_multiset(),
    ensures
        s1.map_values(f).to_multiset() == s2.map_values(f).to_multiset(),
    decreases s1.len(),
{
    broadcast use group_to_multiset_ensures;

    assert(s1.len() == s1.to_multiset().len());
    assert(s2.len() == s2.to_multiset().len());
    if s1.len() == 0 {
        assert(s1.map_values(f) =~= s2.map_values(f));
    } else {
        let last = s1.len() - 1;
        let x = s1.last();
        assert(s1.contains(x));
        assert(s1.to_multiset().count(x) > 0);
        assert(s2.to_multiset().count(x) > 0);
        assert(s2.contains(x));
        let j = choose|j: int| 0 <= j < s2.len() && s2[j] == x;
        let s1p = s1.remove(last);
        let s2p = s2.remove(j);
        assert(s1p.to_multiset() =~= s1.to_multiset().remove(x));
        assert(s2p.to_multiset() =~= s2.to_multiset().remove(x));
        lemma_multiset_map(s1p, s2p, f);
        assert(s1p.map_values(f) =~= s1.map_values(f).remove(last));
        assert(s2p.map_values(f) =~= s2.map_values(f).remove(j));
        assert(s1.map_values(f).remove(last).to_multiset() =~= s1.map_values(
            f,
        ).to_multiset().remove(f(x)));
        assert(s2.map_values(f).remove(j).to_multiset() =~= s2.map_values(f).to_multiset().remove(
            f(x),
        ));
        assert(s1.map_values(f).contains(f(x))) by {
            assert(s1.map_values(f)[last] == f(x));
        }
        assert(s2.map_values(f).contains(f(x))) by {
            assert(s2.map_values(f)[j] == f(x));
        }
        assert(s1.map_values(f).to_multiset() =~= s1.map_values(f).to_multiset().remove(
            f(x),
        ).insert(f(x)));
        assert(s2.map_values(f).to_multiset() =~= s2.map_values(f).to_multiset().remove(
            f(x),
        ).insert(f(x)));
    }
}

/// Gene sequences with equal multisets of full shapes have equal multisets
/// of rotation-free shapes.
pub proof fn lemma_shapes_to_rot_shapes(s1: Seq<Gene>, s2: Seq<Gene>)
    requires
        shapes_of(s1).to_multiset() == shapes_of(s2).to_multiset(),
    ensures
        rot_shapes_of(s1).to_multiset() == rot_shapes_of(s2).to_multiset(),
{
    let sort_dims = |t: (i64, i64, i64)|
        if t.1 <= t.2 {
            t
        } else {
            (t.0, t.2, t.1)
        };
    assert(rot_shapes_of(s1) =~= shapes_of(s1).map_values(sort_dims));
    assert(rot_shapes_of(s2) =~= shapes_of(s2).map_values(sort_dims));
    lemma_multiset_map(shapes_of(s1), shapes_of(s2), sort_dims);
}

/// When every slot of `c`, `d` holds, as an unordered pair, exactly the
/// items of `a`, `b` at that slot, the two pairs of sequences carry the same
/// combined multiset of items.
pub proof fn lemma_pair_union_multiset<T>(a: Seq<T>, b: Seq<T>, c: Seq<T>, d: Seq<T>)
    requires
        b.len() == a.len(),
        c.len() == a.len(),
        d.len() == a.len(),
        forall|i: int|
            0 <= i < a.len() ==> (#[trigger] c[i] == a[i] && d[i] == b[i]) || (c[i] == b[i]
                && d[i] == a[i]),
    ensures
        c.to_multiset().add(d.to_multiset()) == a.to_multiset().add(b.to_multiset()),
    decreases a.len(),
{
    broadcast use group_to_multiset_ensures;

    if a.len() == 0 {
        assert(c.to_multiset().add(d.to_multiset()) =~= a.to_multiset().add(b.to_multiset()));
    } else {
        let ap = a.drop_last();
        let bp = b.drop_last();
        let cp = c.drop_last();
        let dp = d.drop_last();
        lemma_pair_union_multiset(ap, bp, cp, dp);
        assert(a =~= ap.push(a.last()));
        assert(b =~= bp.push(b.last()));
        assert(c =~= cp.push(c.last()));
        assert(d =~= dp.push(d.last()));
        assert(a.to_multiset() =~= ap.to_multiset().insert(a.last()));
        assert(b.to_multiset() =~= bp.to_multiset().insert(b.last()));
        assert(c.to_multiset() =~= cp.to_multiset().insert(c.last()));
        assert(d.to_multiset() =~= dp.to_multiset().insert(d.last()));
        let last = a.len() - 1;
        assert((c[last] == a[last] && d[last] == b[last]) || (c[last] == b[last] && d[last]
            == a[last]));
        assert(c.to_multiset().add(d.to_multiset()) =~= cp.to_multiset().add(
            dp.to_multiset(),
        ).insert(c.last()).insert(d.last()));
        assert(a.to_multiset().add(b.to_multiset()) =~= ap.to_multiset().add(
            bp.to_multiset(),
        ).insert(a.last()).insert(b.last()));
        assert(cp.to_multiset().add(dp.to_multiset()).insert(c.last()).insert(d.last()) =~= ap
            .to_multiset().add(bp.to_multiset()).insert(a.last()).insert(b.last()));
    }
}

/// In a permutation of a gene sequence whose first gene has the smallest
/// id, no gene's id goes below that first id.
proof fn lemma_id_at_least_min(olds: Seq<Gene>, cur: Seq<Gene>, i: int)
    requires
        cur.to_multiset() == olds.to_multiset(),
        0 <= i < cur.len(),
        olds.len() >= 1,
        forall|k: int| 0 <= k < olds.len() ==> olds[0].gene_id <= (#[trigger] olds[k]).gene_id,
    ensures
        olds[0].gene_id <= cur[i].gene_id,
{
    broadcast use group_to_multiset_ensures;

    assert(cur.contains(cur[i]));
    assert(cur.to_multiset().count(cur[i]) > 0);
    assert(olds.contains(cur[i]));
    let idx = choose|idx: int| 0 <= idx < olds.len() && olds[idx] == cur[i];
    assert(olds[0].gene_id <= olds[idx].gene_id);
}

/// When the shape multisets agree and the first gene of the first sequence
/// has the smallest id there, no gene of the second sequence has a smaller
/// id.
proof fn lemma_min_id_from_shapes(olds: Seq<Gene>, cur: Seq<Gene>)
    requires
        shapes_of(cur).to_multiset() == shapes_of(olds).to_multiset(),
        olds.len() >= 1,
        forall|k: int| 0 <= k < olds.len() ==> olds[0].gene_id <= (#[trigger] olds[k]).gene_id,
    ensures
        forall|k: int| 0 <= k < cur.len() ==> olds[0].gene_id <= (#[trigger] cur[k]).gene_id,
{
    broadcast use group_to_multiset_ensures;

    assert forall|k: int|
        0 <= k < cur.len() implies olds[0].gene_id <= (#[trigger] cur[k]).gene_id by {
        let sc = shapes_of(cur);
        let so = shapes_of(olds);
        assert(sc[k] == shape_of(cur[k]));
        assert(sc.contains(sc[k]));
        assert(sc.to_multiset().count(sc[k]) > 0);
        assert(so.contains(sc[k]));
        let idx = choose|idx: int| 0 <= idx < so.len() && so[idx] == sc[k];
        assert(shape_of(olds[idx]) == shape_of(cur[k]));
        assert(olds[idx].gene_id == cur[k].gene_id);
        assert(olds[0].gene_id <= olds[idx].gene_id);
    }
}

/// A well-formed chromosome, the state every public operation establishes:
/// well-formed genes in id order, none overlapping, with a fresh bounding box
/// and a fitness derived from it and from the total area fixed at
/// construction.
pub open spec fn wf_chromosome(c: Chromosome) -> bool {
    &&& 1 <= c.genes@.len() <= GENES_MAX
    &&& wf_genes(c.genes@)
    &&& sorted_by_id(c.genes@)
    &&& pairwise_separated(c.genes@)
    &&& 1 <= c.total_area <= AREA_CAP
    &&& c.bounding_box_fresh
    &&& is_bbox(rects_of(c.genes@), c.bounding_box)
    &&& c.fitness.num == c.total_area
    &&& c.fitness.den == c.bounding_box.w * c.bounding_box.h
    &&& 1 <= c.fitness.den
}

/// `a <= b` on fitness rationals with positive denominators.
pub open spec fn fitness_le(a: Fitness, b: Fitness) -> bool {
    a.num * b.den <= b.num * a.den
}

impl Fitness {
    /// Compares two fitness rationals exactly, by cross-multiplication.
    pub fn le(&self, other: &Fitness) -> (r: bool)
        ensures
            r == fitness_le(*self, *other),
    {
        let a = self.num as i128;
        let b = other.den as i128;
        let c = other.num as i128;
        let d = self.den as i128;
        proof {
            assert((-0x8000_0000_0000_0000 <= a <= 0x8000_0000_0000_0000
                && -0x8000_0000_0000_0000 <= b <= 0x8000_0000_0000_0000)
                ==> -0x4000_0000_0000_0000_0000_0000_0000_0000
                <= a * b <= 0x4000_0000_0000_0000_0000_0000_0000_0000) by (nonlinear_arith);
            assert((-0x8000_0000_0000_0000 <= c <= 0x8000_0000_0000_0000
                && -0x8000_0000_0000_0000 <= d <= 0x8000_0000_0000_0000)
                ==> -0x4000_0000_0000_0000_0000_0000_0000_0000
                <= c * d <= 0x4000_0000_0000_0000_0000_0000_0000_0000) by (nonlinear_arith);
        }
        a * b <= c * d
    }
}

/// The sign of a coordinate: -1 for negative values, 1 otherwise.
pub fn sign(n: i64) -> (r: i64)
    ensures
        n < 0 ==> r == -1,
        n >= 0 ==> r == 1,
{
    if n < 0 {
        -1
    } else {
        1
    }
}

/// Sorts the genes in ascending id order by insertion, preserving the gene
/// multiset; a sequence without overlaps stays without overlaps, and a first
/// gene whose id is already the smallest stays first (the insertion is
/// stable).
pub fn sort_genes_by_id(genes: &mut Vec<Gene>)
    ensures
        final(genes)@.len() == old(genes)@.len(),
        final(genes)@.to_multiset() == old(genes)@.to_multiset(),
        shapes_of(final(genes)@).to_multiset() == shapes_of(old(genes)@).to_multiset(),
        sorted_by_id(final(genes)@),
        pairwise_separated(old(genes)@) ==> pairwise_separated(final(genes)@),
        wf_genes(old(genes)@) ==> wf_genes(final(genes)@),
        (old(genes)@.len() >= 1 && forall|k: int|
            0 <= k < old(genes)@.len() ==> old(genes)@[0].gene_id <= (
            #[trigger] old(genes)@[k]).gene_id) ==> final(genes)@[0] == old(genes)@[0],
{
    proof {
        broadcast use group_to_multiset_ensures;
    }
    let n = genes.len();
    if n <= 1 {
        return ;
    }
    let mut i: usize = 1;
    while i < n
        invariant
            1 <= i <= n,
            n == genes@.len(),
            n == old(genes)@.len(),
            genes@.to_multiset() == old(genes)@.to_multiset(),
            shapes_of(genes@).to_multiset() == shapes_of(old(genes)@).to_multiset(),
            sorted_by_id(genes@.take(i as int)),
            pairwise_separated(old(genes)@) ==> pairwise_separated(genes@),
            wf_genes(old(genes)@) ==> wf_genes(genes@),
            (forall|k: int|
                0 <= k < old(genes)@.len() ==> old(genes)@[0].gene_id <= (
                #[trigger] old(genes)@[k]).gene_id) ==> genes@[0] == old(genes)@[0],
        decreases n - i,
    {
        let ghost pre = genes@;
        let ghost min_first = forall|k: int|
            0 <= k < old(genes)@.len() ==> old(genes)@[0].gene_id <= (
            #[trigger] old(genes)@[k]).gene_id;
        proof {
            if min_first {
                lemma_id_at_least_min(old(genes)@, pre, i as int);
            }
        }
        let key = genes.remove(i);
        let mut j: usize = i;
        while j > 0 && genes[j - 1].gene_id > key.gene_id
            invariant
                j <= i < pre.len(),
                1 <= i,
                genes@ == pre.remove(i as int),
                key == pre[i as int],
                min_first == forall|k: int|
                    0 <= k < old(genes)@.len() ==> old(genes)@[0].gene_id <= (
                    #[trigger] old(genes)@[k]).gene_id,
                min_first ==> (pre[0] == old(genes)@[0] && old(genes)@[0].gene_id <= key.gene_id
                    && j >= 1),
                forall|k: int| j <= k < i ==> #[trigger] genes@[k].gene_id > key.gene_id,
            decreases j,
        {
            proof {
                if min_first && j == 1 {
                    assert(genes@[0] == pre[0]);
                    assert(false);
                }
            }
            j = j - 1;
        }
        genes.insert(j, key);
        proof {
            let cur = genes@;
            assert(cur == pre.remove(i as int).insert(j as int, key));
            lemma_remove_insert_multiset(pre, i as int, j as int);
            assert(shapes_of(cur) =~= shapes_of(pre).remove(i as int).insert(
                j as int,
                shape_of(key),
            ));
            lemma_remove_insert_multiset(shapes_of(pre), i as int, j as int);
            assert(sorted_by_id(cur.take(i as int + 1))) by {
                assert forall|a: int, b: int| 0 <= a < b < i + 1 implies cur[a].gene_id
                    <= cur[b].gene_id by {
                    if b < j {
                    } else if a < j && b == j {
                    } else if a < j && b > j {
                        assert(cur[b] == pre[b - 1]);
                    } else if a == j {
                        assert(cur[b] == pre[b - 1]);
                    } else {
                        assert(cur[a] == pre[a - 1]);
                        assert(cur[b] == pre[b - 1]);
                    }
                }
            }
            if pairwise_separated(old(genes)@) {
                lemma_remove_insert_separated(pre, i as int, j as int);
            }
            if wf_genes(old(genes)@) {
                assert forall|k: int| 0 <= k < cur.len() implies wf_gene(cur[k]) by {
                    if k < j {
                    } else if k == j {
                        assert(cur[k] == pre[i as int]);
                    } else if k <= i {
                        assert(cur[k] == pre[k - 1]);
                    }
                }
            }
        }
        i = i + 1;
    }
    proof {
        assert(genes@.take(n as int) == genes@);
    }
}

/// Sorts the genes after the anchor (index 0) in ascending order of their
/// centers' distance from the origin, preserving the gene multiset and the
/// anchor.
pub fn sort_genes_by_dist(genes: &mut Vec<Gene>)
    requires
        wf_genes(old(genes)@),
    ensures
        final(genes)@.len() == old(genes)@.len(),
        final(genes)@.to_multiset() == old(genes)@.to_multiset(),
        shapes_of(final(genes)@).to_multiset() == shapes_of(old(genes)@).to_multiset(),
        old(genes)@.len() > 0 ==> final(genes)@[0] == old(genes)@[0],
        tail_sorted_by_dist(final(genes)@),
        wf_genes(final(genes)@),
{
    proof {
        broadcast use group_to_multiset_ensures;
    }
    let n = genes.len();
    if n <= 2 {
        return ;
    }
    let mut i: usize = 2;
    while i < n
        invariant
            2 <= i <= n,
            n == genes@.len(),
            wf_genes(genes@),
            genes@.to_multiset() == old(genes)@.to_multiset(),
            shapes_of(genes@).to_multiset() == shapes_of(old(genes)@).to_multiset(),
            n > 0 ==> genes@[0] == old(genes)@[0],
            tail_sorted_by_dist(genes@.take(i as int)),
        decreases n - i,
    {
        let ghost pre = genes@;
        let key = genes.remove(i);
        let mut j: usize = i;
        while j > 1 && matches!(key.rect.origo_cmp(&genes[j - 1].rect), core::cmp::Ordering::Less)
            invariant
                1 <= j <= i < pre.len(),
                wf_gene(key),
                wf_genes(pre),
                genes@ == pre.remove(i as int),
                forall|k: int|
                    j <= k < i ==> #[trigger] spec_dist2(genes@[k].rect) > spec_dist2(key.rect),
            decreases j,
        {
            j = j - 1;
        }
        genes.insert(j, key);
        proof {
            let cur = genes@;
            assert(cur == pre.remove(i as int).insert(j as int, key));
            lemma_remove_insert_multiset(pre, i as int, j as int);
            assert(shapes_of(cur) =~= shapes_of(pre).remove(i as int).insert(
                j as int,
                shape_of(key),
            ));
            lemma_remove_insert_multiset(shapes_of(pre), i as int, j as int);
            assert(tail_sorted_by_dist(cur.take(i as int + 1))) by {
                assert forall|a: int, b: int| 1 <= a < b < i + 1 implies spec_dist2(cur[a].rect)
                    <= spec_dist2(cur[b].rect) by {
                    if b < j {
                    } else if a < j && b == j {
                    } else if a < j && b > j {
                        assert(cur[b] == pre[b - 1]);
                    } else if a == j {
                        assert(cur[b] == pre[b - 1]);
                    } else {
                        assert(cur[a] == pre[a - 1]);
                        assert(cur[b] == pre[b - 1]);
                    }
                }
            }
            assert forall|k: int| 0 <= k < cur.len() implies wf_gene(cur[k]) by {
                if k < j {
                } else if k == j {
                    assert(cur[k] == pre[i as int]);
                } else if k <= i {
                    assert(cur[k] == pre[k - 1]);
                }
            }
        }
        i = i + 1;
    }
    proof {
        assert(genes@.take(n as int) == genes@);
    }
}

/// Removing the item at `i` and re-inserting it at `j <= i` permutes the
/// sequence, so the multiset of items is unchanged.
proof fn lemma_remove_insert_multiset<T>(s: Seq<T>, i: int, j: int)
    requires
        0 <= i < s.len(),
        0 <= j <= i,
    ensures
        s.remove(i).insert(j, s[i]).to_multiset() == s.to_multiset(),
{
    broadcast use group_to_multiset_ensures;

    let removed = s.remove(i);
    assert(removed.insert(j, s[i]).to_multiset() =~= removed.to_multiset().insert(s[i]));
    assert(s.to_multiset().remove(s[i]).insert(s[i]) =~= s.to_multiset());
}

/// Moving one gene of an overlap-free sequence to another position keeps the
/// sequence overlap-free.
proof fn lemma_remove_insert_separated(s: Seq<Gene>, i: int, j: int)
    requires
        0 <= i < s.len(),
        0 <= j <= i,
        pairwise_separated(s),
    ensures
        pairwise_separated(s.remove(i).insert(j, s[i])),
{
    let cur = s.remove(i).insert(j, s[i]);
    assert forall|a: int, b: int|
        0 <= a < cur.len() && 0 <= b < cur.len() && a != b implies !spec_collides(
        cur[a].rect,
        cur[b].rect,
    ) by {
        let oa = orig_index(i, j, a);
        let ob = orig_index(i, j, b);
        assert(cur[a] == s[oa]);
        assert(cur[b] == s[ob]);
        assert(oa != ob);
    }
}

/// The index in `s` of the item that sits at index `k` of
/// `s.remove(i).insert(j, s[i])`, for `j <= i`.
spec fn orig_index(i: int, j: int, k: int) -> int {
    if k == j {
        i
    } else if k < j || k > i {
        k
    } else {
        k - 1
    }
}

impl Gene {
    /// Constructor for a gene.
    pub fn new(rect: Rect, gene_id: i64) -> (r: Gene)
        ensures
            r == (Gene { rect, gene_id }),
    {
        Gene { rect, gene_id }
    }

    /// Rotates the gene's rectangle in place (switches width and height).
    pub fn rot_in_place(&mut self)
        ensures
            final(self).rect == (Rect {
                x: old(self).rect.x,
                y: old(self).rect.y,
                w: old(self).rect.h,
                h: old(self).rect.w,
            }),
            final(self).gene_id == old(self).gene_id,
    {
        self.rect = self.rect.rotate();
    }

    /// Returns a new, rotated gene.
    pub fn rotate(&self) -> (r: Gene)
        ensures
            r.rect == (Rect {
                x: self.rect.x,
                y: self.rect.y,
                w: self.rect.h,
                h: self.rect.w,
            }),
            r.gene_id == self.gene_id,
    {
        Gene { rect: self.rect.rotate(), gene_id: self.gene_id }
    }

    /// A copy of this gene at a different position.
    pub fn set_pos(&self, new_x: i64, new_y: i64) -> (r: Gene)
        ensures
            r == (Gene {
                rect: Rect { x: new_x, y: new_y, w: self.rect.w, h: self.rect.h },
                gene_id: self.gene_id,
            }),
    {
        Gene {
            rect: Rect { x: new_x, y: new_y, w: self.rect.w, h: self.rect.h },
            gene_id: self.gene_id,
        }
    }

    /// Checks if this gene overlaps another gene.
    pub fn collides_with(&self, other: Gene) -> (r: bool)
        requires
            rect_fits(self.rect),
            rect_fits(other.rect),
        ensures
            r == spec_collides(self.rect, other.rect),
    {
        self.rect.collides_with(other.rect)
    }

    /// The area of this gene's rectangle.
    pub fn area(&self) -> (r: i64)
        requires
            -0x8000_0000 <= self.rect.w <= 0x8000_0000,
            -0x8000_0000 <= self.rect.h <= 0x8000_0000,
        ensures
            r == self.rect.w * self.rect.h,
    {
        self.rect.area()
    }

    /// The center of this gene's rectangle.
    pub fn center(&self) -> (r: Point)
        requires
            rect_fits(self.rect),
            self.rect.w >= 0,
            self.rect.h >= 0,
        ensures
            r.x == crate::shapes::spec_center_x(self.rect),
            r.y == crate::shapes::spec_center_y(self.rect),
    {
        self.rect.center()
    }

    /// The top left corner of this gene's rectangle.
    pub fn top_left(&self) -> (r: Point)
        ensures
            r == (Point { x: self.rect.x, y: self.rect.y }),
    {
        self.rect.top_left()
    }

    /// The bottom right corner of this gene's rectangle.
    pub fn bottom_right(&self) -> (r: Point)
        requires
            rect_fits(self.rect),
        ensures
            r.x == self.rect.x + self.rect.w,
            r.y == self.rect.y + self.rect.h,
    {
        self.rect.bottom_right()
    }

    pub fn get_x(&self) -> (r: i64)
        ensures
            r == self.rect.x,
    {
        self.rect.x
    }

    pub fn get_y(&self) -> (r: i64)
        ensures
            r == self.rect.y,
    {
        self.rect.y
    }

    pub fn get_w(&self) -> (r: i64)
        ensures
            r == self.rect.w,
    {
        self.rect.w
    }

    pub fn get_h(&self) -> (r: i64)
        ensures
            r == self.rect.h,
    {
        self.rect.h
    }

    /// Sets the x position of the gene.
    pub fn set_x(&mut self, x: i64)
        ensures
            final(self).rect == (Rect {
                x,
                y: old(self).rect.y,
                w: old(self).rect.w,
                h: old(self).rect.h,
            }),
            final(self).gene_id == old(self).gene_id,
    {
        self.rect.x = x;
    }

    /// Sets the y position of the gene.
    pub fn set_y(&mut self, y: i64)
        ensures
            final(self).rect == (Rect {
                x: old(self).rect.x,
                y,
                w: old(self).rect.w,
                h: old(self).rect.h,
            }),
            final(self).gene_id == old(self).gene_id,
    {
        self.rect.y = y;
    }

    /// Moves the gene so that its rectangle's center lands on the point.
    pub fn set_center(&mut self, x: i64, y: i64)
        requires
            rect_fits(old(self).rect),
            old(self).rect.w >= 0,
            old(self).rect.h >= 0,
            -crate::shapes::GEOM_LIMIT <= x <= crate::shapes::GEOM_LIMIT,
            -crate::shapes::GEOM_LIMIT <= y <= crate::shapes::GEOM_LIMIT,
        ensures
            final(self).rect.x == old(self).rect.x + (x - crate::shapes::spec_center_x(
                old(self).rect,
            )),
            final(self).rect.y == old(self).rect.y + (y - crate::shapes::spec_center_y(
                old(self).rect,
            )),
            final(self).rect.w == old(self).rect.w,
            final(self).rect.h == old(self).rect.h,
            final(self).gene_id == old(self).gene_id,
    {
        self.rect.set_center(x, y);
    }

    /// Converts the gene into a room, shrinking the rectangle by one unit on
    /// each dimension so adjacent rooms keep a visible border.
    pub fn as_room(&self) -> (r: Room)
        requires
            self.rect.w >= 1,
            self.rect.h >= 1,
        ensures
            r.rect == (Rect {
                x: self.rect.x,
                y: self.rect.y,
                w: (self.rect.w - 1) as i64,
                h: (self.rect.h - 1) as i64,
            }),
    {
        let new_rect = Rect {
            x: self.rect.x,
            y: self.rect.y,
            w: self.rect.w - 1,
            h: self.rect.h - 1,
        };
        Room::new(new_rect)
    }
}

/// The area of a well-formed gene lies between 1 and `SIZE_MAX * SIZE_MAX`.
proof fn lemma_gene_area_bounds(g: Gene)
    requires
        wf_gene(g),
    ensures
        1 <= g.rect.w * g.rect.h <= 4294967296,
{
    assert((1 <= g.rect.w <= 65536 && 1 <= g.rect.h <= 65536) ==> 1 <= g.rect.w * g.rect.h
        <= 4294967296) by (nonlinear_arith);
}

/// The unordered pair `{a, b}` equals the unordered pair `{c, d}`.
pub open spec fn same_pair(a: Gene, b: Gene, c: Gene, d: Gene) -> bool {
    (a == c && b == d) || (a == d && b == c)
}

/// Builds, gene by gene, the two gene lists of a pair of children: at each
/// slot the parents' genes either keep their sides or switch sides, with
/// probability `CROSSOVER_CHANCE`. Every slot of the children holds, as an
/// unordered pair, exactly the parents' genes of that slot: no genes are
/// invented or lost.
pub fn crossover<R: RandomSource>(first: &Vec<Gene>, second: &Vec<Gene>, rng: &mut R) -> (r: (
    Vec<Gene>,
    Vec<Gene>,
))
    requires
        first@.len() == second@.len(),
        first@.len() <= GENES_MAX,
    ensures
        r.0@.len() == first@.len(),
        r.1@.len() == first@.len(),
        forall|i: int|
            0 <= i < first@.len() ==> #[trigger] same_pair(r.0@[i], r.1@[i], first@[i], second@[i]),
{
    let n = first.len();
    let mut my_childs_genes: Vec<Gene> = Vec::new();
    let mut partners_childs_genes: Vec<Gene> = Vec::new();
    let mut i: usize = 0;
    while i < n
        invariant
            i <= n,
            n == first@.len(),
            n == second@.len(),
            my_childs_genes@.len() == i,
            partners_childs_genes@.len() == i,
            forall|k: int|
                0 <= k < i ==> #[trigger] same_pair(
                    my_childs_genes@[k],
                    partners_childs_genes@[k],
                    first@[k],
                    second@[k],
                ),
        decreases n - i,
    {
        let ghost pre_mine = my_childs_genes@;
        let ghost pre_partner = partners_childs_genes@;
        if rng.next_u32() < CROSSOVER_CHANCE {
            partners_childs_genes.push(first[i]);
            my_childs_genes.push(second[i]);
        } else {
            my_childs_genes.push(first[i]);
            partners_childs_genes.push(second[i]);
        }
        proof {
            assert forall|k: int| 0 <= k < i + 1 implies #[trigger] same_pair(
                my_childs_genes@[k],
                partners_childs_genes@[k],
                first@[k],
                second@[k],
            ) by {
                if k < i {
                    assert(my_childs_genes@[k] == pre_mine[k]);
                    assert(partners_childs_genes@[k] == pre_partner[k]);
                    assert(same_pair(pre_mine[k], pre_partner[k], first@[k], second@[k]));
                } else {
                    assert(my_childs_genes@[k] == my_childs_genes@.last());
                    assert(partners_childs_genes@[k] == partners_childs_genes@.last());
                }
            }
        }
        i = i + 1;
    }
    (my_childs_genes, partners_childs_genes)
}

impl Chromosome {
    /// An identical copy of the chromosome, field by field.
    pub fn duplicate(&self) -> (r: Chromosome)
        ensures
            r.genes@ == self.genes@,
            r.total_area == self.total_area,
            r.fitness == self.fitness,
            r.bounding_box == self.bounding_box,
            r.bounding_box_fresh == self.bounding_box_fresh,
    {
        Chromosome {
            genes: clone_genes(&self.genes),
            total_area: self.total_area,
            fitness: self.fitness,
            bounding_box: self.bounding_box,
            bounding_box_fresh: self.bounding_box_fresh,
        }
    }

    /// Calculates the smallest bounding box around this chromosome's genes
    /// and marks the cache fresh.
    pub fn calculate_bounding_box(&mut self)
        requires
            1 <= old(self).genes@.len(),
            wf_genes(old(self).genes@),
        ensures
            final(self).genes@ == old(self).genes@,
            final(self).total_area == old(self).total_area,
            final(self).fitness == old(self).fitness,
            final(self).bounding_box_fresh,
            is_bbox(rects_of(final(self).genes@), final(self).bounding_box),
            -PLACE_MAX <= final(self).bounding_box.x,
            -PLACE_MAX <= final(self).bounding_box.y,
            1 <= final(self).bounding_box.w <= 3 * PLACE_MAX,
            1 <= final(self).bounding_box.h <= 3 * PLACE_MAX,
    {
        let n = self.genes.len();
        let first = self.genes[0];
        let mut min_x: i64 = first.rect.x;
        let mut min_y: i64 = first.rect.y;
        let mut max_x: i64 = first.rect.x + first.rect.w;
        let mut max_y: i64 = first.rect.y + first.rect.h;
        let mut i: usize = 1;
        while i < n
            invariant
                1 <= i <= n,
                n == self.genes@.len(),
                wf_genes(self.genes@),
                forall|k: int|
                    0 <= k < i ==> min_x <= #[trigger] self.genes@[k].rect.x && self.genes@[k].rect.x
                        + self.genes@[k].rect.w <= max_x && min_y <= self.genes@[k].rect.y
                        && self.genes@[k].rect.y + self.genes@[k].rect.h <= max_y,
                exists|k: int| 0 <= k < i && #[trigger] self.genes@[k].rect.x == min_x,
                exists|k: int| 0 <= k < i && #[trigger] self.genes@[k].rect.y == min_y,
                exists|k: int|
                    0 <= k < i && #[trigger] self.genes@[k].rect.x + self.genes@[k].rect.w == max_x,
                exists|k: int|
                    0 <= k < i && #[trigger] self.genes@[k].rect.y + self.genes@[k].rect.h == max_y,
                -PLACE_MAX <= min_x <= PLACE_MAX,
                -PLACE_MAX <= min_y <= PLACE_MAX,
                min_x < max_x <= PLACE_MAX + SIZE_MAX,
                min_y < max_y <= PLACE_MAX + SIZE_MAX,
            decreases n - i,
        {
            let g = self.genes[i];
            if g.rect.x < min_x {
                min_x = g.rect.x;
            }
            if g.rect.y < min_y {
                min_y = g.rect.y;
            }
            if g.rect.x + g.rect.w > max_x {
                max_x = g.rect.x + g.rect.w;
            }
            if g.rect.y + g.rect.h > max_y {
                max_y = g.rect.y + g.rect.h;
            }
            i = i + 1;
        }
        self.bounding_box = Rect { x: min_x, y: min_y, w: max_x - min_x, h: max_y - min_y };
        self.bounding_box_fresh = true;
        proof {
            let bb = self.bounding_box;
            let sq = self.genes@;
            let rs = rects_of(sq);
            assert(forall|k: int| 0 <= k < rs.len() ==> #[trigger] rs[k] == sq[k].rect);
            assert forall|k: int|
                0 <= k < rs.len() implies bb.x <= #[trigger] rs[k].x && rs[k].x + rs[k].w <= bb.x
                + bb.w && bb.y <= rs[k].y && rs[k].y + rs[k].h <= bb.y + bb.h by {
                assert(rs[k] == sq[k].rect);
                assert(min_x <= sq[k].rect.x);
            }
            let k1 = choose|k: int| 0 <= k < sq.len() && #[trigger] sq[k].rect.x == min_x;
            assert(rs[k1].x == bb.x);
            let k2 = choose|k: int| 0 <= k < sq.len() && #[trigger] sq[k].rect.y == min_y;
            assert(rs[k2].y == bb.y);
            let k3 = choose|k: int|
                0 <= k < sq.len() && #[trigger] sq[k].rect.x + sq[k].rect.w == max_x;
            assert(rs[k3].x + rs[k3].w == bb.x + bb.w);
            let k4 = choose|k: int|
                0 <= k < sq.len() && #[trigger] sq[k].rect.y + sq[k].rect.h == max_y;
            assert(rs[k4].y + rs[k4].h == bb.y + bb.h);
        }
    }

    /// Calculates this chromosome's fitness: the exact packing density of
    /// the total gene area over the bounding-box area, as a rational.
    /// Refreshes the bounding box first if it is stale.
    pub fn calculate_fitness(&mut self)
        requires
            1 <= old(self).genes@.len(),
            wf_genes(old(self).genes@),
            old(self).bounding_box_fresh ==> is_bbox(
                rects_of(old(self).genes@),
                old(self).bounding_box,
            ) && -PLACE_MAX <= old(self).bounding_box.x && -PLACE_MAX <= old(self).bounding_box.y
                && 1 <= old(self).bounding_box.w <= 3 * PLACE_MAX && 1 <= old(
                self,
            ).bounding_box.h <= 3 * PLACE_MAX,
        ensures
            final(self).genes@ == old(self).genes@,
            final(self).total_area == old(self).total_area,
            final(self).bounding_box_fresh,
            is_bbox(rects_of(final(self).genes@), final(self).bounding_box),
            final(self).fitness.num == final(self).total_area,
            final(self).fitness.den == final(self).bounding_box.w * final(self).bounding_box.h,
            1 <= final(self).fitness.den,
    {
        if !self.bounding_box_fresh {
            self.calculate_bounding_box();
        }
        let bb = self.bounding_box;
        proof {
            assert(is_bbox(rects_of(self.genes@), bb));
            let rs = rects_of(self.genes@);
            let i = choose|i: int| 0 <= i < rs.len() && #[trigger] rs[i].x == bb.x;
            assert(rs[i] == self.genes@[i].rect);
            assert(bb.w >= rs[i].w >= 1);
            let j = choose|j: int| 0 <= j < rs.len() && #[trigger] rs[j].y == bb.y;
            assert(rs[j] == self.genes@[j].rect);
            assert(bb.h >= rs[j].h >= 1);
            assert((1 <= bb.w <= 0x4000_0000 && 1 <= bb.h <= 0x4000_0000) ==> 1 <= bb.w * bb.h
                <= 0x1000_0000_0000_0000) by (nonlinear_arith);
        }
        let area = bb.w * bb.h;
        self.fitness = Fitness { num: self.total_area, den: area };
    }
}

/// A fresh vector holding the same genes.
pub fn clone_genes(genes: &Vec<Gene>) -> (r: Vec<Gene>)
    ensures
        r@ == genes@,
{
    let n = genes.len();
    let mut out: Vec<Gene> = Vec::new();
    let mut i: usize = 0;
    while i < n
        invariant
            i <= n,
            n == genes@.len(),
            out@ == genes@.take(i as int),
        decreases n - i,
    {
        out.push(genes[i]);
        proof {
            assert(out@ =~= genes@.take(i as int + 1));
        }
        i = i + 1;
    }
    proof {
        assert(genes@.take(n as int) == genes@);
    }
    out
}

/// Moves gene `i` along the axes, away from the origin, until it overlaps
/// none of the genes before it, spending at most `PUSH_LIMIT` pushes. Only
/// gene `i` moves, and only its position. Returns whether it succeeded;
/// on failure (the push ceiling, or a push leaving the coordinate range)
/// the genes are left as they were.
fn resolve_gene(genes: &mut Vec<Gene>, i: usize) -> (ok: bool)
    requires
        1 <= i < old(genes)@.len() <= GENES_MAX,
        wf_genes(old(genes)@),
    ensures
        final(genes)@.len() == old(genes)@.len(),
        forall|k: int|
            0 <= k < old(genes)@.len() && k != i ==> final(genes)@[k] == #[trigger] old(
                genes,
            )@[k],
        shape_of(final(genes)@[i as int]) == shape_of(old(genes)@[i as int]),
        wf_genes(final(genes)@),
        ok ==> forall|j: int|
            0 <= j < i ==> !spec_collides(
                final(genes)@[i as int].rect,
                #[trigger] final(genes)@[j].rect,
            ),
{
    let mut g = genes[i];
    let center = g.rect.center();
    let x_dir = sign(center.x);
    let y_dir = sign(center.y);
    let mut fuel: u64 = PUSH_LIMIT;
    let mut j: usize = 0;
    while j < i && fuel > 0
        invariant
            j <= i < genes@.len() <= GENES_MAX,
            genes@ == old(genes)@,
            wf_genes(genes@),
            wf_gene(g),
            g.gene_id == old(genes)@[i as int].gene_id,
            g.rect.w == old(genes)@[i as int].rect.w,
            g.rect.h == old(genes)@[i as int].rect.h,
            forall|k: int| 0 <= k < j ==> !spec_collides(g.rect, #[trigger] genes@[k].rect),
        decreases fuel, i - j,
    {
        let other = genes[j];
        if g.rect.collides_with(other.rect) {
            let tlj = other.rect.top_left();
            let brj = other.rect.bottom_right();
            let tli = g.rect.top_left();
            let bri = g.rect.bottom_right();
            let diff_x: i64 = if x_dir < 0 {
                tlj.x - bri.x
            } else {
                brj.x - tli.x
            };
            let diff_y: i64 = if y_dir < 0 {
                tlj.y - bri.y
            } else {
                brj.y - tli.y
            };
            let abs_x: i64 = if diff_x < 0 {
                -diff_x
            } else {
                diff_x
            };
            let abs_y: i64 = if diff_y < 0 {
                -diff_y
            } else {
                diff_y
            };
            if abs_x < abs_y {
                let new_x = g.rect.x + diff_x;
                if new_x < -PLACE_MAX || new_x > PLACE_MAX {
                    return false;
                }
                g.set_x(new_x);
            } else {
                let new_y = g.rect.y + diff_y;
                if new_y < -PLACE_MAX || new_y > PLACE_MAX {
                    return false;
                }
                g.set_y(new_y);
            }
            j = 0;
            fuel = fuel - 1;
        } else {
            j = j + 1;
        }
    }
    if j < i {
        return false;
    }
    genes.set(i, g);
    true
}

/// Deterministic fallback placement: keeps the anchor at index 0 where it
/// stands and lays every other gene out in a single left-to-right row, in a
/// horizontal band clear of the anchor, which can hold all of them and
/// leaves no two overlapping. Only positions change.
fn layout_row(genes: &mut Vec<Gene>)
    requires
        1 <= old(genes)@.len() <= GENES_MAX,
        wf_genes(old(genes)@),
    ensures
        final(genes)@.len() == old(genes)@.len(),
        final(genes)@[0] == old(genes)@[0],
        forall|k: int|
            0 <= k < old(genes)@.len() ==> shape_of(#[trigger] final(genes)@[k]) == shape_of(
                old(genes)@[k],
            ),
        wf_genes(final(genes)@),
        pairwise_separated(final(genes)@),
{
    let n = genes.len();
    let anchor = genes[0];
    // A horizontal band that cannot intersect the anchor: at the top edge of
    // the coordinate range when the anchor leaves room there, else directly
    // under the anchor.
    let row_y: i64 = if anchor.rect.y >= -PLACE_MAX + SIZE_MAX {
        -PLACE_MAX
    } else {
        anchor.rect.y + anchor.rect.h
    };
    let mut cursor: i64 = -PLACE_MAX;
    let mut k: usize = 1;
    while k < n
        invariant
            1 <= k <= n,
            n == genes@.len() <= GENES_MAX,
            anchor == old(genes)@[0],
            wf_gene(anchor),
            row_y == if anchor.rect.y >= -PLACE_MAX + SIZE_MAX {
                -PLACE_MAX
            } else {
                anchor.rect.y + anchor.rect.h
            },
            genes@[0] == anchor,
            forall|m: int| k <= m < n ==> #[trigger] genes@[m] == old(genes)@[m],
            forall|m: int|
                0 <= m < k ==> shape_of(#[trigger] genes@[m]) == shape_of(old(genes)@[m]),
            wf_genes(genes@),
            -PLACE_MAX <= cursor <= -PLACE_MAX + (k as int) * 65536,
            forall|m: int|
                1 <= m < k ==> #[trigger] genes@[m].rect.x >= -PLACE_MAX && genes@[m].rect.x
                    + genes@[m].rect.w <= cursor && genes@[m].rect.y == row_y,
            forall|a: int, b: int|
                1 <= a < b < k ==> #[trigger] genes@[a].rect.x + genes@[a].rect.w
                    <= #[trigger] genes@[b].rect.x,
        decreases n - k,
    {
        let g = genes[k];
        let moved = g.set_pos(cursor, row_y);
        genes.set(k, moved);
        cursor = cursor + moved.rect.w;
        k = k + 1;
    }
    proof {
        assert forall|a: int, b: int|
            0 <= a < genes@.len() && 0 <= b < genes@.len() && a != b implies !spec_collides(
            genes@[a].rect,
            genes@[b].rect,
        ) by {
            if a >= 1 && b >= 1 {
                if a < b {
                    assert(genes@[a].rect.x + genes@[a].rect.w <= genes@[b].rect.x);
                } else {
                    assert(genes@[b].rect.x + genes@[b].rect.w <= genes@[a].rect.x);
                }
            } else {
                // One of the pair is the anchor: the row's band is disjoint
                // from the anchor's rows.
                let r = if a == 0 {
                    genes@[b].rect
                } else {
                    genes@[a].rect
                };
                if anchor.rect.y >= -PLACE_MAX + SIZE_MAX {
                    assert(r.y + r.h <= -PLACE_MAX + SIZE_MAX <= anchor.rect.y);
                } else {
                    assert(r.y >= anchor.rect.y + anchor.rect.h);
                }
            }
        }
    }
}

impl Chromosome {
    /// A constructor for the chromosome: fixes the total area as the sum of
    /// the gene areas and relaxes the new chromosome.
    pub fn new(genes: Vec<Gene>) -> (r: Chromosome)
        requires
            1 <= genes@.len() <= GENES_MAX,
            wf_genes(genes@),
        ensures
            wf_chromosome(r),
            r.genes@.len() == genes@.len(),
            r.total_area == total_area_of(genes@),
            shapes_of(r.genes@).to_multiset() == shapes_of(genes@).to_multiset(),
            sorted_by_id(genes@) ==> r.genes@[0] == genes@[0],
    {
        let n = genes.len();
        let mut total_area: i64 = 0;
        let mut i: usize = 0;
        while i < n
            invariant
                i <= n,
                n == genes@.len() <= GENES_MAX,
                wf_genes(genes@),
                total_area == total_area_of(genes@.take(i as int)),
                i <= total_area <= (i as int) * 4294967296,
            decreases n - i,
        {
            proof {
                lemma_gene_area_bounds(genes@[i as int]);
                assert(genes@.take(i as int + 1).drop_last() =~= genes@.take(i as int));
                assert(genes@.take(i as int + 1).last() == genes@[i as int]);
            }
            total_area = total_area + genes[i].area();
            i = i + 1;
        }
        proof {
            assert(genes@.take(n as int) == genes@);
        }
        let mut new_chromosome = Chromosome {
            genes,
            total_area,
            fitness: Fitness { num: 0, den: 1 },
            bounding_box: Rect { x: 0, y: 0, w: 0, h: 0 },
            bounding_box_fresh: false,
        };
        new_chromosome.relax();
        new_chromosome
    }

    /// Relaxes the chromosome: processing genes in order of increasing
    /// distance of their centers from the origin, pushes each gene away from
    /// the origin along the cheaper axis until it overlaps none of the genes
    /// handled before it, restarting the scan after each push. The anchor
    /// gene at index 0 is never moved. If a gene exceeds the push ceiling or
    /// the coordinate range, the genes after the anchor fall back to a
    /// deterministic non-overlapping row clear of the anchor. Afterwards the
    /// genes are re-sorted by id and the bounding box and fitness are
    /// recomputed: no two genes of the result overlap, and the genes are in
    /// ascending id order.
    pub fn relax(&mut self)
        requires
            1 <= old(self).genes@.len() <= GENES_MAX,
            wf_genes(old(self).genes@),
            1 <= old(self).total_area <= AREA_CAP,
        ensures
            wf_chromosome(*final(self)),
            final(self).genes@.len() == old(self).genes@.len(),
            final(self).total_area == old(self).total_area,
            shapes_of(final(self).genes@).to_multiset() == shapes_of(
                old(self).genes@,
            ).to_multiset(),
            exists|j: int|
                0 <= j < final(self).genes@.len() && final(self).genes@[j] == old(
                    self,
                ).genes@[0],
            sorted_by_id(old(self).genes@) ==> final(self).genes@[0] == old(self).genes@[0],
    {
        sort_genes_by_dist(&mut self.genes);
        let ghost after_dist = self.genes@;
        let n = self.genes.len();
        let mut needs_fallback = false;
        let mut i: usize = 1;
        while i < n && !needs_fallback
            invariant
                1 <= i <= n,
                n == self.genes@.len() <= GENES_MAX,
                wf_genes(self.genes@),
                self.total_area == old(self).total_area,
                1 <= self.total_area <= AREA_CAP,
                self.genes@[0] == old(self).genes@[0],
                shapes_of(self.genes@) =~= shapes_of(after_dist),
                !needs_fallback ==> forall|a: int, b: int|
                    0 <= a < i && 0 <= b < i && a != b ==> !spec_collides(
                        #[trigger] self.genes@[a].rect,
                        #[trigger] self.genes@[b].rect,
                    ),
            decreases n - i, if needs_fallback { 0int } else { 1int },
        {
            let ghost pre = self.genes@;
            let ok = resolve_gene(&mut self.genes, i);
            proof {
                assert forall|k: int| 0 <= k < n implies shape_of(#[trigger] self.genes@[k])
                    == shape_of(pre[k]) by {
                    if k != i {
                        assert(self.genes@[k] == pre[k]);
                    }
                }
                assert(shapes_of(self.genes@) =~= shapes_of(pre));
            }
            if ok {
                i = i + 1;
            } else {
                needs_fallback = true;
            }
        }
        if needs_fallback {
            let ghost pre = self.genes@;
            layout_row(&mut self.genes);
            proof {
                assert(shapes_of(self.genes@) =~= shapes_of(pre));
            }
        }
        proof {
            assert(pairwise_separated(self.genes@));
        }
        let ghost pre_sort = self.genes@;
        sort_genes_by_id(&mut self.genes);
        proof {
            broadcast use group_to_multiset_ensures;

            let olds = old(self).genes@;
            assert(pre_sort[0] == olds[0]);
            assert(pre_sort.contains(olds[0]));
            assert(pre_sort.to_multiset().count(olds[0]) > 0);
            assert(self.genes@.contains(olds[0]));
            if sorted_by_id(olds) {
                assert forall|k: int|
                    0 <= k < olds.len() implies olds[0].gene_id <= (
                #[trigger] olds[k]).gene_id by {
                    if k > 0 {
                        assert(olds[0].gene_id <= olds[k].gene_id);
                    }
                }
                assert(shapes_of(pre_sort).to_multiset() == shapes_of(olds).to_multiset());
                lemma_min_id_from_shapes(olds, pre_sort);
                assert(forall|k: int|
                    0 <= k < pre_sort.len() ==> pre_sort[0].gene_id <= (
                    #[trigger] pre_sort[k]).gene_id);
                assert(self.genes@[0] == olds[0]);
            }
        }
        self.bounding_box_fresh = false;
        self.calculate_fitness();
    }

    /// The mating function: two children are created by crossing over this
    /// chromosome's genes with the partner's. Each child is then constructed
    /// (and so relaxed) from its gene list. Both children hold as many genes
    /// as each parent.
    pub fn mate<R: RandomSource>(&self, partner: &Chromosome, rng: &mut R) -> (r: (
        Chromosome,
        Chromosome,
    ))
        requires
            wf_chromosome(*self),
            wf_chromosome(*partner),
            self.genes@.len() == partner.genes@.len(),
        ensures
            wf_chromosome(r.0),
            wf_chromosome(r.1),
            r.0.genes@.len() == self.genes@.len(),
            r.1.genes@.len() == self.genes@.len(),
            shapes_of(r.0.genes@).to_multiset().add(shapes_of(r.1.genes@).to_multiset())
                == shapes_of(self.genes@).to_multiset().add(
                shapes_of(partner.genes@).to_multiset(),
            ),
    {
        let (my_childs_genes, partners_childs_genes) = crossover(
            &self.genes,
            &partner.genes,
            rng,
        );
        proof {
            assert forall|k: int| 0 <= k < my_childs_genes@.len() implies wf_gene(
                #[trigger] my_childs_genes@[k],
            ) by {
                assert(same_pair(
                    my_childs_genes@[k],
                    partners_childs_genes@[k],
                    self.genes@[k],
                    partner.genes@[k],
                ));
            }
            assert forall|k: int| 0 <= k < partners_childs_genes@.len() implies wf_gene(
                #[trigger] partners_childs_genes@[k],
            ) by {
                assert(same_pair(
                    my_childs_genes@[k],
                    partners_childs_genes@[k],
                    self.genes@[k],
                    partner.genes@[k],
                ));
            }
        }
        proof {
            let sa = shapes_of(self.genes@);
            let sb = shapes_of(partner.genes@);
            let sc = shapes_of(my_childs_genes@);
            let sd = shapes_of(partners_childs_genes@);
            assert forall|i: int|
                0 <= i < sa.len() implies (#[trigger] sc[i] == sa[i] && sd[i] == sb[i]) || (sc[i]
                == sb[i] && sd[i] == sa[i]) by {
                assert(same_pair(
                    my_childs_genes@[i],
                    partners_childs_genes@[i],
                    self.genes@[i],
                    partner.genes@[i],
                ));
            }
            lemma_pair_union_multiset(sa, sb, sc, sd);
        }
        let my_child = Chromosome::new(my_childs_genes);
        let partners_child = Chromosome::new(partners_childs_genes);
        (my_child, partners_child)
    }

    /// Mutates the chromosome: every gene but the anchor mutates with
    /// probability `MUTATION_CHANCE`, rotating in place or moving to a
    /// uniformly drawn position within the current bounding box; then the
    /// chromosome is relaxed once.
    pub fn mutate<R: RandomSource>(&mut self, rng: &mut R)
        requires
            wf_chromosome(*old(self)),
        ensures
            wf_chromosome(*final(self)),
            final(self).genes@.len() == old(self).genes@.len(),
            final(self).total_area == old(self).total_area,
            rot_shapes_of(final(self).genes@).to_multiset() == rot_shapes_of(
                old(self).genes@,
            ).to_multiset(),
            final(self).genes@[0] == old(self).genes@[0],
    {
        if !self.bounding_box_fresh {
            self.calculate_bounding_box();
        }
        let bb = self.bounding_box;
        proof {
            let rs = rects_of(self.genes@);
            let k1 = choose|k: int| 0 <= k < rs.len() && #[trigger] rs[k].x == bb.x;
            assert(rs[k1] == self.genes@[k1].rect);
            let k2 = choose|k: int| 0 <= k < rs.len() && #[trigger] rs[k].y == bb.y;
            assert(rs[k2] == self.genes@[k2].rect);
            let k3 = choose|k: int|
                0 <= k < rs.len() && #[trigger] rs[k].x + rs[k].w == bb.x + bb.w;
            assert(rs[k3] == self.genes@[k3].rect);
            let k4 = choose|k: int|
                0 <= k < rs.len() && #[trigger] rs[k].y + rs[k].h == bb.y + bb.h;
            assert(rs[k4] == self.genes@[k4].rect);
        }
        let n = self.genes.len();
        let mut i: usize = 1;
        while i < n
            invariant
                1 <= i <= n,
                n == self.genes@.len() <= GENES_MAX,
                wf_genes(self.genes@),
                self.total_area == old(self).total_area,
                1 <= self.total_area <= AREA_CAP,
                -PLACE_MAX <= bb.x <= PLACE_MAX,
                -PLACE_MAX <= bb.y <= PLACE_MAX,
                1 <= bb.w <= 3 * PLACE_MAX,
                1 <= bb.h <= 3 * PLACE_MAX,
                self.genes@[0] == old(self).genes@[0],
                forall|k: int|
                    0 <= k < n ==> (#[trigger] self.genes@[k]).gene_id == old(
                        self,
                    ).genes@[k].gene_id,
                rot_shapes_of(self.genes@) =~= rot_shapes_of(old(self).genes@),
            decreases n - i,
        {
            if rng.next_u32() < MUTATION_CHANCE {
                let ghost pre = self.genes@;
                let mut g = self.genes[i];
                g.mutate(bb, rng);
                self.genes.set(i, g);
                proof {
                    assert forall|k: int| 0 <= k < n implies rot_shape_of(
                        #[trigger] self.genes@[k],
                    ) == rot_shape_of(pre[k]) by {
                        if k != i {
                            assert(self.genes@[k] == pre[k]);
                        }
                    }
                    assert(rot_shapes_of(self.genes@) =~= rot_shapes_of(pre));
                }
            }
            i = i + 1;
        }
        let ghost pre_relax = self.genes@;
        proof {
            assert(sorted_by_id(pre_relax)) by {
                assert forall|a: int, b: int|
                    0 <= a < b < pre_relax.len() implies #[trigger] pre_relax[a].gene_id
                    <= #[trigger] pre_relax[b].gene_id by {
                    assert(pre_relax[a].gene_id == old(self).genes@[a].gene_id);
                    assert(pre_relax[b].gene_id == old(self).genes@[b].gene_id);
                }
            }
        }
        self.relax();
        proof {
            lemma_shapes_to_rot_shapes(pre_relax, self.genes@);
            assert(rot_shapes_of(pre_relax).to_multiset() == rot_shapes_of(
                old(self).genes@,
            ).to_multiset());
        }
    }

    /// Converts the chromosome into a layout: every gene becomes a room,
    /// shrunk by one unit per dimension.
    pub fn as_layout(&self) -> (r: Layout)
        requires
            wf_chromosome(*self),
        ensures
            r.rooms@.len() == self.genes@.len(),
            forall|k: int|
                0 <= k < self.genes@.len() ==> #[trigger] r.rooms@[k].rect == (Rect {
                    x: self.genes@[k].rect.x,
                    y: self.genes@[k].rect.y,
                    w: (self.genes@[k].rect.w - 1) as i64,
                    h: (self.genes@[k].rect.h - 1) as i64,
                }),
            forall|k: int|
                0 <= k < r.rooms@.len() ==> crate::rooms::renderable_room(#[trigger] r.rooms@[k]),
    {
        let n = self.genes.len();
        let mut rooms: Vector<Room> = Vector::new();
        let mut i: usize = 0;
        while i < n
            invariant
                i <= n,
                n == self.genes@.len() <= GENES_MAX,
                wf_genes(self.genes@),
                rooms@.len() == i,
                forall|k: int|
                    0 <= k < i ==> #[trigger] rooms@[k].rect == (Rect {
                        x: self.genes@[k].rect.x,
                        y: self.genes@[k].rect.y,
                        w: (self.genes@[k].rect.w - 1) as i64,
                        h: (self.genes@[k].rect.h - 1) as i64,
                    }),
            decreases n - i,
        {
            rooms.push(self.genes[i].as_room());
            i = i + 1;
        }
        Layout::new(rooms)
    }
}

impl Gene {
    /// Mutates the gene: a uniform draw picks a mutation kind; rotation
    /// switches width and height in place, repositioning moves the top-left
    /// corner to a uniformly drawn spot within the allowed area (clamped to
    /// the coordinate range).
    fn mutate<R: RandomSource>(&mut self, allowed_area: Rect, rng: &mut R)
        requires
            wf_gene(*old(self)),
            -PLACE_MAX <= allowed_area.x <= PLACE_MAX,
            -PLACE_MAX <= allowed_area.y <= PLACE_MAX,
            1 <= allowed_area.w <= 3 * PLACE_MAX,
            1 <= allowed_area.h <= 3 * PLACE_MAX,
        ensures
            wf_gene(*final(self)),
            final(self).gene_id == old(self).gene_id,
            (final(self).rect == (Rect {
                x: old(self).rect.x,
                y: old(self).rect.y,
                w: old(self).rect.h,
                h: old(self).rect.w,
            })) || (final(self).rect.w == old(self).rect.w && final(self).rect.h == old(
                self,
            ).rect.h && allowed_area.x <= final(self).rect.x < allowed_area.x + allowed_area.w
                && final(self).rect.x <= PLACE_MAX && allowed_area.y <= final(self).rect.y
                < allowed_area.y + allowed_area.h && final(self).rect.y <= PLACE_MAX),
    {
        let choice = rng.next_u32();
        let mutation = if choice % 2 == 0 {
            Mutation::RotationMutation
        } else {
            Mutation::PositionMutation
        };
        match mutation {
            Mutation::RotationMutation => {
                self.rot_in_place();
            },
            Mutation::PositionMutation => {
                let nx = allowed_area.x + (draw_below(rng, allowed_area.w as u64) as i64);
                let ny = allowed_area.y + (draw_below(rng, allowed_area.h as u64) as i64);
                let cx = if nx > PLACE_MAX {
                    PLACE_MAX
                } else {
                    nx
                };
                let cy = if ny > PLACE_MAX {
                    PLACE_MAX
                } else {
                    ny
                };
                self.set_x(cx);
                self.set_y(cy);
            },
        }
    }
}

impl Chromosome {
    /// Generates a randomized initial chromosome from the given genes: the
    /// first gene is anchored at the origin, the rest are shuffled and grown
    /// outward from a FIFO queue of placement slots, each placed adjacent to
    /// its slot with a small jitter across the growth axis; then the genes
    /// are sorted by id and the chromosome is constructed (and so relaxed).
    pub fn generate_initial<R: RandomSource>(genes: Vec<Gene>, rng: &mut R) -> (r: Chromosome)
        requires
            1 <= genes@.len() <= GENES_MAX,
            wf_genes(genes@),
        ensures
            wf_chromosome(r),
            r.genes@.len() == genes@.len(),
            rot_shapes_of(r.genes@).to_multiset() == rot_shapes_of(genes@).to_multiset(),
    {
        let mut shuffled = genes;
        let n = shuffled.len();
        let mut anchor = shuffled[0];
        anchor.set_center(0, 0);
        shuffled.set(0, anchor);
        let ghost anchored = shuffled@;
        proof {
            assert forall|k: int| 0 <= k < n implies rot_shape_of(#[trigger] anchored[k])
                == rot_shape_of(genes@[k]) by {
                if k != 0 {
                    assert(anchored[k] == genes@[k]);
                }
            }
            assert(rot_shapes_of(anchored) =~= rot_shapes_of(genes@));
        }
        let mut k: usize = 1;
        while k < n - 1
            invariant
                1 <= k <= n,
                n == shuffled@.len(),
                wf_genes(shuffled@),
                shuffled@[0] == anchor,
                shuffled@.to_multiset() == anchored.to_multiset(),
            decreases n - k,
        {
            let ghost pre = shuffled@;
            let span = (n - k) as u64;
            let pick = k + (draw_below(rng, span) as usize);
            let a = shuffled[k];
            let b = shuffled[pick];
            shuffled.set(k, b);
            shuffled.set(pick, a);
            proof {
                broadcast use group_to_multiset_ensures;

                let mid = pre.update(k as int, b);
                assert(shuffled@ == mid.update(pick as int, a));
                assert(mid.to_multiset() =~= pre.to_multiset().remove(pre[k as int]).insert(b));
                assert(shuffled@.to_multiset() =~= mid.to_multiset().remove(
                    mid[pick as int],
                ).insert(a));
                if pick == k {
                    assert(shuffled@.to_multiset() =~= pre.to_multiset());
                } else {
                    assert(mid[pick as int] == b);
                    assert(shuffled@.to_multiset() =~= pre.to_multiset());
                }
            }
            k = k + 1;
        }
        let ghost post_shuffle = shuffled@;
        proof {
            assert(shuffled@[0] == anchor);
            assert(-32768 <= anchor.rect.x <= 0);
            assert(-32768 <= anchor.rect.y <= 0);
            lemma_multiset_map(post_shuffle, anchored, |g: Gene| rot_shape_of(g));
            assert(rot_shapes_of(post_shuffle) =~= post_shuffle.map_values(
                |g: Gene| rot_shape_of(g),
            ));
            assert(rot_shapes_of(anchored) =~= anchored.map_values(|g: Gene| rot_shape_of(g)));
        }
        let mut places: Vec<(i64, i64, Direction)> = Vec::new();
        let tl0 = shuffled[0].top_left();
        let br0 = shuffled[0].bottom_right();
        places.push((tl0.x, tl0.y, Direction::Left));
        places.push((tl0.x, tl0.y, Direction::Up));
        places.push((br0.x, tl0.y, Direction::Right));
        places.push((tl0.x, br0.y, Direction::Down));
        let mut i: usize = 1;
        while i < n
            invariant
                1 <= i <= n,
                n == shuffled@.len() <= GENES_MAX,
                wf_genes(shuffled@),
                places@.len() == 2 + 2 * i,
                rot_shapes_of(shuffled@) =~= rot_shapes_of(post_shuffle),
                forall|p: int|
                    0 <= p < places@.len() ==> -196608 * (i as int + 1) <= (
                    #[trigger] places@[p]).0 <= 196608 * (i as int + 1) && -196608 * (i as int
                        + 1) <= places@[p].1 <= 196608 * (i as int + 1),
            decreases n - i,
        {
            let ghost pre_place = shuffled@;
            let place = places.remove(0);
            let mut x = place.0;
            let mut y = place.1;
            if rng.next_u32() < 0x8000_0000u32 {
                let rot = shuffled[i].rotate();
                shuffled.set(i, rot);
            }
            let g = shuffled[i];
            let x_var = g.rect.w / 2;
            let y_var = g.rect.h / 2;
            let x_jitter: i64 = if x_var > 0 {
                (draw_below(rng, (2 * x_var) as u64) as i64) - x_var
            } else {
                0
            };
            let y_jitter: i64 = if y_var > 0 {
                (draw_below(rng, (2 * y_var) as u64) as i64) - y_var
            } else {
                0
            };
            match place.2 {
                Direction::Left => {
                    x = x - g.rect.w;
                    y = y + y_jitter;
                    places.push((x, y, Direction::Left));
                    places.push((x, y, Direction::Up));
                    places.push((x, y + g.rect.h, Direction::Down));
                },
                Direction::Up => {
                    x = x + x_jitter;
                    y = y - g.rect.h;
                    places.push((x, y, Direction::Up));
                    places.push((x, y, Direction::Left));
                    places.push((x + g.rect.w, y, Direction::Right));
                },
                Direction::Right => {
                    y = y + y_jitter;
                    places.push((x + g.rect.w, y, Direction::Right));
                    places.push((x, y + g.rect.h, Direction::Down));
                    places.push((x, y, Direction::Up));
                },
                Direction::Down => {
                    x = x + x_jitter;
                    places.push((x, y + g.rect.h, Direction::Down));
                    places.push((x + g.rect.w, y, Direction::Right));
                    places.push((x, y, Direction::Left));
                },
            }
            let moved = g.set_pos(x, y);
            shuffled.set(i, moved);
            proof {
                assert forall|k: int| 0 <= k < n implies rot_shape_of(#[trigger] shuffled@[k])
                    == rot_shape_of(pre_place[k]) by {
                    if k != i {
                        assert(shuffled@[k] == pre_place[k]);
                    }
                }
                assert(rot_shapes_of(shuffled@) =~= rot_shapes_of(pre_place));
            }
            i = i + 1;
        }
        let ghost placed = shuffled@;
        sort_genes_by_id(&mut shuffled);
        proof {
            lemma_multiset_map(placed, shuffled@, |g: Gene| rot_shape_of(g));
            assert(rot_shapes_of(placed) =~= placed.map_values(|g: Gene| rot_shape_of(g)));
            assert(rot_shapes_of(shuffled@) =~= shuffled@.map_values(|g: Gene| rot_shape_of(g)));
        }
        let ghost sorted = shuffled@;
        let result = Chromosome::new(shuffled);
        proof {
            lemma_shapes_to_rot_shapes(sorted, result.genes@);
        }
        result
    }
}

} // verus!

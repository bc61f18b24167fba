use dwarfilib::genes::{Chromosome, Fitness, Gene, crossover};
use dwarfilib::random::{RandomSource, SeededRandom};
use dwarfilib::shapes::Rect;

/// A scripted random source that hands back a fixed list of draws, in order.
struct ScriptRng {
    vals: Vec<u32>,
    pos: usize,
}

impl RandomSource for ScriptRng {
    fn next_u32(&mut self) -> u32 {
        let v = self.vals[self.pos];
        self.pos += 1;
        v
    }
}

#[test]
fn gene_rotates_correctly() {
    let rect1 = Rect { x: 2, y: 3, w: 5, h: 7 };
    let gene1 = Gene { rect: rect1, gene_id: 0 };
    let gene2 = gene1.rotate();
    assert_eq!(7, gene2.get_w());
    assert_eq!(5, gene2.get_h());
    let rect2 = Rect { x: -2, y: -3, w: 1, h: 9 };
    let mut gene3 = Gene { rect: rect2, gene_id: 0 };
    gene3.rot_in_place();
    assert_eq!(9, gene3.get_w());
    assert_eq!(1, gene3.get_h());
}

#[test]
fn position_changing_ok() {
    let rect1 = Rect { x: 2, y: 3, w: 5, h: 7 };
    let mut gene1 = Gene { rect: rect1, gene_id: 0 };
    gene1.set_x(9);
    gene1.set_y(10);
    assert_eq!(9, gene1.get_x());
    assert_eq!(10, gene1.get_y());
}

#[test]
fn mating_works_correctly() {
    let rect1 = Rect { x: 2, y: 3, w: 5, h: 7 };
    let gene1 = Gene { rect: rect1, gene_id: 0 };
    let rect2 = Rect { x: -2, y: -2, w: 3, h: 3 };
    let gene2 = Gene { rect: rect2, gene_id: 1 };
    let mut gene3 = gene1;
    gene3.set_x(4);
    let mut gene4 = gene2;
    gene4.set_y(5);
    let genes1 = vec![gene1, gene2];
    let genes2 = vec![gene3, gene4];
    let chrom1 = Chromosome::new(genes1);
    let chrom2 = Chromosome::new(genes2);
    // First draw keeps the slot, second draw switches it.
    let mut rng = ScriptRng { vals: vec![u32::MAX, 0], pos: 0 };
    let (child1, child2) = chrom1.mate(&chrom2, &mut rng);
    assert_eq!(gene1, child1.genes[0]);
    assert_eq!(gene4, child1.genes[1]);
    assert_eq!(gene3, child2.genes[0]);
    assert_eq!(gene2, child2.genes[1]);
}

#[test]
fn no_intersections_after_relaxing() {
    let mut gene_vec = Vec::new();
    gene_vec.push(Gene::new(Rect { x: -2, y: -2, w: 5, h: 5 }, 0));
    for i in 1..100i64 {
        let x = (i * 13) % 7 - 4;
        let y = (i * 17) % 7 - 4;
        let w = (i * 5) % 11 + 3;
        let h = (i * 7) % 11 + 3;
        gene_vec.push(Gene::new(Rect { x, y, w, h }, i));
    }
    let mut genes = Chromosome::new(gene_vec);
    genes.relax();
    for i in 0..genes.genes.len() {
        for j in i + 1..genes.genes.len() {
            assert!(
                !genes.genes[i].collides_with(genes.genes[j]),
                "{:?} collides with {:?}!",
                genes.genes[i],
                genes.genes[j]
            );
        }
    }
}

#[test]
fn relax_keeps_gene_order() {
    let rect1 = Rect { x: 2, y: 3, w: 5, h: 7 };
    let gene1 = Gene { rect: rect1, gene_id: 0 };
    let rect2 = Rect { x: 1, y: 0, w: 3, h: 3 };
    let gene2 = Gene { rect: rect2, gene_id: 1 };
    let rect3 = Rect { x: -2, y: 5, w: 5, h: 10 };
    let gene3 = Gene { rect: rect3, gene_id: 2 };
    let rect4 = Rect { x: 0, y: -7, w: 12, h: 8 };
    let gene4 = Gene { rect: rect4, gene_id: 3 };
    let mut genes = Chromosome::new(vec![gene1, gene2, gene3, gene4]);
    genes.relax();
    for i in 0..genes.genes.len() {
        assert_eq!(i as i64, genes.genes[i].gene_id);
    }
}

#[test]
fn bounding_box_calculation_ok() {
    let rect1 = Rect { x: 2, y: 3, w: 5, h: 7 };
    let gene1 = Gene { rect: rect1, gene_id: 0 };
    let rect2 = Rect { x: 1, y: 0, w: 3, h: 3 };
    let gene2 = Gene { rect: rect2, gene_id: 1 };
    let rect3 = Rect { x: -2, y: 5, w: 5, h: 10 };
    let gene3 = Gene { rect: rect3, gene_id: 2 };
    let rect4 = Rect { x: 0, y: -7, w: 12, h: 8 };
    let gene4 = Gene { rect: rect4, gene_id: 3 };
    let mut genes = Chromosome {
        genes: vec![gene1, gene2, gene3, gene4],
        total_area: gene1.area() + gene2.area() + gene3.area() + gene4.area(),
        fitness: Fitness { num: 0, den: 1 },
        bounding_box: Rect::new(0, 0, 0, 0),
        bounding_box_fresh: false,
    };
    genes.calculate_bounding_box();
    assert_eq!(Rect { x: -2, y: -7, w: 14, h: 22 }, genes.bounding_box);
}

#[test]
fn end_to_end_relaxation() {
    let gene1 = Gene::new(Rect { x: 2, y: 3, w: 5, h: 7 }, 0);
    let gene2 = Gene::new(Rect { x: 1, y: 0, w: 3, h: 3 }, 1);
    let gene3 = Gene::new(Rect { x: -2, y: 5, w: 5, h: 10 }, 2);
    let gene4 = Gene::new(Rect { x: 0, y: -7, w: 12, h: 8 }, 3);
    let mut chromosome = Chromosome::new(vec![gene1, gene2, gene3, gene4]);
    chromosome.relax();
    for i in 0..chromosome.genes.len() {
        for j in i + 1..chromosome.genes.len() {
            assert!(!chromosome.genes[i].collides_with(chromosome.genes[j]));
        }
    }
    // The cached bounding box must exactly enclose the four final rectangles.
    let mut min_x = i64::MAX;
    let mut min_y = i64::MAX;
    let mut max_x = i64::MIN;
    let mut max_y = i64::MIN;
    for g in &chromosome.genes {
        min_x = min_x.min(g.get_x());
        min_y = min_y.min(g.get_y());
        max_x = max_x.max(g.get_x() + g.get_w());
        max_y = max_y.max(g.get_y() + g.get_h());
    }
    assert!(chromosome.bounding_box_fresh);
    assert_eq!(
        Rect { x: min_x, y: min_y, w: max_x - min_x, h: max_y - min_y },
        chromosome.bounding_box
    );
    // The anchor gene is never moved by relaxation.
    assert_eq!(gene1, chromosome.genes[0]);
}

#[test]
fn crossover_conserves_genes() {
    let a: Vec<Gene> = (0..8)
        .map(|i| Gene::new(Rect { x: i, y: 0, w: 2, h: 2 }, i))
        .collect();
    let b: Vec<Gene> = (0..8)
        .map(|i| Gene::new(Rect { x: i, y: 10, w: 3, h: 3 }, i))
        .collect();
    let mut rng = SeededRandom::new(99);
    let (c1, c2) = crossover(&a, &b, &mut rng);
    assert_eq!(8, c1.len());
    assert_eq!(8, c2.len());
    for i in 0..8 {
        let straight = c1[i] == a[i] && c2[i] == b[i];
        let switched = c1[i] == b[i] && c2[i] == a[i];
        assert!(straight || switched);
    }
}

#[test]
fn mutate_preserves_invariants() {
    let mut gene_vec = Vec::new();
    for i in 0..20i64 {
        let w = (i * 3) % 6 + 2;
        let h = (i * 5) % 6 + 2;
        gene_vec.push(Gene::new(Rect { x: i % 5, y: -(i % 7), w, h }, i));
    }
    let mut chromosome = Chromosome::new(gene_vec);
    let total_area = chromosome.total_area;
    let mut rng = SeededRandom::new(7);
    for _ in 0..20 {
        chromosome.mutate(&mut rng);
    }
    assert_eq!(20, chromosome.genes.len());
    assert_eq!(total_area, chromosome.total_area);
    for i in 0..chromosome.genes.len() {
        assert_eq!(i as i64, chromosome.genes[i].gene_id);
        for j in i + 1..chromosome.genes.len() {
            assert!(!chromosome.genes[i].collides_with(chromosome.genes[j]));
        }
    }
}

#[test]
fn as_layout_shrinks_genes() {
    let gene1 = Gene::new(Rect { x: 0, y: 0, w: 4, h: 5 }, 0);
    let gene2 = Gene::new(Rect { x: 10, y: 10, w: 3, h: 3 }, 1);
    let chromosome = Chromosome::new(vec![gene1, gene2]);
    let layout = chromosome.as_layout();
    assert_eq!(2, layout.rooms.len());
    for i in 0..2 {
        let room = *layout.rooms.get(i);
        let gene = chromosome.genes[i];
        assert_eq!(gene.get_x(), room.rect.x);
        assert_eq!(gene.get_y(), room.rect.y);
        assert_eq!(gene.get_w() - 1, room.rect.w);
        assert_eq!(gene.get_h() - 1, room.rect.h);
    }
}

#[test]
fn fitness_compares_exactly() {
    let half = Fitness { num: 1, den: 2 };
    let two_thirds = Fitness { num: 2, den: 3 };
    assert!(half.le(&two_thirds));
    assert!(!two_thirds.le(&half));
    assert!(half.le(&half));
}

#[test]
fn fitness_reflects_packing_density() {
    // Two touching squares tile their bounding box exactly: density 8/8.
    let gene1 = Gene::new(Rect { x: 0, y: 0, w: 2, h: 2 }, 0);
    let gene2 = Gene::new(Rect { x: 2, y: 0, w: 2, h: 2 }, 1);
    let chromosome = Chromosome::new(vec![gene1, gene2]);
    assert_eq!(8, chromosome.total_area);
    assert_eq!(Rect { x: 0, y: 0, w: 4, h: 2 }, chromosome.bounding_box);
    assert_eq!(Fitness { num: 8, den: 8 }, chromosome.fitness);
}

#[test]
fn gene_as_room_shrinks_by_one() {
    let gene = Gene::new(Rect { x: 3, y: 4, w: 6, h: 8 }, 5);
    let room = gene.as_room();
    assert_eq!(Rect { x: 3, y: 4, w: 5, h: 7 }, room.rect);
}

use dwarfilib::breeding::{
    Candidate, breed, breed_for, breeder, generate_initial_population, most_fit, purge,
    search_candidate,
};
use dwarfilib::collections::Vector;
use dwarfilib::genes::{Chromosome, Fitness, Gene};
use dwarfilib::random::SeededRandom;
use dwarfilib::shapes::Rect;

fn four_genes() -> Vector<Gene> {
    let gene1 = Gene::new(Rect { x: 2, y: 3, w: 5, h: 7 }, 0);
    let gene2 = Gene::new(Rect { x: 1, y: 0, w: 3, h: 3 }, 1);
    let gene3 = Gene::new(Rect { x: -2, y: 5, w: 5, h: 10 }, 2);
    let gene4 = Gene::new(Rect { x: 0, y: -7, w: 12, h: 8 }, 3);
    let mut genes = Vector::new();
    genes.push(gene1);
    genes.push(gene2);
    genes.push(gene3);
    genes.push(gene4);
    genes
}

#[test]
fn breed_returns_correctly_sized_population() {
    let genes = four_genes();
    let mut rng = SeededRandom::new(1);
    let initial_pop = generate_initial_population(genes, 100, &mut rng);
    assert_eq!(100, initial_pop.len());
    let next_pop = breed(initial_pop, &mut rng);
    assert_eq!(100, next_pop.len());
}

#[test]
fn search_candidate_finds_correct_candidate() {
    let mut candidates = Vector::new();
    let mut prob: u64 = 0;
    for i in 0..10 {
        prob += 100;
        candidates.push(Candidate::new(prob, i));
    }
    let found = search_candidate(&candidates, 750).unwrap();
    assert_eq!(7, found);
    assert_eq!(800, candidates.get(found).prob_range_end);
}

#[test]
fn selection_boundary_behavior() {
    let mut candidates = Vector::new();
    candidates.push(Candidate::new(30, 0));
    candidates.push(Candidate::new(60, 1));
    candidates.push(Candidate::new(100, 2));
    assert_eq!(Some(0), search_candidate(&candidates, 0));
    assert_eq!(Some(0), search_candidate(&candidates, 30));
    assert_eq!(Some(2), search_candidate(&candidates, 75));
}

#[test]
fn search_candidate_none_above_table() {
    let mut candidates = Vector::new();
    candidates.push(Candidate::new(30, 0));
    candidates.push(Candidate::new(60, 1));
    assert_eq!(None, search_candidate(&candidates, 61));
}

#[test]
fn purge_preserves_population_size() {
    let genes = four_genes();
    let mut rng = SeededRandom::new(5);
    let mut population = generate_initial_population(genes, 10, &mut rng);
    purge(&mut population, &mut rng);
    assert_eq!(10, population.len());
}

#[test]
fn most_fit_picks_first_maximum() {
    let raw = |num: i64, den: i64| Chromosome {
        genes: vec![Gene::new(Rect { x: 0, y: 0, w: 1, h: 1 }, 0)],
        total_area: num,
        fitness: Fitness { num, den },
        bounding_box: Rect::new(0, 0, 1, 1),
        bounding_box_fresh: true,
    };
    let mut population = Vector::new();
    population.push(raw(1, 2));
    population.push(raw(2, 3));
    population.push(raw(4, 6));
    population.push(raw(1, 3));
    assert_eq!(Some(1), most_fit(&population));
}

#[test]
fn most_fit_none_when_all_zero() {
    let raw = || Chromosome {
        genes: vec![Gene::new(Rect { x: 0, y: 0, w: 1, h: 1 }, 0)],
        total_area: 0,
        fitness: Fitness { num: 0, den: 1 },
        bounding_box: Rect::new(0, 0, 1, 1),
        bounding_box_fresh: true,
    };
    let mut population = Vector::new();
    population.push(raw());
    population.push(raw());
    assert_eq!(None, most_fit(&population));
}

#[test]
fn breeder_returns_fit_chromosome() {
    let genes = four_genes();
    let mut rng = SeededRandom::new(11);
    let best = breeder(genes, 10, 5, &mut rng);
    assert_eq!(4, best.genes.len());
    for i in 0..best.genes.len() {
        assert_eq!(i as i64, best.genes[i].gene_id);
        for j in i + 1..best.genes.len() {
            assert!(!best.genes[i].collides_with(best.genes[j]));
        }
    }
    assert!(best.fitness.num >= 1);
    assert!(best.fitness.den >= 1);
}

#[test]
fn breed_for_preserves_population_size() {
    let genes = four_genes();
    let mut rng = SeededRandom::new(3);
    let population = generate_initial_population(genes, 8, &mut rng);
    let bred = breed_for(population, 4, &mut rng);
    assert_eq!(8, bred.len());
}

#[test]
fn breed_for_head_beats_every_input() {
    let genes = four_genes();
    let mut rng = SeededRandom::new(21);
    let population = generate_initial_population(genes, 10, &mut rng);
    let mut input_fitness = Vec::new();
    for i in 0..population.len() {
        input_fitness.push(population.get(i).fitness);
    }
    let bred = breed_for(population, 3, &mut rng);
    let head = bred.get(0).fitness;
    for f in input_fitness {
        assert!(f.le(&head));
    }
}

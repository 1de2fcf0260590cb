use genetic::gene::Gene;
use genetic::population::generate_random_genes;
use genetic::population::next_generation;
use genetic::population::run;
use genetic::population::search_finished;
use genetic::population::sort_by_score;
use genetic::rng::RandomSource;

fn scored_gene(data: &[u8], goal: &[u8]) -> Gene {
    let mut g = Gene::new(data.to_vec());
    g.calc_score(goal);
    g
}

#[test]
fn new_gene_is_unscored() {
    let g = Gene::new(b"ABC".to_vec());
    assert_eq!(g.data, b"ABC".to_vec());
    assert!(g.score.is_none());
}

#[test]
fn calc_score_counts_mismatches() {
    let g = scored_gene(b"ABC", b"ABC");
    assert_eq!(g.score(), 0);
    let g = scored_gene(b"ABD", b"ABC");
    assert_eq!(g.score(), 1);
    let g = scored_gene(b"XYZ", b"ABC");
    assert_eq!(g.score(), 3);
}

#[test]
fn calc_score_is_idempotent_even_with_another_goal() {
    let mut g = Gene::new(b"ABD".to_vec());
    g.calc_score(b"ABC");
    let first = g.score();
    g.calc_score(b"ABC");
    assert_eq!(g.score(), first);
    g.calc_score(b"ZZZZZZ");
    assert_eq!(g.score(), first);
    assert_eq!(first, 1);
}

#[test]
fn length_mismatch_scores_sentinel_maximum() {
    let g = scored_gene(b"AB", b"ABC");
    assert_eq!(g.score(), usize::MAX);
    let g = scored_gene(b"ABCD", b"ABC");
    assert_eq!(g.score(), usize::MAX);
}

#[test]
fn invalid_text_scores_sentinel_maximum() {
    let g = scored_gene(&[0xFF, 0xFE, 0x41], &[0x41, 0x41, 0x41]);
    assert_eq!(g.score(), usize::MAX);
}

#[test]
fn as_str_decodes_valid_bytes() {
    let g = Gene::new(b"ABC".to_vec());
    assert_eq!(g.as_str().unwrap(), "ABC");
}

#[test]
fn as_str_rejects_invalid_bytes() {
    let g = Gene::new(vec![0xFF, 0xFE]);
    assert!(g.as_str().is_err());
}

#[test]
fn cmp_orders_by_score() {
    let best = scored_gene(b"ABC", b"ABC");
    let worse = scored_gene(b"ABD", b"ABC");
    assert_eq!(best.cmp(&worse), std::cmp::Ordering::Less);
    assert_eq!(worse.cmp(&best), std::cmp::Ordering::Greater);
    assert_eq!(best.cmp(&best), std::cmp::Ordering::Equal);
}

#[test]
fn crossover_mixes_parent_bytes_positionwise() {
    let mut source = RandomSource::from_seed(7);
    let a = Gene::new(b"AAAAAAAA".to_vec());
    let b = Gene::new(b"BBBBBBBB".to_vec());
    let c = a.crossover(&b, &mut source);
    assert_eq!(c.data.len(), 8);
    assert!(c.score.is_none());
    for i in 0..8 {
        assert!(c.data[i] == a.data[i] || c.data[i] == b.data[i]);
    }
}

#[test]
fn crossover_child_is_as_long_as_the_shorter_parent() {
    let mut source = RandomSource::from_seed(11);
    let a = Gene::new(b"AAAA".to_vec());
    let b = Gene::new(b"BB".to_vec());
    let c = a.crossover(&b, &mut source);
    assert_eq!(c.data.len(), 2);
}

#[test]
fn mutate_changes_at_most_one_byte_and_resets_the_score() {
    let mut source = RandomSource::from_seed(3);
    let mut g = scored_gene(b"AAAAAAAA", b"AAAAAAAA");
    assert!(g.score.is_some());
    let before = g.data.clone();
    g.mutate(&mut source);
    assert!(g.score.is_none());
    assert_eq!(g.data.len(), before.len());
    let mut changed = 0;
    for i in 0..before.len() {
        if g.data[i] != before[i] {
            changed += 1;
            assert!(g.data[i] < 126);
        }
    }
    assert!(changed <= 1);
}

#[test]
fn mutated_byte_stays_below_126_across_many_draws() {
    let mut source = RandomSource::from_seed(5);
    for _ in 0..200 {
        let mut g = Gene::new(vec![200u8; 4]);
        g.mutate(&mut source);
        let mut high = 0;
        for i in 0..4 {
            if g.data[i] == 200 {
                high += 1;
            } else {
                assert!(g.data[i] < 126);
            }
        }
        assert_eq!(high, 3);
    }
}

#[test]
fn generated_genes_match_goal_length_and_alphabet() {
    let mut source = RandomSource::from_seed(42);
    let genes = generate_random_genes(20, 5, &mut source);
    assert_eq!(genes.len(), 20);
    for g in &genes {
        assert!(g.score.is_none());
        assert_eq!(g.data.len(), 5);
        for &b in &g.data {
            assert!(b.is_ascii_alphanumeric());
        }
    }
}

#[test]
fn sort_by_score_orders_ascending_and_keeps_the_genes() {
    let goal = b"AAAA";
    let mut genes = vec![
        scored_gene(b"ZZZZ", goal),
        scored_gene(b"AAAA", goal),
        scored_gene(b"AAZZ", goal),
        scored_gene(b"AZZZ", goal),
    ];
    let mut datas: Vec<Vec<u8>> = genes.iter().map(|g| g.data.clone()).collect();
    sort_by_score(&mut genes);
    assert_eq!(genes.len(), 4);
    for i in 1..genes.len() {
        assert!(genes[i - 1].score() <= genes[i].score());
    }
    let mut sorted_datas: Vec<Vec<u8>> = genes.iter().map(|g| g.data.clone()).collect();
    datas.sort();
    sorted_datas.sort();
    assert_eq!(datas, sorted_datas);
}

#[test]
fn generation_step_sorts_ascending_with_best_first() {
    let goal = b"ABC";
    let mut source = RandomSource::from_seed(9);
    let mut population = generate_random_genes(30, goal.len(), &mut source);
    for g in population.iter_mut() {
        g.calc_score(goal);
    }
    sort_by_score(&mut population);
    next_generation(&mut population, goal, 9, 18, &mut source);
    assert_eq!(population.len(), 30);
    for i in 1..population.len() {
        assert!(population[i - 1].score() <= population[i].score());
        assert!(population[0].score() <= population[i].score());
    }
}

#[test]
fn elites_survive_a_step_without_mutation_byte_identical() {
    let goal = b"ABCD";
    let mut source = RandomSource::from_seed(21);
    let mut population = generate_random_genes(20, goal.len(), &mut source);
    for g in population.iter_mut() {
        g.calc_score(goal);
    }
    sort_by_score(&mut population);
    let elites: Vec<(Vec<u8>, usize)> =
        population[..6].iter().map(|g| (g.data.clone(), g.score())).collect();
    next_generation(&mut population, goal, 6, 0, &mut source);
    for (data, score) in &elites {
        assert!(population.iter().any(|g| &g.data == data && g.score() == *score));
    }
}

#[test]
fn all_elite_step_without_mutation_only_reorders() {
    let goal = b"ABC";
    let mut source = RandomSource::from_seed(13);
    let mut population = generate_random_genes(12, goal.len(), &mut source);
    for g in population.iter_mut() {
        g.calc_score(goal);
    }
    sort_by_score(&mut population);
    let mut before: Vec<Vec<u8>> = population.iter().map(|g| g.data.clone()).collect();
    next_generation(&mut population, goal, 12, 0, &mut source);
    let mut after: Vec<Vec<u8>> = population.iter().map(|g| g.data.clone()).collect();
    before.sort();
    after.sort();
    assert_eq!(before, after);
}

#[test]
fn small_goal_is_found_well_before_the_generation_cap() {
    let goal = b"AAAA";
    let mut source = RandomSource::from_seed(1);
    let (generations, population) = run(goal, 50, 10_000, 15, 30, &mut source);
    assert!(generations < 10_000);
    assert_eq!(population[0].score(), 0);
    assert_eq!(population[0].data, goal.to_vec());
}

#[test]
fn empty_goal_terminates_at_generation_zero() {
    let mut source = RandomSource::from_seed(2);
    let (generations, population) = run(b"", 10, 100, 3, 6, &mut source);
    assert_eq!(generations, 0);
    assert_eq!(population.len(), 10);
    assert_eq!(population[0].score(), 0);
}

#[test]
fn search_finished_tracks_cap_and_success() {
    let goal = b"AB";
    let matched = vec![scored_gene(b"AB", goal)];
    let unmatched = vec![scored_gene(b"ZZ", goal)];
    assert!(search_finished(&matched, 0, 100));
    assert!(!search_finished(&unmatched, 0, 100));
    assert!(search_finished(&unmatched, 100, 100));
}

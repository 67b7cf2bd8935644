use neurocontrol::components::update_fitness;
use neurocontrol::components::update_score;
use neurocontrol::components::Bird;
use neurocontrol::evolution::breed;
use neurocontrol::evolution::check_collision;
use neurocontrol::evolution::generate_next_generation;
use neurocontrol::evolution::generate_next_generation_thirds;
use neurocontrol::evolution::mutated_copy;
use neurocontrol::evolution::select_best;
use neurocontrol::evolution::should_jump;
use neurocontrol::evolution::BestBirds;
use neurocontrol::evolution::Collision;
use neurocontrol::evolution::GuiParameters;
use neurocontrol::fixed::Fixed;
use neurocontrol::fixed::ONE_RAW;
use neurocontrol::neural_network::Layer;
use neurocontrol::neural_network::NetworkError;
use neurocontrol::neural_network::NeuralNetwork;

fn fx(v: f64) -> Fixed {
    Fixed::from_raw((v * 4294967296.0).round() as i64)
}

fn flat(net: &NeuralNetwork) -> Vec<i64> {
    let mut out = Vec::new();
    for l in net.layers() {
        for r in l.weights() {
            for w in r {
                out.push(w.raw);
            }
        }
        for b in l.biases() {
            out.push(b.raw);
        }
    }
    out
}

fn constant_network(sizes: &[usize], raw: i64) -> NeuralNetwork {
    NeuralNetwork::random(sizes, raw, raw).unwrap()
}

fn dead_bird(fitness: i32, score: i32, tag: i64) -> Bird {
    Bird {
        score: Fixed::from_int(score),
        fitness: Fixed::from_int(fitness),
        dead: true,
        neural_network: constant_network(&[1, 1], tag),
    }
}

fn empty_best() -> BestBirds {
    BestBirds::new(constant_network(&[1, 1], -1), constant_network(&[1, 1], -2))
}

fn pairs(best: &BestBirds) -> ((Fixed, Fixed), (Fixed, Fixed)) {
    ((best.best_fitness, best.best_score), (best.second_best_fitness, best.second_best_score))
}

fn int_pair(fitness: i32, score: i32) -> (Fixed, Fixed) {
    (Fixed::from_int(fitness), Fixed::from_int(score))
}

fn due(population: usize) -> GuiParameters {
    let mut p = GuiParameters::default();
    p.population_size = population;
    p.start_training = true;
    p.generation_dead = true;
    p.dead_bird_count = population;
    p.current_score = Fixed::from_int(3);
    p
}

fn trained_best(a: NeuralNetwork, b: NeuralNetwork) -> BestBirds {
    let mut best = BestBirds::new(a, b);
    best.best_score = Fixed::from_int(2);
    best.second_best_score = Fixed::from_int(1);
    best.best_fitness = Fixed::from_int(20);
    best.second_best_fitness = Fixed::from_int(10);
    best
}

#[test]
fn default_parameters_of_the_engine() {
    let p = GuiParameters::default();
    assert_eq!(p.population_size, 400);
    assert_eq!(p.dead_bird_count, 0);
    assert_eq!(p.current_score, Fixed::zero());
    assert!(!p.generation_dead);
    assert_eq!(p.mutation_rate, fx(0.125));
    assert_eq!(p.mutation_probability, fx(0.5));
    assert_eq!(p.current_generation, 0);
    assert!(!p.start_training);
}

#[test]
fn newborn_bird_has_nothing_yet() {
    let bird = Bird::new(constant_network(&[2, 1], 7));
    assert_eq!(bird.score, Fixed::zero());
    assert_eq!(bird.fitness, Fixed::zero());
    assert!(!bird.dead);
    assert_eq!(flat(&bird.neural_network), vec![7, 7, 7]);
    let copy = bird.clone();
    assert_eq!(flat(&copy.neural_network), vec![7, 7, 7]);
}

#[test]
fn select_best_of_three() {
    let population = vec![dead_bird(5, 1, 51), dead_bird(10, 2, 102), dead_bird(3, 5, 35)];
    let mut best = empty_best();
    select_best(&mut best, &population);
    assert_eq!(pairs(&best), (int_pair(10, 2), int_pair(5, 1)));
    assert_eq!(flat(&best.best_neural_network), vec![102, 102]);
    assert_eq!(flat(&best.second_best_neural_network), vec![51, 51]);
}

#[test]
fn select_best_skips_the_living() {
    let mut alive = dead_bird(100, 100, 9);
    alive.dead = false;
    let population = vec![dead_bird(5, 1, 51), alive, dead_bird(4, 1, 41)];
    let mut best = empty_best();
    select_best(&mut best, &population);
    assert_eq!(pairs(&best), (int_pair(5, 1), int_pair(4, 1)));
}

#[test]
fn select_best_of_nobody_changes_nothing() {
    let mut best = empty_best();
    select_best(&mut best, &Vec::new());
    assert_eq!(pairs(&best), (int_pair(0, 0), int_pair(0, 0)));
    assert_eq!(flat(&best.best_neural_network), vec![-1, -1]);
    assert_eq!(flat(&best.second_best_neural_network), vec![-2, -2]);
}

#[test]
fn higher_fitness_with_lower_score_does_not_take_the_best() {
    let mut best = empty_best();
    best.consider(&dead_bird(10, 5, 1));
    best.consider(&dead_bird(20, 4, 2));
    assert_eq!(pairs(&best), (int_pair(10, 5), int_pair(20, 4)));
    assert_eq!(flat(&best.best_neural_network), vec![1, 1]);
    assert_eq!(flat(&best.second_best_neural_network), vec![2, 2]);
}

#[test]
fn higher_score_with_lower_fitness_takes_nothing() {
    let mut best = empty_best();
    best.consider(&dead_bird(10, 2, 1));
    best.consider(&dead_bird(5, 1, 2));
    best.consider(&dead_bird(4, 9, 3));
    assert_eq!(pairs(&best), (int_pair(10, 2), int_pair(5, 1)));
}

#[test]
fn equal_fitness_does_not_replace() {
    let mut best = empty_best();
    best.consider(&dead_bird(10, 2, 1));
    best.consider(&dead_bird(10, 3, 2));
    assert_eq!(pairs(&best), (int_pair(10, 2), int_pair(10, 3)));
    best.consider(&dead_bird(10, 7, 3));
    assert_eq!(pairs(&best), (int_pair(10, 2), int_pair(10, 3)));
}

#[test]
fn equal_score_with_higher_fitness_replaces() {
    let mut best = empty_best();
    best.consider(&dead_bird(10, 2, 1));
    best.consider(&dead_bird(11, 2, 2));
    assert_eq!(pairs(&best), (int_pair(11, 2), int_pair(10, 2)));
    assert_eq!(flat(&best.best_neural_network), vec![2, 2]);
    assert_eq!(flat(&best.second_best_neural_network), vec![1, 1]);
}

#[test]
fn a_new_best_pushes_the_old_best_to_second() {
    let mut best = empty_best();
    best.consider(&dead_bird(5, 1, 1));
    best.consider(&dead_bird(4, 1, 2));
    best.consider(&dead_bird(9, 1, 3));
    assert_eq!(pairs(&best), (int_pair(9, 1), int_pair(5, 1)));
    assert_eq!(flat(&best.second_best_neural_network), vec![1, 1]);
}

#[test]
fn zero_fitness_never_enters() {
    let mut best = empty_best();
    best.consider(&dead_bird(0, 50, 1));
    assert_eq!(pairs(&best), (int_pair(0, 0), int_pair(0, 0)));
    assert_eq!(flat(&best.best_neural_network), vec![-1, -1]);
}

#[test]
fn check_collision_does_nothing_while_the_engine_rests() {
    let mut p = GuiParameters::default();
    p.population_size = 1;
    let mut bird = Bird::new(constant_network(&[1, 1], 4));
    bird.fitness = Fixed::from_int(3);
    let mut best = empty_best();
    let leaves = check_collision(&mut bird, &vec![Collision::Left], &mut p, &mut best);
    assert!(!leaves);
    assert!(!bird.dead);
    assert_eq!(p.dead_bird_count, 0);
    assert!(!p.generation_dead);
    assert_eq!(pairs(&best), (int_pair(0, 0), int_pair(0, 0)));
}

#[test]
fn check_collision_kills_on_left_top_and_bottom() {
    for hit in [Collision::Left, Collision::Top, Collision::Bottom] {
        let mut p = GuiParameters::default();
        p.start_training = true;
        let mut bird = Bird::new(constant_network(&[1, 1], 4));
        bird.fitness = Fixed::from_int(3);
        bird.score = Fixed::from_int(1);
        let mut best = empty_best();
        let leaves = check_collision(&mut bird, &vec![hit], &mut p, &mut best);
        assert!(leaves);
        assert!(bird.dead);
        assert_eq!(p.dead_bird_count, 1);
        assert!(!p.generation_dead);
        assert_eq!(pairs(&best), (int_pair(3, 1), int_pair(0, 0)));
        assert_eq!(flat(&best.best_neural_network), vec![4, 4]);
        assert_eq!(bird.fitness, Fixed::from_int(3));
        assert_eq!(bird.score, Fixed::from_int(1));
    }
}

#[test]
fn check_collision_spares_on_right_and_inside() {
    let mut p = GuiParameters::default();
    p.start_training = true;
    let mut bird = Bird::new(constant_network(&[1, 1], 4));
    bird.fitness = Fixed::from_int(3);
    let mut best = empty_best();
    let hits = vec![Collision::Right, Collision::Inside];
    assert!(!check_collision(&mut bird, &hits, &mut p, &mut best));
    assert!(!bird.dead);
    assert_eq!(p.dead_bird_count, 0);
    assert_eq!(pairs(&best), (int_pair(0, 0), int_pair(0, 0)));
    assert!(!check_collision(&mut bird, &Vec::new(), &mut p, &mut best));
}

#[test]
fn check_collision_counts_every_deadly_touch() {
    let mut p = GuiParameters::default();
    p.start_training = true;
    p.population_size = 5;
    let mut bird = Bird::new(constant_network(&[1, 1], 4));
    let mut best = empty_best();
    let hits = vec![Collision::Top, Collision::Right, Collision::Left];
    assert!(check_collision(&mut bird, &hits, &mut p, &mut best));
    assert_eq!(p.dead_bird_count, 2);
    assert!(!p.generation_dead);
}

#[test]
fn check_collision_ends_the_generation_with_the_last_death() {
    let mut p = GuiParameters::default();
    p.start_training = true;
    p.population_size = 2;
    let mut best = empty_best();
    let mut first = Bird::new(constant_network(&[1, 1], 1));
    first.fitness = Fixed::from_int(1);
    let mut second = Bird::new(constant_network(&[1, 1], 2));
    second.fitness = Fixed::from_int(2);
    assert!(check_collision(&mut first, &vec![Collision::Bottom], &mut p, &mut best));
    assert!(!p.generation_dead);
    assert!(!check_collision(&mut second, &Vec::new(), &mut p, &mut best));
    assert!(!p.generation_dead);
    assert!(check_collision(&mut second, &vec![Collision::Left], &mut p, &mut best));
    assert!(p.generation_dead);
    assert_eq!(p.dead_bird_count, 2);
    assert_eq!(pairs(&best), (int_pair(2, 0), int_pair(1, 0)));
}

#[test]
fn check_collision_count_stops_at_the_largest_value() {
    let mut p = GuiParameters::default();
    p.start_training = true;
    p.dead_bird_count = usize::MAX;
    let mut bird = Bird::new(constant_network(&[1, 1], 4));
    let mut best = empty_best();
    assert!(check_collision(&mut bird, &vec![Collision::Top], &mut p, &mut best));
    assert_eq!(p.dead_bird_count, usize::MAX);
}

#[test]
fn should_jump_above_one_half() {
    let up = NeuralNetwork::from_layers(vec![
        Layer::new(vec![vec![Fixed::zero(); 4]], vec![Fixed::from_int(3)]).unwrap()
    ])
    .unwrap();
    let down = NeuralNetwork::from_layers(vec![
        Layer::new(vec![vec![Fixed::zero(); 4]], vec![Fixed::from_int(-3)]).unwrap()
    ])
    .unwrap();
    let even = constant_network(&[4, 1], 0);
    let input = vec![Fixed::from_int(1); 4];
    assert!(should_jump(&up, &input));
    assert!(!should_jump(&down, &input));
    assert!(!should_jump(&even, &input));
}

#[test]
fn no_generation_while_the_running_one_lives() {
    let mut p = due(4);
    p.generation_dead = false;
    let before = p;
    let mut best = trained_best(constant_network(&[2, 1], 8), constant_network(&[2, 1], 4));
    let children = generate_next_generation(&mut p, &mut best, &[2, 1]).unwrap();
    assert!(children.is_empty());
    assert_eq!(p.dead_bird_count, before.dead_bird_count);
    assert_eq!(p.current_generation, before.current_generation);
    assert_eq!(p.current_score, before.current_score);
    let mut p = due(4);
    p.start_training = false;
    let children = generate_next_generation(&mut p, &mut best, &[2, 1]).unwrap();
    assert!(children.is_empty());
    assert!(p.generation_dead);
    let children = generate_next_generation_thirds(&mut p, &best, &[2, 1]).unwrap();
    assert!(children.is_empty());
    assert!(p.generation_dead);
}

#[test]
fn next_generation_has_population_size_children() {
    for size in [0usize, 1, 2, 7, 50] {
        let mut p = due(size);
        let mut best = trained_best(constant_network(&[4, 3, 1], 8), constant_network(&[4, 3, 1], 4));
        let children = generate_next_generation(&mut p, &mut best, &[4, 3, 1]).unwrap();
        assert_eq!(children.len(), size);
        for child in &children {
            assert_eq!(child.neural_network.sizes(), vec![4, 3, 1]);
            assert_eq!(child.score, Fixed::zero());
            assert_eq!(child.fitness, Fixed::zero());
            assert!(!child.dead);
        }
    }
}

#[test]
fn next_generation_resets_the_counters() {
    let mut p = due(3);
    p.current_generation = 7;
    let mut best = trained_best(constant_network(&[2, 1], 8), constant_network(&[2, 1], 4));
    generate_next_generation(&mut p, &mut best, &[2, 1]).unwrap();
    assert!(!p.generation_dead);
    assert_eq!(p.dead_bird_count, 0);
    assert_eq!(p.current_score, Fixed::zero());
    assert_eq!(p.current_generation, 8);
    assert_eq!(p.population_size, 3);
    assert_eq!(p.mutation_probability, fx(0.5));
    assert_eq!(p.mutation_rate, fx(0.125));
    assert!(p.start_training);
}

#[test]
fn mutation_probability_shrinks_every_tenth_generation() {
    let mut best = trained_best(constant_network(&[2, 1], 8), constant_network(&[2, 1], 4));
    let mut p = due(1);
    p.current_generation = 0;
    generate_next_generation(&mut p, &mut best, &[2, 1]).unwrap();
    assert_eq!(p.mutation_probability, fx(0.5).saturating_mul(fx(0.9)));
    assert_eq!(p.current_generation, 1);
    let mut p = due(1);
    p.current_generation = 10;
    generate_next_generation(&mut p, &mut best, &[2, 1]).unwrap();
    assert_eq!(p.mutation_probability, fx(0.5).saturating_mul(fx(0.9)));
    let mut p = due(1);
    p.current_generation = 9;
    generate_next_generation(&mut p, &mut best, &[2, 1]).unwrap();
    assert_eq!(p.mutation_probability, fx(0.5));
    assert_eq!(p.current_generation, 10);
}

#[test]
fn thirds_shrink_the_probability_by_the_new_generation_number() {
    let best = trained_best(constant_network(&[2, 1], 8), constant_network(&[2, 1], 4));
    let mut p = due(1);
    p.current_generation = 9;
    generate_next_generation_thirds(&mut p, &best, &[2, 1]).unwrap();
    assert_eq!(p.current_generation, 10);
    assert_eq!(p.mutation_probability, fx(0.5).saturating_mul(fx(0.9)));
    let mut p = due(1);
    p.current_generation = 0;
    generate_next_generation_thirds(&mut p, &best, &[2, 1]).unwrap();
    assert_eq!(p.current_generation, 1);
    assert_eq!(p.mutation_probability, fx(0.5));
    assert!(!p.generation_dead);
    assert_eq!(p.dead_bird_count, 0);
    assert_eq!(p.current_score, Fixed::zero());
}

#[test]
fn children_without_mutation_are_the_average_of_the_best_two() {
    let mut p = due(5);
    p.mutation_probability = Fixed::zero();
    let mut best = trained_best(constant_network(&[3, 2, 1], 8), constant_network(&[3, 2, 1], 4));
    let children = generate_next_generation(&mut p, &mut best, &[3, 2, 1]).unwrap();
    for child in &children {
        assert!(flat(&child.neural_network).iter().all(|w| *w == 6));
    }
    assert!(flat(&best.best_neural_network).iter().all(|w| *w == 8));
    assert!(flat(&best.second_best_neural_network).iter().all(|w| *w == 4));
    assert_eq!(best.best_score, Fixed::from_int(2));
    assert_eq!(best.second_best_fitness, Fixed::from_int(10));
}

#[test]
fn children_with_mutation_stay_within_the_rate_of_the_average() {
    let mut p = due(30);
    p.mutation_probability = Fixed::one();
    p.mutation_rate = Fixed::from_raw(1000);
    let mut best = trained_best(constant_network(&[3, 2, 1], 8000), constant_network(&[3, 2, 1], 4000));
    let children = generate_next_generation(&mut p, &mut best, &[3, 2, 1]).unwrap();
    let mut moved = false;
    for child in &children {
        for w in flat(&child.neural_network) {
            assert!((w - 6000).abs() <= 1000);
            moved = moved || w != 6000;
        }
    }
    assert!(moved);
}

#[test]
fn untrained_parents_are_replaced_by_fresh_networks() {
    let mut p = due(4);
    p.mutation_probability = Fixed::zero();
    let mut best = BestBirds::new(
        constant_network(&[2, 1], 5 * ONE_RAW),
        constant_network(&[2, 1], 5 * ONE_RAW),
    );
    let children = generate_next_generation(&mut p, &mut best, &[4, 3, 1]).unwrap();
    assert_eq!(children.len(), 4);
    assert_eq!(best.best_neural_network.sizes(), vec![4, 3, 1]);
    assert_eq!(best.second_best_neural_network.sizes(), vec![4, 3, 1]);
    for child in &children {
        assert_eq!(child.neural_network.sizes(), vec![4, 3, 1]);
        for w in flat(&child.neural_network) {
            assert!(w >= -ONE_RAW && w < ONE_RAW);
        }
    }
    assert_ne!(flat(&children[0].neural_network), flat(&children[1].neural_network));
    assert_eq!(best.best_score, Fixed::zero());
}

#[test]
fn a_score_at_the_floor_counts_as_untrained() {
    let mut p = due(1);
    p.mutation_probability = Fixed::zero();
    let mut best = trained_best(constant_network(&[2, 1], 8), constant_network(&[2, 1], 4));
    best.second_best_score = fx(0.1);
    generate_next_generation(&mut p, &mut best, &[2, 1]).unwrap();
    assert!(flat(&best.best_neural_network).iter().all(|w| *w == 8));
    assert!(!flat(&best.second_best_neural_network).iter().all(|w| *w == 4));
    let mut p = due(1);
    let mut best = trained_best(constant_network(&[2, 1], 8), constant_network(&[2, 1], 4));
    best.second_best_score = Fixed::from_raw(fx(0.1).raw + 1);
    generate_next_generation(&mut p, &mut best, &[2, 1]).unwrap();
    assert!(flat(&best.second_best_neural_network).iter().all(|w| *w == 4));
}

#[test]
fn no_generation_from_invalid_sizes() {
    let mut p = due(4);
    let before = p;
    let mut best = BestBirds::new(constant_network(&[2, 1], 5), constant_network(&[2, 1], 6));
    let r = generate_next_generation(&mut p, &mut best, &[4, 0, 1]);
    assert_eq!(r.unwrap_err(), NetworkError::InvalidTopology);
    assert!(p.generation_dead);
    assert_eq!(p.dead_bird_count, before.dead_bird_count);
    assert_eq!(p.current_generation, before.current_generation);
    assert!(flat(&best.best_neural_network).iter().all(|w| *w == 5));
    let r = generate_next_generation_thirds(&mut p, &best, &[4]);
    assert_eq!(r.unwrap_err(), NetworkError::InvalidTopology);
    assert!(p.generation_dead);
}

#[test]
fn invalid_sizes_do_not_matter_where_no_fresh_network_is_needed() {
    let mut p = due(2);
    let mut best = trained_best(constant_network(&[2, 1], 8), constant_network(&[2, 1], 4));
    let children = generate_next_generation(&mut p, &mut best, &[]).unwrap();
    assert_eq!(children.len(), 2);
    let mut p = due(0);
    let mut best = BestBirds::new(constant_network(&[2, 1], 5), constant_network(&[3, 1], 6));
    let children = generate_next_generation(&mut p, &mut best, &[]).unwrap();
    assert!(children.is_empty());
    assert_eq!(p.current_generation, 1);
    assert!(!p.generation_dead);
}

#[test]
fn no_generation_from_parents_of_different_topology() {
    let mut p = due(4);
    let mut best = trained_best(constant_network(&[2, 1], 8), constant_network(&[3, 1], 4));
    let r = generate_next_generation(&mut p, &mut best, &[2, 1]);
    assert_eq!(r.unwrap_err(), NetworkError::TopologyMismatch);
    assert!(p.generation_dead);
    assert_eq!(p.current_generation, 0);
    let mut best = trained_best(constant_network(&[2, 1], 8), constant_network(&[2, 1], 4));
    best.second_best_score = Fixed::zero();
    let r = generate_next_generation(&mut p, &mut best, &[3, 1]);
    assert_eq!(r.unwrap_err(), NetworkError::TopologyMismatch);
    assert!(flat(&best.second_best_neural_network).iter().all(|w| *w == 4));
}

#[test]
fn thirds_are_a_half_a_quarter_and_the_rest() {
    let mut p = due(10);
    p.mutation_probability = Fixed::zero();
    let best = trained_best(constant_network(&[2, 1], 8), constant_network(&[2, 1], 4));
    let children = generate_next_generation_thirds(&mut p, &best, &[4, 3, 1]).unwrap();
    assert_eq!(children.len(), 10);
    for (k, child) in children.iter().enumerate() {
        assert_eq!(child.score, Fixed::zero());
        assert_eq!(child.fitness, Fixed::zero());
        assert!(!child.dead);
        if k < 5 {
            assert_eq!(flat(&child.neural_network), vec![8, 8, 8]);
        } else if k < 7 {
            assert_eq!(flat(&child.neural_network), vec![4, 4, 4]);
        } else {
            assert_eq!(child.neural_network.sizes(), vec![4, 3, 1]);
        }
    }
}

#[test]
fn thirds_mutate_the_copies_within_the_rate() {
    let mut p = due(8);
    p.mutation_probability = Fixed::one();
    p.mutation_rate = Fixed::from_raw(100);
    let best = trained_best(constant_network(&[2, 1], 8000), constant_network(&[2, 1], 4000));
    let children = generate_next_generation_thirds(&mut p, &best, &[2, 1]).unwrap();
    for child in &children[0..4] {
        for w in flat(&child.neural_network) {
            assert!((w - 8000).abs() <= 100);
        }
    }
    for child in &children[4..6] {
        for w in flat(&child.neural_network) {
            assert!((w - 4000).abs() <= 100);
        }
    }
    assert_eq!(children.len(), 8);
}

#[test]
fn thirds_of_a_single_child_is_a_fresh_network() {
    let mut p = due(1);
    let best = trained_best(constant_network(&[2, 1], 8), constant_network(&[2, 1], 4));
    let children = generate_next_generation_thirds(&mut p, &best, &[5, 2]).unwrap();
    assert_eq!(children.len(), 1);
    assert_eq!(children[0].neural_network.sizes(), vec![5, 2]);
}

#[test]
fn breed_averages_then_mutates() {
    let mut p = GuiParameters::default();
    p.mutation_probability = Fixed::zero();
    let a = constant_network(&[2, 2], 10);
    let b = constant_network(&[2, 2], 20);
    let child = breed(&a, &b, &p).unwrap();
    assert!(flat(&child.neural_network).iter().all(|w| *w == 15));
    assert!(!child.dead);
    assert_eq!(breed(&a, &constant_network(&[2, 3], 1), &p).unwrap_err(), NetworkError::TopologyMismatch);
}

#[test]
fn mutated_copy_without_mutation_is_a_copy() {
    let mut p = GuiParameters::default();
    p.mutation_probability = Fixed::zero();
    let a = NeuralNetwork::new(&[3, 2]).unwrap();
    let child = mutated_copy(&a, &p);
    assert_eq!(flat(&child.neural_network), flat(&a));
    assert_eq!(child.fitness, Fixed::zero());
}

#[test]
fn fitness_and_score_grow_while_the_bird_lives() {
    let mut bird = Bird::new(constant_network(&[1, 1], 0));
    update_fitness(&mut bird, fx(0.25));
    update_fitness(&mut bird, fx(0.5));
    update_score(&mut bird, fx(0.5));
    assert_eq!(bird.fitness, fx(0.75));
    assert_eq!(bird.score, fx(0.5));
    update_fitness(&mut bird, fx(-1.0));
    update_score(&mut bird, fx(-1.0));
    update_fitness(&mut bird, Fixed::zero());
    assert_eq!(bird.fitness, fx(0.75));
    assert_eq!(bird.score, fx(0.5));
}

#[test]
fn fitness_and_score_are_frozen_at_death() {
    let mut bird = Bird::new(constant_network(&[1, 1], 0));
    update_fitness(&mut bird, fx(2.0));
    update_score(&mut bird, fx(1.0));
    bird.dead = true;
    update_fitness(&mut bird, fx(2.0));
    update_score(&mut bird, fx(1.0));
    assert_eq!(bird.fitness, fx(2.0));
    assert_eq!(bird.score, fx(1.0));
}

#[test]
fn fitness_stops_at_the_largest_value() {
    let mut bird = Bird::new(constant_network(&[1, 1], 0));
    bird.fitness = Fixed::from_raw(i64::MAX - 1);
    update_fitness(&mut bird, Fixed::from_int(1));
    assert_eq!(bird.fitness.raw, i64::MAX);
}

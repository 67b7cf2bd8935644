//! The generational genetic engine: which two individuals are remembered as
//! the best, and how the next generation is bred from them.
use vstd::prelude::*;
use crate::fixed::Fixed;
use crate::fixed::ONE_RAW;
use crate::components::Bird;
use crate::components::BirdModel;
use crate::components::newborn;
use crate::neural_network::NeuralNetwork;
use crate::neural_network::NetworkError;
use crate::neural_network::LayerModel;
use crate::neural_network::network_ok;
use crate::neural_network::topology;
use crate::neural_network::widths;
use crate::neural_network::valid_sizes;
use crate::neural_network::entries_within;
use crate::neural_network::forward_spec;
use crate::neural_network::crossover_spec;
use crate::neural_network::is_mutate_outcome;
use crate::neural_network::crossover_average;
use crate::neural_network::mutate;
use crate::neural_network::lemma_forward_width;

verus! {

/// The raw value of the score at or below which a remembered individual
/// counts as untrained: 0.1.
pub const SCORE_FLOOR_RAW: i64 = 429496730;

/// The raw value of the factor by which the mutation probability shrinks:
/// 0.9.
pub const PROBABILITY_DECAY_RAW: i64 = 3865470566;

/// After how many generations the mutation probability shrinks.
pub const DECAY_PERIOD: usize = 10;

/// The raw value of the output above which an individual jumps: one half.
pub const JUMP_THRESHOLD_RAW: i64 = 0x8000_0000;

/// The raw value of the default mutation rate, 0.125.
pub const DEFAULT_MUTATION_RATE_RAW: i64 = 0x2000_0000;

/// The raw value of the default mutation probability, 0.5.
pub const DEFAULT_MUTATION_PROBABILITY_RAW: i64 = 0x8000_0000;

/// What the caller sets for the engine, and the counters of the running
/// generation.
#[derive(Clone, Copy, Debug)]
pub struct GuiParameters {
    /// How many individuals a generation has.
    pub population_size: usize,
    /// How many deaths the running generation has seen.
    pub dead_bird_count: usize,
    /// The score of the running generation.
    pub current_score: Fixed,
    /// Whether the whole generation has died, so that the next can be bred.
    pub generation_dead: bool,
    /// The greatest perturbation that a mutation adds to a weight.
    pub mutation_rate: Fixed,
    /// The probability that a child is mutated.
    pub mutation_probability: Fixed,
    /// How many generations have been bred.
    pub current_generation: usize,
    /// Whether the engine runs at all.
    pub start_training: bool,
}

impl Default for GuiParameters {
    fn default() -> (p: Self)
        ensures
            p.population_size == 400,
            p.dead_bird_count == 0,
            p.current_score == Fixed::zero_spec(),
            !p.generation_dead,
            p.mutation_rate.raw == DEFAULT_MUTATION_RATE_RAW,
            p.mutation_probability.raw == DEFAULT_MUTATION_PROBABILITY_RAW,
            p.current_generation == 0,
            !p.start_training,
    {
        GuiParameters {
            population_size: 400,
            dead_bird_count: 0,
            current_score: Fixed::zero(),
            generation_dead: false,
            mutation_rate: Fixed::from_raw(DEFAULT_MUTATION_RATE_RAW),
            mutation_probability: Fixed::from_raw(DEFAULT_MUTATION_PROBABILITY_RAW),
            current_generation: 0,
            start_training: false,
        }
    }
}

impl GuiParameters {
    /// Whether the mutation probability is a probability.
    pub fn is_valid(&self) -> (valid: bool)
        ensures
            valid == self.mutation_probability.is_probability_spec(),
    {
        self.mutation_probability.is_probability()
    }
}

/// What the engine remembers of the best two individuals.
pub struct BestModel {
    pub best_neural_network: Seq<LayerModel>,
    pub second_best_neural_network: Seq<LayerModel>,
    pub best_score: Fixed,
    pub second_best_score: Fixed,
    pub best_fitness: Fixed,
    pub second_best_fitness: Fixed,
}

/// The best and the second-best individual seen so far: the network, the
/// score and the fitness of each.
#[derive(Debug)]
pub struct BestBirds {
    pub best_neural_network: NeuralNetwork,
    pub second_best_neural_network: NeuralNetwork,
    pub best_score: Fixed,
    pub second_best_score: Fixed,
    pub best_fitness: Fixed,
    pub second_best_fitness: Fixed,
}

impl View for BestBirds {
    type V = BestModel;

    open spec fn view(&self) -> BestModel {
        BestModel {
            best_neural_network: self.best_neural_network@,
            second_best_neural_network: self.second_best_neural_network@,
            best_score: self.best_score,
            second_best_score: self.second_best_score,
            best_fitness: self.best_fitness,
            second_best_fitness: self.second_best_fitness,
        }
    }
}

/// An individual replaces a remembered one where its fitness is greater
/// and its score is not smaller.
pub open spec fn beats(fitness: Fixed, score: Fixed, held_fitness: Fixed, held_score: Fixed) -> bool {
    fitness.raw > held_fitness.raw && score.raw >= held_score.raw
}

/// What is remembered once a dead individual has been looked at. Where it
/// beats the best, it becomes the best and the best becomes the second-best.
/// Else, where it beats the second-best, it becomes the second-best. Else
/// nothing changes.
pub open spec fn considered(m: BestModel, b: BirdModel) -> BestModel {
    if beats(b.fitness, b.score, m.best_fitness, m.best_score) {
        BestModel {
            best_neural_network: b.neural_network,
            second_best_neural_network: m.best_neural_network,
            best_score: b.score,
            second_best_score: m.best_score,
            best_fitness: b.fitness,
            second_best_fitness: m.best_fitness,
        }
    } else if beats(b.fitness, b.score, m.second_best_fitness, m.second_best_score) {
        BestModel {
            best_neural_network: m.best_neural_network,
            second_best_neural_network: b.neural_network,
            best_score: m.best_score,
            second_best_score: b.score,
            best_fitness: m.best_fitness,
            second_best_fitness: b.fitness,
        }
    } else {
        m
    }
}

/// The models of a sequence of individuals.
pub open spec fn bird_models(birds: Seq<Bird>) -> Seq<BirdModel> {
    Seq::new(birds.len(), |i: int| birds[i]@)
}

/// What is remembered once the dead among the first `n` individuals have
/// been looked at, in their order.
pub open spec fn selected(m: BestModel, population: Seq<BirdModel>, n: nat) -> BestModel
    decreases n,
{
    if n == 0 {
        m
    } else {
        let before = selected(m, population, (n - 1) as nat);
        if population[n - 1].dead {
            considered(before, population[n - 1])
        } else {
            before
        }
    }
}

/// Looking at one more individual never lowers the best fitness nor the
/// second-best fitness.
pub proof fn lemma_considered_never_lowers(m: BestModel, b: BirdModel)
    ensures
        considered(m, b).best_fitness.raw >= m.best_fitness.raw,
        m.second_best_fitness.raw <= m.best_fitness.raw ==> considered(m, b).second_best_fitness.raw
            >= m.second_best_fitness.raw,
{
}

/// Looking at a whole population never lowers the best fitness.
pub proof fn lemma_selected_best_grows(m: BestModel, population: Seq<BirdModel>, n: nat)
    ensures
        selected(m, population, n).best_fitness.raw >= m.best_fitness.raw,
    decreases n,
{
    if n > 0 {
        lemma_selected_best_grows(m, population, (n - 1) as nat);
        lemma_considered_never_lowers(selected(m, population, (n - 1) as nat), population[n - 1]);
    }
}

impl BestBirds {
    /// Two remembered networks without score or fitness.
    pub fn new(best_neural_network: NeuralNetwork, second_best_neural_network: NeuralNetwork) -> (b:
        BestBirds)
        ensures
            b@.best_neural_network == best_neural_network@,
            b@.second_best_neural_network == second_best_neural_network@,
            b@.best_score == Fixed::zero_spec(),
            b@.second_best_score == Fixed::zero_spec(),
            b@.best_fitness == Fixed::zero_spec(),
            b@.second_best_fitness == Fixed::zero_spec(),
    {
        BestBirds {
            best_neural_network,
            second_best_neural_network,
            best_score: Fixed::zero(),
            second_best_score: Fixed::zero(),
            best_fitness: Fixed::zero(),
            second_best_fitness: Fixed::zero(),
        }
    }

    /// Looks at one dead individual: it replaces the best where its
    /// fitness is greater and its score is not smaller than the best's, and
    /// the best then becomes the second-best; else it replaces the
    /// second-best under the same rule; else nothing changes.
    pub fn consider(&mut self, bird: &Bird)
        ensures
            final(self)@ == considered(old(self)@, bird@),
    {
        if bird.fitness.raw > self.best_fitness.raw && bird.score.raw >= self.best_score.raw {
            self.second_best_fitness = self.best_fitness;
            self.second_best_neural_network = self.best_neural_network.clone();
            self.second_best_score = self.best_score;
            self.best_fitness = bird.fitness;
            self.best_neural_network = bird.neural_network.clone();
            self.best_score = bird.score;
        } else if bird.fitness.raw > self.second_best_fitness.raw && bird.score.raw
            >= self.second_best_score.raw {
            self.second_best_fitness = bird.fitness;
            self.second_best_neural_network = bird.neural_network.clone();
            self.second_best_score = bird.score;
        }
    }
}

impl Clone for BestBirds {
    fn clone(&self) -> (r: Self)
        ensures
            r@ == self@,
    {
        BestBirds {
            best_neural_network: self.best_neural_network.clone(),
            second_best_neural_network: self.second_best_neural_network.clone(),
            best_score: self.best_score,
            second_best_score: self.second_best_score,
            best_fitness: self.best_fitness,
            second_best_fitness: self.second_best_fitness,
        }
    }
}

/// Looks at the dead individuals of a population, in their order, and
/// remembers the best two.
pub fn select_best(best_birds: &mut BestBirds, population: &Vec<Bird>)
    ensures
        final(best_birds)@ == selected(
            old(best_birds)@,
            bird_models(population@),
            population@.len(),
        ),
{
    let ghost start = best_birds@;
    let mut i: usize = 0;
    while i < population.len()
        invariant
            i <= population.len(),
            best_birds@ == selected(start, bird_models(population@), i as nat),
        decreases population.len() - i,
    {
        if population[i].dead {
            best_birds.consider(&population[i]);
        }
        i += 1;
    }
}

/// Where an individual touched an obstacle.
#[derive(Clone, Copy, Debug, PartialEq, Eq, Structural)]
pub enum Collision {
    Left,
    Right,
    Top,
    Bottom,
    Inside,
}

/// A touch on the left, the top or the bottom kills; one on the right or
/// from inside does not.
pub open spec fn lethal(c: Collision) -> bool {
    c == Collision::Left || c == Collision::Top || c == Collision::Bottom
}

/// How many of the first `n` collisions kill.
pub open spec fn lethal_count(collisions: Seq<Collision>, n: nat) -> nat
    decreases n,
{
    if n == 0 {
        0
    } else {
        lethal_count(collisions, (n - 1) as nat) + if lethal(collisions[n - 1]) {
            1nat
        } else {
            0nat
        }
    }
}

/// A counter raised by `by`; it stops at the largest value.
pub open spec fn raised(count: usize, by: nat) -> usize {
    if count + by <= usize::MAX {
        (count + by) as usize
    } else {
        usize::MAX
    }
}

/// The individual after its collisions: dead where one of them kills.
pub open spec fn collided(b: BirdModel, collisions: Seq<Collision>) -> BirdModel {
    BirdModel {
        score: b.score,
        fitness: b.fitness,
        dead: b.dead || lethal_count(collisions, collisions.len()) > 0,
        neural_network: b.neural_network,
    }
}

/// The parameters after an individual's collisions: each collision that
/// kills is counted, and the generation is dead once the count equals the
/// size of the population.
pub open spec fn counted(p: GuiParameters, collisions: Seq<Collision>) -> GuiParameters {
    let count = raised(p.dead_bird_count, lethal_count(collisions, collisions.len()));
    GuiParameters {
        population_size: p.population_size,
        dead_bird_count: count,
        current_score: p.current_score,
        generation_dead: p.generation_dead || count == p.population_size,
        mutation_rate: p.mutation_rate,
        mutation_probability: p.mutation_probability,
        current_generation: p.current_generation,
        start_training: p.start_training,
    }
}

/// Takes in the collisions of one individual in one tick. While the
/// engine does not run, nothing changes. Else each collision that kills
/// marks the individual dead and is counted; a dead individual is looked at
/// for the best two; and the generation is dead once the count equals the
/// size of the population. Returns whether the individual is to leave.
pub fn check_collision(
    bird: &mut Bird,
    collisions: &Vec<Collision>,
    params: &mut GuiParameters,
    best_birds: &mut BestBirds,
) -> (leaves: bool)
    ensures
        !old(params).start_training ==> {
            &&& !leaves
            &&& final(bird)@ == old(bird)@
            &&& *final(params) == *old(params)
            &&& final(best_birds)@ == old(best_birds)@
        },
        old(params).start_training ==> {
            &&& leaves == final(bird)@.dead
            &&& final(bird)@ == collided(old(bird)@, collisions@)
            &&& *final(params) == counted(*old(params), collisions@)
            &&& final(best_birds)@ == if final(bird)@.dead {
                considered(old(best_birds)@, final(bird)@)
            } else {
                old(best_birds)@
            }
        },
{
    if !params.start_training {
        return false;
    }
    let mut i: usize = 0;
    while i < collisions.len()
        invariant
            i <= collisions.len(),
            bird@.score == old(bird)@.score,
            bird@.fitness == old(bird)@.fitness,
            bird@.neural_network == old(bird)@.neural_network,
            bird@.dead == (old(bird)@.dead || lethal_count(collisions@, i as nat) > 0),
            params.dead_bird_count == raised(
                old(params).dead_bird_count,
                lethal_count(collisions@, i as nat),
            ),
            params.population_size == old(params).population_size,
            params.current_score == old(params).current_score,
            params.generation_dead == old(params).generation_dead,
            params.mutation_rate == old(params).mutation_rate,
            params.mutation_probability == old(params).mutation_probability,
            params.current_generation == old(params).current_generation,
            params.start_training == old(params).start_training,
            best_birds@ == old(best_birds)@,
        decreases collisions.len() - i,
    {
        match collisions[i] {
            Collision::Left | Collision::Top | Collision::Bottom => {
                bird.dead = true;
                if params.dead_bird_count < usize::MAX {
                    params.dead_bird_count = params.dead_bird_count + 1;
                }
            },
            Collision::Right | Collision::Inside => {},
        }
        i += 1;
    }
    if bird.dead {
        best_birds.consider(bird);
    }
    if params.dead_bird_count == params.population_size {
        params.generation_dead = true;
    }
    bird.dead
}

/// Whether an individual jumps on `input`: where the first output of its
/// network is above one half.
pub fn should_jump(network: &NeuralNetwork, input: &[Fixed]) -> (jump: bool)
    ensures
        jump == (forward_spec(network@, input@)[0].raw > JUMP_THRESHOLD_RAW),
{
    proof {
        use_type_invariant(network);
        lemma_forward_width(network@, input@);
    }
    let output: Vec<Fixed> = network.forward(input);
    output[0].raw > JUMP_THRESHOLD_RAW
}

/// A remembered individual with a score at or below the floor has shown
/// nothing yet.
pub open spec fn untrained(score: Fixed) -> bool {
    score.raw <= SCORE_FLOOR_RAW
}

/// A fresh network: well formed, of the given layer sizes, with every
/// weight and bias in `[-1, 1)`.
pub open spec fn is_fresh_network(net: Seq<LayerModel>, sizes: Seq<usize>) -> bool {
    &&& network_ok(net)
    &&& topology(net) == widths(sizes)
    &&& entries_within(net, -ONE_RAW, ONE_RAW - 1)
}

/// What stands in for a remembered network as a parent: the network
/// itself, or a fresh one where the remembered individual is untrained.
pub open spec fn is_parent(p: Seq<LayerModel>, held: Seq<LayerModel>, renewed: bool, sizes: Seq<usize>) -> bool {
    if renewed {
        is_fresh_network(p, sizes)
    } else {
        p == held
    }
}

/// The layer sizes of the parent that stands in for a remembered network.
pub open spec fn parent_sizes(held: Seq<LayerModel>, renewed: bool, sizes: Seq<usize>) -> Seq<nat> {
    if renewed {
        widths(sizes)
    } else {
        topology(held)
    }
}

/// A newborn whose network is what a mutation can leave of `origin`.
pub open spec fn is_mutant_of(
    child: BirdModel,
    origin: Seq<LayerModel>,
    probability: Fixed,
    rate: Fixed,
) -> bool {
    &&& child == newborn(child.neural_network)
    &&& is_mutate_outcome(origin, child.neural_network, probability, rate)
}

/// A newborn bred from the parents `a` and `b`: their child by averaging,
/// then mutated.
pub open spec fn is_bred_from(
    child: BirdModel,
    a: Seq<LayerModel>,
    b: Seq<LayerModel>,
    probability: Fixed,
    rate: Fixed,
) -> bool {
    is_mutant_of(child, crossover_spec(a, b), probability, rate)
}

/// A newborn bred from what stands in for the best two.
pub open spec fn is_offspring(child: BirdModel, best: BestModel, sizes: Seq<usize>, p: GuiParameters) -> bool {
    exists|a: Seq<LayerModel>, b: Seq<LayerModel>|
        {
            &&& is_parent(a, best.best_neural_network, untrained(best.best_score), sizes)
            &&& is_parent(
                b,
                best.second_best_neural_network,
                untrained(best.second_best_score),
                sizes,
            )
            &&& #[trigger] is_bred_from(child, a, b, p.mutation_probability, p.mutation_rate)
        }
}

/// A newborn with a fresh network.
pub open spec fn is_fresh(child: BirdModel, sizes: Seq<usize>) -> bool {
    &&& child == newborn(child.neural_network)
    &&& is_fresh_network(child.neural_network, sizes)
}

/// The parameters once a generation has been bred: the counters of the
/// generation are back at zero, the generation counter is one higher, and
/// the mutation probability has shrunk where `decayed` says so.
pub open spec fn regenerated(p: GuiParameters, decayed: bool) -> GuiParameters {
    GuiParameters {
        population_size: p.population_size,
        dead_bird_count: 0,
        current_score: Fixed::zero_spec(),
        generation_dead: false,
        mutation_rate: p.mutation_rate,
        mutation_probability: if decayed {
            p.mutation_probability.mul_spec(Fixed { raw: PROBABILITY_DECAY_RAW })
        } else {
            p.mutation_probability
        },
        current_generation: raised(p.current_generation, 1),
        start_training: p.start_training,
    }
}

/// Why no generation can be bred from the best two, if so: a fresh parent
/// is needed and the layer sizes for it are not valid, or the two parents
/// would not have the same layer sizes.
pub open spec fn breeding_error(best: BestModel, sizes: Seq<usize>, population_size: usize) -> Option<
    NetworkError,
> {
    let renew_a = untrained(best.best_score);
    let renew_b = untrained(best.second_best_score);
    if population_size == 0 {
        None
    } else if (renew_a || renew_b) && !valid_sizes(sizes) {
        Some(NetworkError::InvalidTopology)
    } else if parent_sizes(best.best_neural_network, renew_a, sizes) != parent_sizes(
        best.second_best_neural_network,
        renew_b,
        sizes,
    ) {
        Some(NetworkError::TopologyMismatch)
    } else {
        None
    }
}

/// The generation is dead and the engine runs: the next one is due.
pub open spec fn generation_due(p: GuiParameters) -> bool {
    p.generation_dead && p.start_training
}

fn sizes_match(a: &[usize], b: &[usize]) -> (same: bool)
    ensures
        same == (widths(a@) == widths(b@)),
{
    if a.len() != b.len() {
        assert(widths(a@).len() != widths(b@).len());
        return false;
    }
    let mut k: usize = 0;
    while k < a.len()
        invariant
            k <= a.len(),
            a@.len() == b@.len(),
            forall|j: int| 0 <= j < k ==> a@[j] == b@[j],
        decreases a.len() - k,
    {
        if a[k] != b[k] {
            assert(widths(a@)[k as int] != widths(b@)[k as int]);
            return false;
        }
        k += 1;
    }
    assert(widths(a@) =~= widths(b@));
    true
}

/// A child of two parents of one topology: their average, then mutated
/// with the probability and rate of `params`.
pub fn breed(parent_a: &NeuralNetwork, parent_b: &NeuralNetwork, params: &GuiParameters) -> (r: Result<
    Bird,
    NetworkError,
>)
    ensures
        topology(parent_a@) == topology(parent_b@) <==> r is Ok,
        r matches Ok(child) ==> {
            &&& is_bred_from(
                child@,
                parent_a@,
                parent_b@,
                params.mutation_probability,
                params.mutation_rate,
            )
            &&& topology(child@.neural_network) == topology(parent_a@)
        },
        r matches Err(e) ==> e == NetworkError::TopologyMismatch,
{
    match crossover_average(parent_a.clone(), parent_b.clone()) {
        Ok(child) => {
            let mut network: NeuralNetwork = child;
            mutate(&mut network, params.mutation_probability, params.mutation_rate);
            Ok(Bird::new(network))
        },
        Err(e) => Err(e),
    }
}

/// A newborn with a mutated copy of `origin`.
pub fn mutated_copy(origin: &NeuralNetwork, params: &GuiParameters) -> (child: Bird)
    ensures
        is_mutant_of(child@, origin@, params.mutation_probability, params.mutation_rate),
        topology(child@.neural_network) == topology(origin@),
{
    let mut network: NeuralNetwork = origin.clone();
    mutate(&mut network, params.mutation_probability, params.mutation_rate);
    Bird::new(network)
}

fn regenerate(params: &mut GuiParameters, decay_on_new_count: bool)
    ensures
        *final(params) == regenerated(
            *old(params),
            if decay_on_new_count {
                raised(old(params).current_generation, 1) % DECAY_PERIOD == 0
            } else {
                old(params).current_generation % DECAY_PERIOD == 0
            },
        ),
{
    let before: usize = params.current_generation;
    let after: usize = if before < usize::MAX {
        before + 1
    } else {
        before
    };
    let decayed: bool = if decay_on_new_count {
        after % DECAY_PERIOD == 0
    } else {
        before % DECAY_PERIOD == 0
    };
    if decayed {
        params.mutation_probability = params.mutation_probability.saturating_mul(
            Fixed::from_raw(PROBABILITY_DECAY_RAW),
        );
    }
    params.generation_dead = false;
    params.dead_bird_count = 0;
    params.current_score = Fixed::zero();
    params.current_generation = after;
}

/// Breeds the next generation once the running one is dead. For each of
/// the `population_size` children, a remembered individual that is untrained
/// is first replaced by a fresh network of the sizes `network_size`; the
/// child is the average of the best two, mutated. Then the counters of the
/// generation go back to zero, the generation counter goes up, and where the
/// old generation counter is a multiple of ten the mutation probability
/// shrinks by a tenth. While no generation is due, nothing happens and no
/// child is returned. Where no child can be bred, nothing changes.
pub fn generate_next_generation(
    params: &mut GuiParameters,
    best_birds: &mut BestBirds,
    network_size: &[usize],
) -> (r: Result<Vec<Bird>, NetworkError>)
    ensures
        !generation_due(*old(params)) ==> {
            &&& r matches Ok(children) && children@.len() == 0
            &&& *final(params) == *old(params)
            &&& final(best_birds)@ == old(best_birds)@
        },
        generation_due(*old(params)) ==> match breeding_error(
            old(best_birds)@,
            network_size@,
            old(params).population_size,
        ) {
            Some(e) => {
                &&& r matches Err(x) && x == e
                &&& *final(params) == *old(params)
                &&& final(best_birds)@ == old(best_birds)@
            },
            None => {
                &&& r matches Ok(children) && children@.len() == old(params).population_size
                    && forall|k: int|
                    0 <= k < children@.len() ==> is_offspring(
                        #[trigger] children@[k]@,
                        old(best_birds)@,
                        network_size@,
                        *old(params),
                    )
                &&& *final(params) == regenerated(
                    *old(params),
                    old(params).current_generation % DECAY_PERIOD == 0,
                )
                &&& final(best_birds)@.best_score == old(best_birds)@.best_score
                &&& final(best_birds)@.second_best_score == old(best_birds)@.second_best_score
                &&& final(best_birds)@.best_fitness == old(best_birds)@.best_fitness
                &&& final(best_birds)@.second_best_fitness == old(best_birds)@.second_best_fitness
                &&& is_parent(
                    final(best_birds)@.best_neural_network,
                    old(best_birds)@.best_neural_network,
                    untrained(old(best_birds)@.best_score) && old(params).population_size > 0,
                    network_size@,
                )
                &&& is_parent(
                    final(best_birds)@.second_best_neural_network,
                    old(best_birds)@.second_best_neural_network,
                    untrained(old(best_birds)@.second_best_score) && old(params).population_size > 0,
                    network_size@,
                )
            },
        },
{
    if !params.generation_dead || !params.start_training {
        return Ok(Vec::new());
    }
    let ghost held = best_birds@;
    let ghost start = *params;
    let renew_best: bool = best_birds.best_score.raw <= SCORE_FLOOR_RAW;
    let renew_second: bool = best_birds.second_best_score.raw <= SCORE_FLOOR_RAW;
    proof {
        use_type_invariant(&best_birds.best_neural_network);
        use_type_invariant(&best_birds.second_best_neural_network);
    }
    if params.population_size > 0 {
        if (renew_best || renew_second) && !NeuralNetwork::valid_topology(network_size) {
            return Err(NetworkError::InvalidTopology);
        }
        let best_sizes: Vec<usize> = best_birds.best_neural_network.sizes();
        let second_sizes: Vec<usize> = best_birds.second_best_neural_network.sizes();
        let same: bool = sizes_match(
            if renew_best {
                network_size
            } else {
                best_sizes.as_slice()
            },
            if renew_second {
                network_size
            } else {
                second_sizes.as_slice()
            },
        );
        if !same {
            return Err(NetworkError::TopologyMismatch);
        }
    }
    let mut children: Vec<Bird> = Vec::new();
    let mut i: usize = 0;
    while i < params.population_size
        invariant
            i <= params.population_size,
            *params == start,
            start.population_size > 0 ==> breeding_error(held, network_size@, start.population_size)
                is None,
            renew_best == untrained(held.best_score),
            renew_second == untrained(held.second_best_score),
            best_birds@.best_score == held.best_score,
            best_birds@.second_best_score == held.second_best_score,
            best_birds@.best_fitness == held.best_fitness,
            best_birds@.second_best_fitness == held.second_best_fitness,
            network_ok(held.best_neural_network),
            network_ok(held.second_best_neural_network),
            is_parent(
                best_birds@.best_neural_network,
                held.best_neural_network,
                renew_best && i > 0,
                network_size@,
            ),
            is_parent(
                best_birds@.second_best_neural_network,
                held.second_best_neural_network,
                renew_second && i > 0,
                network_size@,
            ),
            children@.len() == i,
            forall|k: int|
                0 <= k < i ==> is_offspring(#[trigger] children@[k]@, held, network_size@, start),
        decreases params.population_size - i,
    {
        if renew_best {
            match NeuralNetwork::new(network_size) {
                Ok(fresh) => {
                    proof {
                        use_type_invariant(&fresh);
                    }
                    best_birds.best_neural_network = fresh;
                },
                Err(_) => {},
            }
        }
        if renew_second {
            match NeuralNetwork::new(network_size) {
                Ok(fresh) => {
                    proof {
                        use_type_invariant(&fresh);
                    }
                    best_birds.second_best_neural_network = fresh;
                },
                Err(_) => {},
            }
        }
        let ghost a = best_birds@.best_neural_network;
        let ghost b = best_birds@.second_best_neural_network;
        assert(is_parent(a, held.best_neural_network, renew_best, network_size@));
        assert(is_parent(b, held.second_best_neural_network, renew_second, network_size@));
        assert(topology(a) == topology(b));
        match breed(&best_birds.best_neural_network, &best_birds.second_best_neural_network, params) {
            Ok(child) => {
                assert(is_bred_from(child@, a, b, start.mutation_probability, start.mutation_rate));
                children.push(child);
            },
            Err(_) => {},
        }
        i += 1;
    }
    regenerate(params, false);
    Ok(children)
}

/// Breeds the next generation in three parts once the running one is
/// dead: half of the children are mutated copies of the best, a quarter are
/// mutated copies of the second-best, and the rest have fresh networks of the
/// sizes `network_size`. Then the counters of the generation go back to
/// zero, the generation counter goes up, and where the new generation
/// counter is a multiple of ten the mutation probability shrinks by a tenth.
/// While no generation is due, nothing happens and no child is returned.
/// Where the layer sizes are not valid and a child is asked for, nothing
/// changes.
pub fn generate_next_generation_thirds(
    params: &mut GuiParameters,
    best_birds: &BestBirds,
    network_size: &[usize],
) -> (r: Result<Vec<Bird>, NetworkError>)
    ensures
        !generation_due(*old(params)) ==> {
            &&& r matches Ok(children) && children@.len() == 0
            &&& *final(params) == *old(params)
        },
        generation_due(*old(params)) && old(params).population_size > 0 && !valid_sizes(
            network_size@,
        ) ==> {
            &&& r matches Err(e) && e == NetworkError::InvalidTopology
            &&& *final(params) == *old(params)
        },
        generation_due(*old(params)) && (old(params).population_size == 0 || valid_sizes(
            network_size@,
        )) ==> {
            &&& r matches Ok(children) && children@.len() == old(params).population_size && forall|
                k: int,
            |
                0 <= k < children@.len() ==> if k < old(params).population_size / 2 {
                    is_mutant_of(
                        #[trigger] children@[k]@,
                        best_birds@.best_neural_network,
                        old(params).mutation_probability,
                        old(params).mutation_rate,
                    )
                } else if k < old(params).population_size / 2 + old(params).population_size / 4 {
                    is_mutant_of(
                        children@[k]@,
                        best_birds@.second_best_neural_network,
                        old(params).mutation_probability,
                        old(params).mutation_rate,
                    )
                } else {
                    is_fresh(children@[k]@, network_size@)
                }
            &&& *final(params) == regenerated(
                *old(params),
                raised(old(params).current_generation, 1) % DECAY_PERIOD == 0,
            )
        },
{
    if !params.generation_dead || !params.start_training {
        return Ok(Vec::new());
    }
    if params.population_size > 0 && !NeuralNetwork::valid_topology(network_size) {
        return Err(NetworkError::InvalidTopology);
    }
    let ghost start = *params;
    let total: usize = params.population_size;
    let half: usize = total / 2;
    let quarter: usize = total / 4;
    let mut children: Vec<Bird> = Vec::new();
    let mut i: usize = 0;
    while i < total
        invariant
            i <= total,
            *params == start,
            total == start.population_size,
            half == total / 2,
            quarter == total / 4,
            total > 0 ==> valid_sizes(network_size@),
            children@.len() == i,
            forall|k: int|
                0 <= k < i ==> if k < half {
                    is_mutant_of(
                        #[trigger] children@[k]@,
                        best_birds@.best_neural_network,
                        start.mutation_probability,
                        start.mutation_rate,
                    )
                } else if k < half + quarter {
                    is_mutant_of(
                        children@[k]@,
                        best_birds@.second_best_neural_network,
                        start.mutation_probability,
                        start.mutation_rate,
                    )
                } else {
                    is_fresh(children@[k]@, network_size@)
                },
        decreases total - i,
    {
        if i < half {
            children.push(mutated_copy(&best_birds.best_neural_network, params));
        } else if i < half + quarter {
            children.push(mutated_copy(&best_birds.second_best_neural_network, params));
        } else {
            match NeuralNetwork::new(network_size) {
                Ok(fresh) => {
                    proof {
                        use_type_invariant(&fresh);
                    }
                    children.push(Bird::new(fresh));
                },
                Err(_) => {},
            }
        }
        i += 1;
    }
    regenerate(params, true);
    Ok(children)
}

} // verus!

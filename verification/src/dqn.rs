//! A deep Q-learning agent: a live network, a target network that is synced
//! from it now and then, a bounded replay buffer, and epsilon-greedy choice
//! of actions.
use vstd::prelude::*;
use crate::fixed::Fixed;
use crate::fixed::ONE_RAW;
use crate::fixed::lemma_power_of_fraction;
use crate::fixed::lemma_product_of_fractions;
use crate::neural_network::NeuralNetwork;
use crate::neural_network::LayerModel;
use crate::neural_network::network_ok;
use crate::neural_network::matrix;
use crate::neural_network::topology;
use crate::neural_network::forward_spec;
use crate::neural_network::all_activations;
use crate::neural_network::all_weighted_sums;
use crate::neural_network::backward_spec;
use crate::neural_network::copy_slice;
use crate::neural_network::lemma_intermediate_shapes;
use crate::neural_network::lemma_backward_shape;
use crate::neural_network::lemma_forward_width;
use crate::random::random_between;
use crate::random::random_index;
use crate::random::sample_indices;

verus! {

/// How many actions an agent chooses among when it explores.
pub const ACTION_COUNT: usize = 4;

/// The raw value of the default discount factor, 0.99.
pub const DEFAULT_GAMMA_RAW: i64 = 4252017623;

/// The raw value of the default final exploration rate, 0.9.
pub const DEFAULT_EPSILON_END_RAW: i64 = 3865470566;

/// The raw value of the default decay of the exploration rate, 0.995.
pub const DEFAULT_EPSILON_DECAY_RAW: i64 = 4273492460;

/// What the caller sets for an agent. The agent reads it at each call and
/// never writes it.
#[derive(Clone, Copy, Debug)]
pub struct GuiParameters {
    /// How many experiences the replay buffer keeps.
    pub replay_buffer_size: usize,
    /// How many experiences one training step samples.
    pub batch_size: usize,
    /// The discount factor.
    pub gamma: Fixed,
    /// The exploration rate of an agent without experience.
    pub epsilon_start: Fixed,
    /// The exploration rate that the decay approaches.
    pub epsilon_end: Fixed,
    /// The factor by which each stored experience shrinks the decaying part.
    pub epsilon_decay: Fixed,
    /// Whether an agent is to be spawned.
    pub start: bool,
    pub episode_counter: usize,
    /// After how many training steps the caller syncs the target network.
    pub episode_size: usize,
}

impl Default for GuiParameters {
    fn default() -> (p: Self)
        ensures
            p.replay_buffer_size == 10000,
            p.batch_size == 32,
            p.gamma.raw == DEFAULT_GAMMA_RAW,
            p.epsilon_start.raw == ONE_RAW,
            p.epsilon_end.raw == DEFAULT_EPSILON_END_RAW,
            p.epsilon_decay.raw == DEFAULT_EPSILON_DECAY_RAW,
            !p.start,
            p.episode_counter == 0,
            p.episode_size == 100,
    {
        GuiParameters {
            replay_buffer_size: 10000,
            batch_size: 32,
            gamma: Fixed::from_raw(DEFAULT_GAMMA_RAW),
            epsilon_start: Fixed::from_raw(ONE_RAW),
            epsilon_end: Fixed::from_raw(DEFAULT_EPSILON_END_RAW),
            epsilon_decay: Fixed::from_raw(DEFAULT_EPSILON_DECAY_RAW),
            start: false,
            episode_counter: 0,
            episode_size: 100,
        }
    }
}

impl GuiParameters {
    /// Whether the two exploration rates are probabilities.
    pub fn is_valid(&self) -> (valid: bool)
        ensures
            valid == (self.epsilon_start.is_probability_spec()
                && self.epsilon_end.is_probability_spec()),
    {
        self.epsilon_start.is_probability() && self.epsilon_end.is_probability()
    }
}

/// The content of one transition.
pub struct ExperienceModel {
    pub state: Seq<Fixed>,
    pub action: nat,
    pub reward: Fixed,
    pub next_state: Seq<Fixed>,
    pub done: bool,
}

/// One transition: the state, the action taken in it, the reward, the
/// state that followed and whether the episode ended there.
#[derive(Debug)]
pub struct Experience {
    pub state: Vec<Fixed>,
    pub action: usize,
    pub reward: Fixed,
    pub next_state: Vec<Fixed>,
    pub done: bool,
}

impl View for Experience {
    type V = ExperienceModel;

    open spec fn view(&self) -> ExperienceModel {
        ExperienceModel {
            state: self.state@,
            action: self.action as nat,
            reward: self.reward,
            next_state: self.next_state@,
            done: self.done,
        }
    }
}

impl Clone for Experience {
    fn clone(&self) -> (r: Self)
        ensures
            r@ == self@,
    {
        Experience {
            state: copy_slice(self.state.as_slice()),
            action: self.action,
            reward: self.reward,
            next_state: copy_slice(self.next_state.as_slice()),
            done: self.done,
        }
    }
}

/// The transition that the five values make.
pub open spec fn experience_model(
    state: Seq<Fixed>,
    action: nat,
    reward: Fixed,
    next_state: Seq<Fixed>,
    done: bool,
) -> ExperienceModel {
    ExperienceModel { state, action, reward, next_state, done }
}

/// The models of a sequence of experiences.
pub open spec fn experience_models(items: Seq<Experience>) -> Seq<ExperienceModel> {
    Seq::new(items.len(), |i: int| items[i]@)
}

/// The buffer after one more experience: where the buffer holds `capacity`
/// experiences or more, the oldest leaves first.
pub open spec fn pushed(
    items: Seq<ExperienceModel>,
    e: ExperienceModel,
    capacity: nat,
) -> Seq<ExperienceModel> {
    if items.len() >= capacity && items.len() > 0 {
        items.subrange(1, items.len() as int).push(e)
    } else {
        items.push(e)
    }
}

/// The buffer after the first `n` of `es` were pushed, in their order.
pub open spec fn pushed_all(
    items: Seq<ExperienceModel>,
    es: Seq<ExperienceModel>,
    capacity: nat,
    n: nat,
) -> Seq<ExperienceModel>
    decreases n,
{
    if n == 0 {
        items
    } else {
        pushed(pushed_all(items, es, capacity, (n - 1) as nat), es[n - 1], capacity)
    }
}

/// The last `capacity` elements of a sequence, or all of it where it is
/// shorter.
pub open spec fn newest(items: Seq<ExperienceModel>, capacity: nat) -> Seq<ExperienceModel> {
    if items.len() <= capacity {
        items
    } else {
        items.subrange(items.len() - capacity, items.len() as int)
    }
}

/// Pushing into a buffer that is within its capacity leaves the newest
/// `capacity` experiences of those it held and those pushed, oldest first.
pub proof fn lemma_buffer_keeps_newest(
    items: Seq<ExperienceModel>,
    es: Seq<ExperienceModel>,
    capacity: nat,
    n: nat,
)
    requires
        capacity >= 1,
        items.len() <= capacity,
        n <= es.len(),
    ensures
        pushed_all(items, es, capacity, n) == newest(items + es.subrange(0, n as int), capacity),
        pushed_all(items, es, capacity, n).len() <= capacity,
    decreases n,
{
    if n == 0 {
        assert(items + es.subrange(0, 0) =~= items);
    } else {
        lemma_buffer_keeps_newest(items, es, capacity, (n - 1) as nat);
        let before = items + es.subrange(0, n - 1);
        let all = items + es.subrange(0, n as int);
        assert(all =~= before.push(es[n - 1]));
        assert(pushed(newest(before, capacity), es[n - 1], capacity) =~= newest(all, capacity));
    }
}

/// A bounded first-in, first-out store of experiences: once it holds as
/// many as its capacity, each new one makes the oldest leave.
#[derive(Debug)]
pub struct ReplayBuffer {
    items: Vec<Experience>,
    capacity: usize,
}

impl View for ReplayBuffer {
    type V = Seq<ExperienceModel>;

    closed spec fn view(&self) -> Seq<ExperienceModel> {
        experience_models(self.items@)
    }
}

impl ReplayBuffer {
    /// How many experiences the buffer keeps.
    pub closed spec fn limit(&self) -> nat {
        self.capacity as nat
    }

    /// An empty buffer that keeps `capacity` experiences.
    pub fn new(capacity: usize) -> (b: ReplayBuffer)
        ensures
            b@ == Seq::<ExperienceModel>::empty(),
            b.limit() == capacity,
    {
        let b = ReplayBuffer { items: Vec::with_capacity(capacity), capacity };
        assert(b@ =~= Seq::<ExperienceModel>::empty());
        b
    }

    /// How many experiences the buffer keeps.
    pub fn capacity(&self) -> (n: usize)
        ensures
            n == self.limit(),
    {
        self.capacity
    }

    /// Changes how many experiences the buffer keeps. What it holds stays;
    /// a buffer that holds more than its new capacity loses one with each push.
    pub fn set_capacity(&mut self, capacity: usize)
        ensures
            final(self)@ == old(self)@,
            final(self).limit() == capacity,
    {
        self.capacity = capacity;
    }

    /// How many experiences the buffer holds.
    pub fn len(&self) -> (n: usize)
        ensures
            n == self@.len(),
    {
        self.items.len()
    }

    /// The experiences, oldest first.
    pub fn items(&self) -> (items: &Vec<Experience>)
        ensures
            experience_models(items@) == self@,
    {
        &self.items
    }

    /// Appends an experience. Where the buffer already holds as many
    /// experiences as its capacity, or more, the oldest one leaves first.
    pub fn push(&mut self, experience: Experience)
        ensures
            final(self)@ == pushed(old(self)@, experience@, old(self).limit()),
            final(self).limit() == old(self).limit(),
    {
        if self.items.len() >= self.capacity && self.items.len() > 0 {
            self.items.remove(0);
        }
        self.items.push(experience);
        assert(self@ =~= pushed(old(self)@, experience@, old(self).limit()));
    }
}

impl Clone for ReplayBuffer {
    fn clone(&self) -> (r: Self)
        ensures
            r@ == self@,
            r.limit() == self.limit(),
    {
        let mut items: Vec<Experience> = Vec::new();
        let mut i: usize = 0;
        while i < self.items.len()
            invariant
                i <= self.items.len(),
                items@.len() == i,
                forall|k: int| 0 <= k < i ==> (#[trigger] items@[k])@ == self.items@[k]@,
            decreases self.items.len() - i,
        {
            items.push(self.items[i].clone());
            i += 1;
        }
        assert(experience_models(items@) =~= experience_models(self.items@));
        ReplayBuffer { items, capacity: self.capacity }
    }
}

/// What an agent holds.
pub struct AgentModel {
    pub q_network: Seq<LayerModel>,
    pub target_network: Seq<LayerModel>,
    pub replay_buffer: Seq<ExperienceModel>,
    pub epsilon: Fixed,
    pub training_counter: nat,
    /// How many experiences the replay buffer keeps.
    pub buffer_limit: nat,
}

/// The experience can be replayed on the network: its state has the
/// network's input width and its action is one of the network's outputs.
pub open spec fn experience_fits(e: ExperienceModel, q: Seq<LayerModel>) -> bool {
    &&& e.state.len() == topology(q)[0]
    &&& e.action < topology(q).last()
}

/// Both networks are well formed and every stored experience can be
/// replayed on the live network.
pub open spec fn agent_ok(m: AgentModel) -> bool {
    &&& network_ok(m.q_network)
    &&& network_ok(m.target_network)
    &&& forall|i: int|
        0 <= i < m.replay_buffer.len() ==> experience_fits(#[trigger] m.replay_buffer[i], m.q_network)
}

/// `a` is the greedy choice among `values`: the place of the greatest
/// value, the last such place where several hold it, and zero where there is
/// no value at all.
pub open spec fn is_greedy_choice(values: Seq<Fixed>, a: nat) -> bool {
    if values.len() == 0 {
        a == 0
    } else {
        &&& a < values.len()
        &&& forall|j: int| 0 <= j < values.len() ==> values[j].raw <= values[a as int].raw
        &&& forall|j: int| a < j < values.len() ==> values[j].raw < values[a as int].raw
    }
}

/// The greatest of the first `n` values; zero where `n` is zero.
pub open spec fn max_prefix(values: Seq<Fixed>, n: nat) -> Fixed
    decreases n,
{
    if n == 0 {
        Fixed::zero_spec()
    } else if n == 1 {
        values[0]
    } else {
        let before = max_prefix(values, (n - 1) as nat);
        if values[n - 1].raw > before.raw {
            values[n - 1]
        } else {
            before
        }
    }
}

/// The greatest value; zero for no values.
pub open spec fn max_value(values: Seq<Fixed>) -> Fixed {
    max_prefix(values, values.len())
}

/// The greatest of the first `n` values is one of them and none of them is
/// greater.
pub proof fn lemma_max_prefix(values: Seq<Fixed>, n: nat)
    requires
        1 <= n <= values.len(),
    ensures
        exists|i: int| 0 <= i < n && #[trigger] values[i] == max_prefix(values, n),
        forall|j: int| 0 <= j < n ==> (#[trigger] values[j]).raw <= max_prefix(values, n).raw,
    decreases n,
{
    if n == 1 {
        assert(values[0] == max_prefix(values, n));
    } else {
        lemma_max_prefix(values, (n - 1) as nat);
        let before = max_prefix(values, (n - 1) as nat);
        let i = choose|i: int| 0 <= i < n - 1 && #[trigger] values[i] == before;
        if values[n - 1].raw > before.raw {
            assert(values[n - 1] == max_prefix(values, n));
        } else {
            assert(values[i] == max_prefix(values, n));
        }
    }
}

/// The value that the taken action should have had: the reward for a final
/// transition, else the reward plus the discounted best value that the
/// target network gives the next state.
pub open spec fn target_value(e: ExperienceModel, target_network: Seq<LayerModel>, gamma: Fixed) -> Fixed {
    if e.done {
        e.reward
    } else {
        e.reward.add_spec(gamma.mul_spec(max_value(forward_spec(target_network, e.next_state))))
    }
}

/// The live network's output for the state, with the taken action's value
/// replaced by the target value.
pub open spec fn target_vector(
    e: ExperienceModel,
    q_network: Seq<LayerModel>,
    target_network: Seq<LayerModel>,
    gamma: Fixed,
) -> Seq<Fixed> {
    forward_spec(q_network, e.state).update(
        e.action as int,
        target_value(e, target_network, gamma),
    )
}

/// The gradient of the loss at the output: the output less the target.
pub open spec fn loss_gradient(output: Seq<Fixed>, target: Seq<Fixed>) -> Seq<Fixed> {
    Seq::new(output.len(), |i: int| output[i].sub_spec(target[i]))
}

/// The network after it learned one example.
pub open spec fn learn_one(
    q_network: Seq<LayerModel>,
    state: Seq<Fixed>,
    target: Seq<Fixed>,
    rate: Fixed,
) -> Seq<LayerModel> {
    backward_spec(
        q_network,
        all_activations(q_network, state),
        all_weighted_sums(q_network, state),
        loss_gradient(forward_spec(q_network, state), target),
        rate,
    )
}

/// The network after it learned the first `n` examples, one after the
/// other, each on the weights that the one before it left.
pub open spec fn learn_batch(
    q_network: Seq<LayerModel>,
    states: Seq<Seq<Fixed>>,
    targets: Seq<Seq<Fixed>>,
    rate: Fixed,
    n: nat,
) -> Seq<LayerModel>
    decreases n,
{
    if n == 0 {
        q_network
    } else {
        learn_one(
            learn_batch(q_network, states, targets, rate, (n - 1) as nat),
            states[n - 1],
            targets[n - 1],
            rate,
        )
    }
}

/// The states of the sampled experiences.
pub open spec fn batch_states(buffer: Seq<ExperienceModel>, indices: Seq<usize>) -> Seq<Seq<Fixed>> {
    Seq::new(indices.len(), |j: int| buffer[indices[j] as int].state)
}

/// The target vectors of the sampled experiences, all taken from the
/// networks as they are before the step.
pub open spec fn batch_targets(m: AgentModel, indices: Seq<usize>, gamma: Fixed) -> Seq<Seq<Fixed>> {
    Seq::new(
        indices.len(),
        |j: int|
            target_vector(m.replay_buffer[indices[j] as int], m.q_network, m.target_network, gamma),
    )
}

/// The training counter after one more step; it stops at the largest
/// value.
pub open spec fn next_count(n: nat) -> nat {
    if n < usize::MAX {
        n + 1
    } else {
        n
    }
}

/// The agent after one training step on the sampled experiences.
pub open spec fn trained(m: AgentModel, indices: Seq<usize>, rate: Fixed, gamma: Fixed) -> AgentModel {
    AgentModel {
        q_network: learn_batch(
            m.q_network,
            batch_states(m.replay_buffer, indices),
            batch_targets(m, indices, gamma),
            rate,
            indices.len(),
        ),
        target_network: m.target_network,
        replay_buffer: m.replay_buffer,
        epsilon: m.epsilon,
        training_counter: next_count(m.training_counter),
        buffer_limit: m.buffer_limit,
    }
}

/// Every index points into a buffer of `len` experiences.
pub open spec fn indices_within(indices: Seq<usize>, len: nat) -> bool {
    forall|j: int| 0 <= j < indices.len() ==> #[trigger] indices[j] < len
}

/// The exploration rate of an agent that has stored `stored` experiences.
pub open spec fn epsilon_spec(params: GuiParameters, stored: nat) -> Fixed {
    params.epsilon_end.add_spec(
        params.epsilon_start.sub_spec(params.epsilon_end).mul_spec(
            params.epsilon_decay.powi_spec(stored),
        ),
    )
}

/// `after` is `before` after one training step on `batch_size` experiences
/// drawn from its buffer.
pub open spec fn is_training_step(
    before: AgentModel,
    after: AgentModel,
    batch_size: nat,
    rate: Fixed,
    gamma: Fixed,
) -> bool {
    exists|indices: Seq<usize>|
        {
            &&& indices.len() == batch_size
            &&& indices_within(indices, before.replay_buffer.len())
            &&& after == #[trigger] trained(before, indices, rate, gamma)
        }
}

/// With a start at or above the floor and a decay from zero to one, the
/// exploration rate stays from the floor to the start, however much
/// experience is stored.
pub proof fn lemma_epsilon_between_floor_and_start(params: GuiParameters, stored: nat)
    requires
        params.epsilon_start.is_probability_spec(),
        params.epsilon_end.is_probability_spec(),
        params.epsilon_decay.is_probability_spec(),
        params.epsilon_end.raw <= params.epsilon_start.raw,
    ensures
        params.epsilon_end.raw <= epsilon_spec(params, stored).raw <= params.epsilon_start.raw,
{
    let span = params.epsilon_start.sub_spec(params.epsilon_end);
    let power = params.epsilon_decay.powi_spec(stored);
    lemma_power_of_fraction(Fixed::one_spec(), params.epsilon_decay, stored);
    lemma_product_of_fractions(span, power);
}

/// Learning a batch keeps the layer sizes of the network.
pub proof fn lemma_learn_batch_shape(
    q_network: Seq<LayerModel>,
    states: Seq<Seq<Fixed>>,
    targets: Seq<Seq<Fixed>>,
    rate: Fixed,
    n: nat,
)
    requires
        network_ok(q_network),
    ensures
        network_ok(learn_batch(q_network, states, targets, rate, n)),
        topology(learn_batch(q_network, states, targets, rate, n)) == topology(q_network),
    decreases n,
{
    if n > 0 {
        lemma_learn_batch_shape(q_network, states, targets, rate, (n - 1) as nat);
        let q = learn_batch(q_network, states, targets, rate, (n - 1) as nat);
        lemma_backward_shape(
            q,
            all_activations(q, states[n - 1]),
            all_weighted_sums(q, states[n - 1]),
            loss_gradient(forward_spec(q, states[n - 1]), targets[n - 1]),
            rate,
        );
    }
}

/// A training step leaves the agent well formed.
pub proof fn lemma_trained_ok(m: AgentModel, indices: Seq<usize>, rate: Fixed, gamma: Fixed)
    requires
        agent_ok(m),
    ensures
        agent_ok(trained(m, indices, rate, gamma)),
        topology(trained(m, indices, rate, gamma).q_network) == topology(m.q_network),
{
    let t = trained(m, indices, rate, gamma);
    lemma_learn_batch_shape(
        m.q_network,
        batch_states(m.replay_buffer, indices),
        batch_targets(m, indices, gamma),
        rate,
        indices.len(),
    );
    assert forall|i: int| 0 <= i < t.replay_buffer.len() implies experience_fits(
        #[trigger] t.replay_buffer[i],
        t.q_network,
    ) by {
        assert(experience_fits(m.replay_buffer[i], m.q_network));
    }
}

/// An agent stays well formed while its live network and its buffer stay
/// as they are.
proof fn lemma_still_ok(before: AgentModel, after: AgentModel)
    requires
        agent_ok(before),
        after.q_network == before.q_network,
        after.replay_buffer == before.replay_buffer,
        network_ok(after.target_network),
    ensures
        agent_ok(after),
{
    assert forall|i: int| 0 <= i < after.replay_buffer.len() implies experience_fits(
        #[trigger] after.replay_buffer[i],
        after.q_network,
    ) by {
        assert(experience_fits(before.replay_buffer[i], before.q_network));
    }
}

/// The greedy choice among `values`: the place of the greatest value, the
/// last such place where several hold it, and zero where there is no value.
/// Every fixed-point value is finite, so every value takes part.
pub fn greedy_action(values: &Vec<Fixed>) -> (a: usize)
    ensures
        is_greedy_choice(values@, a as nat),
{
    let mut best: usize = 0;
    let mut j: usize = 1;
    while j < values.len()
        invariant
            1 <= j,
            best < j,
            values@.len() >= 1 ==> j <= values@.len(),
            values@.len() == 0 ==> best == 0,
            forall|k: int| 0 <= k < j && k < values@.len() ==> values@[k].raw <= values@[best as int].raw,
            forall|k: int|
                best < k < j && k < values@.len() ==> values@[k].raw < values@[best as int].raw,
        decreases values.len() - j,
    {
        if values[j].raw >= values[best].raw {
            best = j;
        }
        j += 1;
    }
    best
}

fn max_of(values: &Vec<Fixed>) -> (m: Fixed)
    ensures
        m == max_value(values@),
{
    if values.len() == 0 {
        return Fixed::zero();
    }
    let mut m: Fixed = values[0];
    let mut j: usize = 1;
    while j < values.len()
        invariant
            1 <= j <= values.len(),
            m == max_prefix(values@, j as nat),
        decreases values.len() - j,
    {
        if values[j].raw > m.raw {
            m = values[j];
        }
        j += 1;
    }
    m
}

fn loss_gradient_of(output: &Vec<Fixed>, target: &Vec<Fixed>) -> (d: Vec<Fixed>)
    requires
        output@.len() == target@.len(),
    ensures
        d@ == loss_gradient(output@, target@),
{
    let mut d: Vec<Fixed> = Vec::new();
    let mut i: usize = 0;
    while i < output.len()
        invariant
            i <= output.len(),
            output@.len() == target@.len(),
            d@.len() == i,
            forall|k: int| 0 <= k < i ==> #[trigger] d@[k] == output@[k].sub_spec(target@[k]),
        decreases output.len() - i,
    {
        d.push(output[i].saturating_sub(target[i]));
        i += 1;
    }
    assert(d@ =~= loss_gradient(output@, target@));
    d
}

/// Lets the network learn the examples one after the other, each on the
/// weights that the one before it left.
fn learn_examples(
    network: NeuralNetwork,
    states: &Vec<Vec<Fixed>>,
    targets: &Vec<Vec<Fixed>>,
    rate: Fixed,
) -> (r: NeuralNetwork)
    requires
        states@.len() == targets@.len(),
        forall|k: int|
            0 <= k < states@.len() ==> (#[trigger] states@[k])@.len() == topology(network@)[0],
        forall|k: int|
            0 <= k < targets@.len() ==> (#[trigger] targets@[k])@.len() == topology(
                network@,
            ).last(),
    ensures
        r@ == learn_batch(network@, matrix(states@), matrix(targets@), rate, states@.len()),
{
    let ghost start = network@;
    let ghost states_spec = matrix(states@);
    let ghost targets_spec = matrix(targets@);
    proof {
        use_type_invariant(&network);
    }
    let mut live: NeuralNetwork = network;
    let mut j: usize = 0;
    while j < states.len()
        invariant
            j <= states@.len(),
            states@.len() == targets@.len(),
            network_ok(start),
            states_spec == matrix(states@),
            targets_spec == matrix(targets@),
            forall|k: int|
                0 <= k < states@.len() ==> (#[trigger] states@[k])@.len() == topology(start)[0],
            forall|k: int|
                0 <= k < targets@.len() ==> (#[trigger] targets@[k])@.len() == topology(
                    start,
                ).last(),
            live@ == learn_batch(start, states_spec, targets_spec, rate, j as nat),
        decreases states@.len() - j,
    {
        proof {
            lemma_learn_batch_shape(start, states_spec, targets_spec, rate, j as nat);
            assert(states_spec[j as int] == states@[j as int]@);
            assert(targets_spec[j as int] == targets@[j as int]@);
            lemma_forward_width(live@, states@[j as int]@);
        }
        let (output, activations, sums) = live.forward_with_intermediates(states[j].as_slice());
        let d_loss: Vec<Fixed> = loss_gradient_of(&output, &targets[j]);
        proof {
            lemma_intermediate_shapes(live@, states@[j as int]@, d_loss@);
        }
        live.backward(&activations, &sums, d_loss, rate);
        j += 1;
    }
    live
}

/// A deep Q-learning agent.
#[derive(Debug)]
pub struct DeepQN {
    q_network: NeuralNetwork,
    target_network: NeuralNetwork,
    replay_buffer: ReplayBuffer,
    epsilon: Fixed,
    training_counter: usize,
}

impl View for DeepQN {
    type V = AgentModel;

    closed spec fn view(&self) -> AgentModel {
        AgentModel {
            q_network: self.q_network@,
            target_network: self.target_network@,
            replay_buffer: self.replay_buffer@,
            epsilon: self.epsilon,
            training_counter: self.training_counter as nat,
            buffer_limit: self.replay_buffer.limit(),
        }
    }
}

impl DeepQN {
    /// Both networks are well formed and every stored experience can be
    /// replayed on the live network, whatever has been done with the agent.
    #[verifier::type_invariant]
    pub open spec fn well_formed(&self) -> bool {
        agent_ok(self@)
    }

    /// An agent with the two networks, no experience, the starting
    /// exploration rate and a training counter of zero.
    pub fn new(q_network: NeuralNetwork, target_network: NeuralNetwork, params: &GuiParameters) -> (agent:
        DeepQN)
        ensures
            agent@.q_network == q_network@,
            agent@.target_network == target_network@,
            agent@.replay_buffer.len() == 0,
            agent@.epsilon == params.epsilon_start,
            agent@.training_counter == 0,
            agent@.buffer_limit == params.replay_buffer_size,
    {
        proof {
            use_type_invariant(&q_network);
            use_type_invariant(&target_network);
        }
        DeepQN {
            q_network,
            target_network,
            replay_buffer: ReplayBuffer::new(params.replay_buffer_size),
            epsilon: params.epsilon_start,
            training_counter: 0,
        }
    }

    /// The live network.
    pub fn q_network(&self) -> (n: &NeuralNetwork)
        ensures
            n@ == self@.q_network,
    {
        &self.q_network
    }

    /// The target network.
    pub fn target_network(&self) -> (n: &NeuralNetwork)
        ensures
            n@ == self@.target_network,
    {
        &self.target_network
    }

    /// The stored experiences.
    pub fn replay_buffer(&self) -> (b: &ReplayBuffer)
        ensures
            b@ == self@.replay_buffer,
            b.limit() == self@.buffer_limit,
    {
        &self.replay_buffer
    }

    /// The exploration rate.
    pub fn epsilon(&self) -> (e: Fixed)
        ensures
            e == self@.epsilon,
    {
        self.epsilon
    }

    /// How many training steps the agent has made.
    pub fn training_counter(&self) -> (n: usize)
        ensures
            n == self@.training_counter,
    {
        self.training_counter
    }

    /// The width of the states that the agent reads.
    pub fn state_size(&self) -> (n: usize)
        ensures
            n == topology(self@.q_network)[0],
    {
        self.q_network.input_size()
    }

    /// How many action values the live network gives.
    pub fn output_size(&self) -> (n: usize)
        ensures
            n == topology(self@.q_network).last(),
            n >= 1,
    {
        self.q_network.output_size()
    }

    /// The target network becomes a copy of the live network.
    pub fn update_target_network(&mut self)
        ensures
            final(self)@.target_network == old(self)@.q_network,
            final(self)@.q_network == old(self)@.q_network,
            final(self)@.replay_buffer == old(self)@.replay_buffer,
            final(self)@.epsilon == old(self)@.epsilon,
            final(self)@.training_counter == old(self)@.training_counter,
            final(self)@.buffer_limit == old(self)@.buffer_limit,
    {
        let copy: NeuralNetwork = self.q_network.clone();
        proof {
            use_type_invariant(&*self);
            let m = self@;
            lemma_still_ok(
                m,
                AgentModel {
                    q_network: m.q_network,
                    target_network: copy@,
                    replay_buffer: m.replay_buffer,
                    epsilon: m.epsilon,
                    training_counter: m.training_counter,
                    buffer_limit: m.buffer_limit,
                },
            );
        }
        self.target_network = copy;
    }

    /// The action for `state`, given the two random draws: where `draw` is
    /// below the exploration rate it is `random_action`, else the greedy
    /// choice among the live network's outputs.
    pub fn select_action(&self, state: &[Fixed], draw: Fixed, random_action: usize) -> (a: usize)
        ensures
            draw.raw < self@.epsilon.raw ==> a == random_action,
            draw.raw >= self@.epsilon.raw ==> is_greedy_choice(
                forward_spec(self@.q_network, state@),
                a as nat,
            ),
    {
        if draw.raw < self.epsilon.raw {
            random_action
        } else {
            let q_values: Vec<Fixed> = self.q_network.forward(state);
            greedy_action(&q_values)
        }
    }

    /// Chooses an action for `state`: with probability epsilon an action
    /// drawn uniformly from the `ACTION_COUNT` actions, else the greedy choice
    /// among the live network's outputs. The agent is not changed. What the
    /// two draws decide is what `select_action` says.
    pub fn choose_action(&mut self, state: &[Fixed]) -> (a: usize)
        ensures
            final(self)@ == old(self)@,
            a < ACTION_COUNT || is_greedy_choice(
                forward_spec(old(self)@.q_network, state@),
                a as nat,
            ),
            a < ACTION_COUNT || a < topology(old(self)@.q_network).last(),
            old(self)@.epsilon.raw >= ONE_RAW ==> a < ACTION_COUNT,
            old(self)@.epsilon.raw <= 0 ==> is_greedy_choice(
                forward_spec(old(self)@.q_network, state@),
                a as nat,
            ),
    {
        let draw: Fixed = Fixed::from_raw(random_between(0, ONE_RAW - 1));
        let random_action: usize = random_index(ACTION_COUNT);
        let a: usize = self.select_action(state, draw, random_action);
        proof {
            use_type_invariant(&self.q_network);
            lemma_forward_width(self@.q_network, state@);
        }
        a
    }

    /// Stores a transition. Where the buffer already holds
    /// `params.replay_buffer_size` experiences or more, the oldest one leaves
    /// first.
    pub fn store_experience(
        &mut self,
        state: Vec<Fixed>,
        action: usize,
        reward: Fixed,
        next_state: Vec<Fixed>,
        done: bool,
        params: &GuiParameters,
    )
        requires
            state@.len() == topology(old(self)@.q_network)[0],
            action < topology(old(self)@.q_network).last(),
        ensures
            final(self)@.replay_buffer == pushed(
                old(self)@.replay_buffer,
                experience_model(state@, action as nat, reward, next_state@, done),
                params.replay_buffer_size as nat,
            ),
            final(self)@.q_network == old(self)@.q_network,
            final(self)@.target_network == old(self)@.target_network,
            final(self)@.epsilon == old(self)@.epsilon,
            final(self)@.training_counter == old(self)@.training_counter,
            final(self)@.buffer_limit == params.replay_buffer_size,
    {
        proof {
            use_type_invariant(&*self);
        }
        let experience = Experience { state, action, reward, next_state, done };
        let ghost before = self@;
        let mut buffer: ReplayBuffer = ReplayBuffer::new(0);
        core::mem::swap(&mut self.replay_buffer, &mut buffer);
        buffer.set_capacity(params.replay_buffer_size);
        buffer.push(experience);
        proof {
            let after = buffer@;
            assert forall|i: int| 0 <= i < after.len() implies experience_fits(
                #[trigger] after[i],
                before.q_network,
            ) by {
                if i == after.len() - 1 {
                    assert(after[i] == experience@);
                } else if before.replay_buffer.len() >= params.replay_buffer_size
                    && before.replay_buffer.len() > 0 {
                    assert(after[i] == before.replay_buffer[i + 1]);
                    assert(experience_fits(before.replay_buffer[i + 1], before.q_network));
                } else {
                    assert(after[i] == before.replay_buffer[i]);
                    assert(experience_fits(before.replay_buffer[i], before.q_network));
                }
            }
        }
        core::mem::swap(&mut self.replay_buffer, &mut buffer);
    }

    /// Sets the exploration rate from how much experience is stored:
    /// `epsilon_end + (epsilon_start - epsilon_end) * epsilon_decay ^ stored`.
    pub fn update_epsilon(&mut self, params: &GuiParameters)
        ensures
            final(self)@.epsilon == epsilon_spec(*params, old(self)@.replay_buffer.len()),
            final(self)@.q_network == old(self)@.q_network,
            final(self)@.target_network == old(self)@.target_network,
            final(self)@.replay_buffer == old(self)@.replay_buffer,
            final(self)@.training_counter == old(self)@.training_counter,
            final(self)@.buffer_limit == old(self)@.buffer_limit,
    {
        let decayed: Fixed = params.epsilon_decay.powi(self.replay_buffer.len());
        let epsilon: Fixed = params.epsilon_end.saturating_add(
            params.epsilon_start.saturating_sub(params.epsilon_end).saturating_mul(decayed),
        );
        proof {
            use_type_invariant(&*self);
            let m = self@;
            lemma_still_ok(
                m,
                AgentModel {
                    q_network: m.q_network,
                    target_network: m.target_network,
                    replay_buffer: m.replay_buffer,
                    epsilon,
                    training_counter: m.training_counter,
                    buffer_limit: m.buffer_limit,
                },
            );
        }
        self.epsilon = epsilon;
    }

    /// The states and the target vectors of the experiences at `indices`,
    /// taken from the two networks as they are.
    fn batch_of(&self, indices: &Vec<usize>, gamma: Fixed) -> (r: (Vec<Vec<Fixed>>, Vec<Vec<Fixed>>))
        requires
            indices_within(indices@, self@.replay_buffer.len()),
        ensures
            r.0@.len() == indices@.len(),
            r.1@.len() == indices@.len(),
            matrix(r.0@) == batch_states(self@.replay_buffer, indices@),
            matrix(r.1@) == batch_targets(self@, indices@, gamma),
            forall|k: int|
                0 <= k < indices@.len() ==> (#[trigger] r.0@[k])@.len() == topology(
                    self@.q_network,
                )[0],
            forall|k: int|
                0 <= k < indices@.len() ==> (#[trigger] r.1@[k])@.len() == topology(
                    self@.q_network,
                ).last(),
    {
        proof {
            use_type_invariant(self);
        }
        let ghost states_spec = batch_states(self@.replay_buffer, indices@);
        let ghost targets_spec = batch_targets(self@, indices@, gamma);
        let mut states: Vec<Vec<Fixed>> = Vec::new();
        let mut targets: Vec<Vec<Fixed>> = Vec::new();
        let mut j: usize = 0;
        while j < indices.len()
            invariant
                j <= indices.len(),
                agent_ok(self@),
                indices_within(indices@, self@.replay_buffer.len()),
                states_spec == batch_states(self@.replay_buffer, indices@),
                targets_spec == batch_targets(self@, indices@, gamma),
                states@.len() == j,
                targets@.len() == j,
                forall|k: int| 0 <= k < j ==> (#[trigger] states@[k])@ == states_spec[k],
                forall|k: int| 0 <= k < j ==> (#[trigger] targets@[k])@ == targets_spec[k],
                forall|k: int|
                    0 <= k < j ==> (#[trigger] states@[k])@.len() == topology(self@.q_network)[0],
                forall|k: int|
                    0 <= k < j ==> (#[trigger] targets@[k])@.len() == topology(
                        self@.q_network,
                    ).last(),
            decreases indices.len() - j,
        {
            let at: usize = indices[j];
            let experience: &Experience = &self.replay_buffer.items[at];
            proof {
                assert(experience@ == self@.replay_buffer[at as int]);
                assert(experience_fits(self@.replay_buffer[at as int], self@.q_network));
                lemma_forward_width(self@.q_network, experience@.state);
            }
            let current: Vec<Fixed> = self.q_network.forward(experience.state.as_slice());
            let next: Vec<Fixed> = self.target_network.forward(experience.next_state.as_slice());
            let best_next: Fixed = max_of(&next);
            let target_q: Fixed = if experience.done {
                experience.reward
            } else {
                experience.reward.saturating_add(gamma.saturating_mul(best_next))
            };
            let mut target: Vec<Fixed> = current;
            target.set(experience.action, target_q);
            states.push(copy_slice(experience.state.as_slice()));
            targets.push(target);
            j += 1;
        }
        assert(matrix(states@) =~= states_spec);
        assert(matrix(targets@) =~= targets_spec);
        (states, targets)
    }

    /// One training step on the experiences at `indices`, in their order;
    /// an index may come more than once. First the target vector of every
    /// one of them is taken from the two networks as they are. Then the live
    /// network learns the examples one after the other, each on the weights
    /// that the one before it left: there is no averaging over the batch.
    /// Last, the training counter goes up by one.
    pub fn train_on_samples(&mut self, indices: &Vec<usize>, learning_rate: Fixed, gamma: Fixed)
        requires
            indices_within(indices@, old(self)@.replay_buffer.len()),
        ensures
            final(self)@ == trained(old(self)@, indices@, learning_rate, gamma),
            topology(final(self)@.q_network) == topology(old(self)@.q_network),
    {
        proof {
            use_type_invariant(&*self);
        }
        let ghost before = self@;
        let (states, targets) = self.batch_of(indices, gamma);
        let live: NeuralNetwork = learn_examples(
            self.q_network.clone(),
            &states,
            &targets,
            learning_rate,
        );
        proof {
            lemma_trained_ok(before, indices@, learning_rate, gamma);
            let after = trained(before, indices@, learning_rate, gamma);
            assert(live@ == after.q_network);
            assert forall|i: int| 0 <= i < before.replay_buffer.len() implies experience_fits(
                #[trigger] before.replay_buffer[i],
                live@,
            ) by {
                assert(experience_fits(after.replay_buffer[i], after.q_network));
            }
        }
        self.q_network = live;
        if self.training_counter < usize::MAX {
            self.training_counter = self.training_counter + 1;
        }
        assert(self@ == trained(before, indices@, learning_rate, gamma));
    }

    /// One training step. With fewer than `params.batch_size` experiences
    /// stored, nothing happens. Else `params.batch_size` experiences are drawn
    /// from the buffer, independently and uniformly, so one may come more than
    /// once, and the live network learns them as `train_on_samples` says.
    pub fn train(&mut self, learning_rate: Fixed, params: &GuiParameters)
        ensures
            old(self)@.replay_buffer.len() < params.batch_size ==> final(self)@ == old(self)@,
            old(self)@.replay_buffer.len() >= params.batch_size ==> is_training_step(
                old(self)@,
                final(self)@,
                params.batch_size as nat,
                learning_rate,
                params.gamma,
            ),
            topology(final(self)@.q_network) == topology(old(self)@.q_network),
            final(self)@.target_network == old(self)@.target_network,
            final(self)@.replay_buffer == old(self)@.replay_buffer,
            final(self)@.epsilon == old(self)@.epsilon,
            final(self)@.buffer_limit == old(self)@.buffer_limit,
    {
        if self.replay_buffer.len() < params.batch_size {
            return ;
        }
        let indices: Vec<usize> = if self.replay_buffer.len() > 0 {
            sample_indices(self.replay_buffer.len(), params.batch_size)
        } else {
            Vec::new()
        };
        self.train_on_samples(&indices, learning_rate, params.gamma);
    }
}

impl Clone for DeepQN {
    fn clone(&self) -> (r: Self)
        ensures
            r@ == self@,
    {
        let q_network: NeuralNetwork = self.q_network.clone();
        let target_network: NeuralNetwork = self.target_network.clone();
        let replay_buffer: ReplayBuffer = self.replay_buffer.clone();
        proof {
            use_type_invariant(self);
            lemma_still_ok(
                self@,
                AgentModel {
                    q_network: q_network@,
                    target_network: target_network@,
                    replay_buffer: replay_buffer@,
                    epsilon: self.epsilon,
                    training_counter: self.training_counter as nat,
                    buffer_limit: replay_buffer.limit(),
                },
            );
        }
        DeepQN {
            q_network,
            target_network,
            replay_buffer,
            epsilon: self.epsilon,
            training_counter: self.training_counter,
        }
    }
}

} // verus!

//! The individuals of a population.
use vstd::prelude::*;
use crate::fixed::Fixed;
use crate::neural_network::NeuralNetwork;
use crate::neural_network::LayerModel;

verus! {

/// What an individual holds.
pub struct BirdModel {
    pub score: Fixed,
    pub fitness: Fixed,
    pub dead: bool,
    pub neural_network: Seq<LayerModel>,
}

/// One individual: its network, how many milestones it reached (`score`),
/// how long it has lived (`fitness`) and whether it has died. Score and
/// fitness only grow while the individual lives, and stay as they are once
/// it has died.
#[derive(Debug)]
pub struct Bird {
    pub score: Fixed,
    pub fitness: Fixed,
    pub dead: bool,
    pub neural_network: NeuralNetwork,
}

impl View for Bird {
    type V = BirdModel;

    open spec fn view(&self) -> BirdModel {
        BirdModel {
            score: self.score,
            fitness: self.fitness,
            dead: self.dead,
            neural_network: self.neural_network@,
        }
    }
}

/// A living individual without score or fitness.
pub open spec fn newborn(network: Seq<LayerModel>) -> BirdModel {
    BirdModel {
        score: Fixed::zero_spec(),
        fitness: Fixed::zero_spec(),
        dead: false,
        neural_network: network,
    }
}

impl Bird {
    /// A living individual with the given network and no score or fitness.
    pub fn new(neural_network: NeuralNetwork) -> (bird: Bird)
        ensures
            bird@ == newborn(neural_network@),
    {
        Bird { score: Fixed::zero(), fitness: Fixed::zero(), dead: false, neural_network }
    }
}

/// An individual after `gain` was added to its fitness: a living one
/// gains what is above zero, a dead one nothing.
pub open spec fn with_fitness(b: BirdModel, gain: Fixed) -> BirdModel {
    BirdModel {
        score: b.score,
        fitness: if !b.dead && gain.raw > 0 {
            b.fitness.add_spec(gain)
        } else {
            b.fitness
        },
        dead: b.dead,
        neural_network: b.neural_network,
    }
}

/// An individual after `gain` was added to its score: a living one gains
/// what is above zero, a dead one nothing.
pub open spec fn with_score(b: BirdModel, gain: Fixed) -> BirdModel {
    BirdModel {
        score: if !b.dead && gain.raw > 0 {
            b.score.add_spec(gain)
        } else {
            b.score
        },
        fitness: b.fitness,
        dead: b.dead,
        neural_network: b.neural_network,
    }
}

/// Adds the time that an individual has lived on to its fitness. Fitness
/// never falls, and that of a dead individual stays as it is.
pub fn update_fitness(bird: &mut Bird, lived: Fixed)
    ensures
        final(bird)@ == with_fitness(old(bird)@, lived),
        final(bird)@.fitness.raw >= old(bird)@.fitness.raw,
{
    if !bird.dead && lived.raw > 0 {
        bird.fitness = bird.fitness.saturating_add(lived);
    }
}

/// Adds the points of a milestone to the score of an individual. Score
/// never falls, and that of a dead individual stays as it is.
pub fn update_score(bird: &mut Bird, points: Fixed)
    ensures
        final(bird)@ == with_score(old(bird)@, points),
        final(bird)@.score.raw >= old(bird)@.score.raw,
{
    if !bird.dead && points.raw > 0 {
        bird.score = bird.score.saturating_add(points);
    }
}

impl Clone for Bird {
    fn clone(&self) -> (r: Self)
        ensures
            r@ == self@,
    {
        Bird {
            score: self.score,
            fitness: self.fitness,
            dead: self.dead,
            neural_network: self.neural_network.clone(),
        }
    }
}

} // verus!

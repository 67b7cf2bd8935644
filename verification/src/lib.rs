//! A learning core for simple control agents.
//!
//! An agent reads a state vector and answers with an action. Two ways of
//! learning that answer are offered, both over the same feed-forward
//! networks:
//!
//! - [`evolution`]: a generational genetic engine that remembers the best two
//!   individuals of a population and breeds the next generation from them by
//!   averaging and mutation;
//! - [`dqn`]: a deep Q-learning agent with a replay buffer, a target network
//!   and epsilon-greedy choice of actions.
//!
//! Every scalar is a [`fixed::Fixed`], a fixed-point number with saturating
//! arithmetic, so that each result is an exact function of its arguments.
//! Each type has a mathematical model, its view, and each function states
//! over those models what it returns or changes. The draws of the random
//! generator are the one thing that no contract can name: a function that
//! draws states what holds of every outcome, and what is decided from a draw
//! is decided in a function that takes the draw as an argument and is
//! specified exactly.
pub mod fixed;
pub mod sigmoid_order;
pub mod neural_network;
pub mod components;
pub mod evolution;
pub mod dqn;
mod random;

use crate::error::Error;
use crate::ieee::{is_non_negative, is_positive, score_key};
use crate::matrix::{Matrix, MatrixView};
use crate::model::PredictionModel;
use crate::seen::{is_seen_filter, seen_filter};
use crate::store::{Database, DatabaseView};
use vstd::arithmetic::div_mod::{
    lemma_fundamental_div_mod, lemma_fundamental_div_mod_converse, lemma_mod_bound,
};
use vstd::prelude::*;

verus! {

/// What the trainer does next.
#[derive(Clone, Copy, Debug, PartialEq, Eq, Structural)]
pub enum TrainingStep {
    /// Training of latent factor `factor`, of `factors`, begins.
    FactorStarted { factor: usize, factors: usize },
    /// One sweep over all votes is due, which updates the column `factor`
    /// of both factor matrices; it is sweep number `iteration` of that
    /// factor, counted from zero.
    Sweep { factor: usize, iteration: usize },
    /// Training of latent factor `factor`, of `factors`, is complete.
    FactorFinished { factor: usize, factors: usize },
    /// Every factor is trained.
    Finished,
}

/// The number of steps that training takes before it is finished: for each
/// factor its start, its sweeps and its end.
pub open spec fn schedule_length(factors: nat, iterations: nat) -> nat {
    factors * (iterations + 2)
}

/// Step number `n`, counted from zero, of the training of `factors` latent
/// factors with `iterations` sweeps each.
///
/// The factors are trained one after the other, each by exactly
/// `iterations` sweeps between its start and its end.
pub open spec fn step_at(factors: nat, iterations: nat, n: nat) -> TrainingStep {
    let round = iterations + 2;
    let factor = n / round;
    let place = n % round;
    if factor >= factors {
        TrainingStep::Finished
    } else if place == 0 {
        TrainingStep::FactorStarted { factor: factor as usize, factors: factors as usize }
    } else if place <= iterations {
        TrainingStep::Sweep { factor: factor as usize, iteration: (place - 1) as usize }
    } else {
        TrainingStep::FactorFinished { factor: factor as usize, factors: factors as usize }
    }
}

/// The schedule is what its description says: each factor in turn is
/// started, swept exactly `iterations` times and finished, and after the
/// last factor training is finished for good.
pub proof fn lemma_schedule(factors: nat, iterations: nat, factor: nat, iteration: nat, late: nat)
    requires
        factor < factors <= usize::MAX,
        iteration < iterations <= usize::MAX,
    ensures
        step_at(factors, iterations, factor * (iterations + 2)) == (TrainingStep::FactorStarted {
            factor: factor as usize,
            factors: factors as usize,
        }),
        step_at(factors, iterations, factor * (iterations + 2) + 1 + iteration) == (
        TrainingStep::Sweep { factor: factor as usize, iteration: iteration as usize }),
        step_at(factors, iterations, factor * (iterations + 2) + 1 + iterations) == (
        TrainingStep::FactorFinished { factor: factor as usize, factors: factors as usize }),
        step_at(factors, iterations, schedule_length(factors, iterations) + late)
            == TrainingStep::Finished,
{
    let round = (iterations + 2) as int;
    let base = factor * round;
    lemma_fundamental_div_mod_converse(base, round, factor as int, 0);
    lemma_fundamental_div_mod_converse(
        base + 1 + iteration,
        round,
        factor as int,
        (1 + iteration) as int,
    );
    lemma_fundamental_div_mod_converse(
        base + 1 + iterations,
        round,
        factor as int,
        (1 + iterations) as int,
    );
    let end = schedule_length(factors, iterations) + late;
    assert(end / (round as nat) >= factors) by {
        let q = (end as int) / round;
        lemma_fundamental_div_mod(end as int, round);
        lemma_mod_bound(end as int, round);
        if q < factors {
            assert(round * q + round <= round * factors) by (nonlinear_arith)
                requires
                    q + 1 <= factors,
                    0 <= round,
            ;
        }
    }
}

/// The hyperparameters can be trained with: at least one latent factor, at
/// least one sweep for each, a learning rate above zero and a
/// regularization that is not below zero. A NaN is neither.
pub open spec fn admissible(
    latent_factors: nat,
    iterations: nat,
    learning_rate: u64,
    regularization: u64,
) -> bool {
    &&& latent_factors >= 1
    &&& iterations >= 1
    &&& is_positive(learning_rate)
    &&& is_non_negative(regularization)
}

/// The bits of one tenth, the number that every cell of the factor
/// matrices holds before training.
pub const INITIAL_FACTOR: u64 = 0x3FB9_9999_9999_999A;

/// The factor matrix of the given shape that training starts from.
pub open spec fn initial_factors(rows: nat, cols: nat) -> MatrixView {
    MatrixView { rows, cols, cells: Seq::new(rows * cols, |i: int| INITIAL_FACTOR) }
}

/// The mathematical content of a [`Training`].
pub struct TrainingView {
    /// The database that is trained on.
    pub database: DatabaseView,
    /// The number of latent factors to train.
    pub latent_factors: nat,
    /// The number of sweeps that each factor gets.
    pub iterations: nat,
    /// The learning rate, a double-precision number given by its bits.
    pub learning_rate: u64,
    /// The regularization, a double-precision number given by its bits.
    pub regularization: u64,
    /// The number of steps handed out so far.
    pub steps_taken: nat,
}

impl TrainingView {
    /// The database is well formed, the hyperparameters are admissible,
    /// and no step beyond the schedule was handed out.
    pub open spec fn wf(self) -> bool {
        &&& self.database.wf()
        &&& admissible(self.latent_factors, self.iterations, self.learning_rate, self.regularization)
        &&& self.steps_taken <= schedule_length(self.latent_factors, self.iterations)
    }

    /// Every step of the schedule was handed out.
    pub open spec fn finished(self) -> bool {
        self.steps_taken == schedule_length(self.latent_factors, self.iterations)
    }
}

/// A training run: the database, frozen for the length of the run, and the
/// place that the run has reached in its schedule.
///
/// The run hands out its steps one by one. The arithmetic of a sweep is the
/// caller's; the run decides which sweep is due and when training ends.
pub struct Training {
    database: Database,
    latent_factors: usize,
    iterations: usize,
    learning_rate: u64,
    regularization: u64,
    factor: usize,
    started: bool,
    sweeps: usize,
}

impl View for Training {
    type V = TrainingView;

    closed spec fn view(&self) -> TrainingView {
        TrainingView {
            database: self.database@,
            latent_factors: self.latent_factors as nat,
            iterations: self.iterations as nat,
            learning_rate: self.learning_rate,
            regularization: self.regularization,
            steps_taken: (self.factor * (self.iterations + 2) + if self.started {
                1 + self.sweeps
            } else {
                0
            }) as nat,
        }
    }
}

impl Training {
    /// The counters of the run are within the schedule, and the database
    /// keeps its own invariant.
    pub closed spec fn in_schedule(&self) -> bool {
        &&& self.database.wf()
        &&& self.factor <= self.latent_factors
        &&& self.sweeps <= self.iterations
        &&& self.factor == self.latent_factors ==> !self.started
        &&& !self.started ==> self.sweeps == 0
    }

    /// The invariant of the run.
    pub open spec fn wf(&self) -> bool {
        self.in_schedule() && self@.wf()
    }

    /// The database that is trained on.
    pub fn database(&self) -> (database: &Database)
        requires
            self.wf(),
        ensures
            database.wf(),
            database@ == self@.database,
    {
        &self.database
    }

    /// The number of latent factors to train.
    pub fn latent_factors(&self) -> (factors: usize)
        ensures
            factors == self@.latent_factors,
    {
        self.latent_factors
    }

    /// The number of sweeps that each factor gets.
    pub fn iterations(&self) -> (iterations: usize)
        ensures
            iterations == self@.iterations,
    {
        self.iterations
    }

    /// The learning rate, as the bits of a double-precision number.
    pub fn learning_rate(&self) -> (rate: u64)
        ensures
            rate == self@.learning_rate,
    {
        self.learning_rate
    }

    /// The regularization, as the bits of a double-precision number.
    pub fn regularization(&self) -> (regularization: u64)
        ensures
            regularization == self@.regularization,
    {
        self.regularization
    }

    /// Whether every step of the schedule was handed out.
    pub fn is_finished(&self) -> (finished: bool)
        requires
            self.wf(),
        ensures
            finished == self@.finished(),
    {
        proof {
            self.lemma_place();
        }
        self.factor == self.latent_factors
    }

    /// The steps taken so far are the whole rounds of the factors already
    /// trained and the place within the round of the current one.
    proof fn lemma_place(&self)
        requires
            self.wf(),
        ensures
            self@.steps_taken == self.factor * (self.iterations + 2) + if self.started {
                1 + self.sweeps
            } else {
                0
            },
            self.factor < self.latent_factors ==> self@.steps_taken < schedule_length(
                self@.latent_factors,
                self@.iterations,
            ),
            self.factor == self.latent_factors ==> self@.steps_taken == schedule_length(
                self@.latent_factors,
                self@.iterations,
            ),
            self@.steps_taken / (self@.iterations + 2) == self.factor,
            self@.steps_taken % (self@.iterations + 2) == if self.started {
                1 + self.sweeps
            } else {
                0
            },
    {
        let round = self.iterations + 2;
        let place: int = if self.started {
            1 + self.sweeps
        } else {
            0
        };
        let taken = self.factor * round + place;
        assert(0 <= self.factor * round) by (nonlinear_arith)
            requires
                0 <= self.factor,
                0 <= round,
        ;
        if self.factor < self.latent_factors {
            assert((self.factor + 1) * round <= self.latent_factors * round) by (nonlinear_arith)
                requires
                    self.factor + 1 <= self.latent_factors,
                    0 <= round,
            ;
            assert((self.factor + 1) * round == self.factor * round + round) by (nonlinear_arith);
        }
        lemma_fundamental_div_mod_converse(taken, round, self.factor as int, place);
    }

    /// Hands out the next step of the schedule.
    ///
    /// Once training is finished, every further call answers `Finished`.
    pub fn advance(&mut self) -> (step: TrainingStep)
        requires
            old(self).wf(),
        ensures
            final(self).wf(),
            step == step_at(old(self)@.latent_factors, old(self)@.iterations, old(self)@.steps_taken),
            final(self)@ == (TrainingView {
                steps_taken: if old(self)@.finished() {
                    old(self)@.steps_taken
                } else {
                    old(self)@.steps_taken + 1
                },
                ..old(self)@
            }),
    {
        proof {
            self.lemma_place();
        }
        let step = if self.factor == self.latent_factors {
            TrainingStep::Finished
        } else if !self.started {
            self.started = true;
            TrainingStep::FactorStarted { factor: self.factor, factors: self.latent_factors }
        } else if self.sweeps < self.iterations {
            let iteration: usize = self.sweeps;
            self.sweeps = self.sweeps + 1;
            TrainingStep::Sweep { factor: self.factor, iteration }
        } else {
            let factor: usize = self.factor;
            self.factor = self.factor + 1;
            self.started = false;
            self.sweeps = 0;
            proof {
                let round = self.iterations + 2;
                assert((factor + 1) * round == factor * round + round) by (nonlinear_arith);
                assert((factor + 1) * round <= self.latent_factors * round) by (nonlinear_arith)
                    requires
                        factor + 1 <= self.latent_factors,
                        0 <= round,
                ;
            }
            TrainingStep::FactorFinished { factor, factors: self.latent_factors }
        };
        proof {
            let round = self.iterations + 2;
            assert(0 <= self.factor * round) by (nonlinear_arith)
                requires
                    0 <= self.factor,
                    0 <= round,
            ;
        }
        step
    }

    /// The user factor matrix that training starts from: a row for each
    /// user, a column for each latent factor, and one tenth in every cell.
    /// There is none if the number of its cells does not fit a `usize`.
    pub fn initial_user_factors(&self) -> (matrix: Option<Matrix>)
        requires
            self.wf(),
        ensures
            matrix is Some <==> self@.database.users.len() * self@.latent_factors <= usize::MAX,
            matrix is Some ==> matrix->0.wf() && matrix->0@ == initial_factors(
                self@.database.users.len(),
                self@.latent_factors,
            ),
    {
        Matrix::filled(self.database.user_count(), self.latent_factors, INITIAL_FACTOR)
    }

    /// The article factor matrix that training starts from: a row for each
    /// article, a column for each latent factor, and one tenth in every
    /// cell. There is none if the number of its cells does not fit a
    /// `usize`.
    pub fn initial_article_factors(&self) -> (matrix: Option<Matrix>)
        requires
            self.wf(),
        ensures
            matrix is Some <==> self@.database.articles.len() * self@.latent_factors <= usize::MAX,
            matrix is Some ==> matrix->0.wf() && matrix->0@ == initial_factors(
                self@.database.articles.len(),
                self@.latent_factors,
            ),
    {
        Matrix::filled(self.database.article_count(), self.latent_factors, INITIAL_FACTOR)
    }

    /// Ends a finished run: takes the trained factor matrices, builds the
    /// filter of seen articles and hands out the model.
    ///
    /// There is no model if the run is not finished, or if a matrix does
    /// not have a row for each user, or for each article, and a column for
    /// each latent factor.
    pub fn finish(self, user_factors: Matrix, article_factors: Matrix) -> (model: Option<
        PredictionModel,
    >)
        requires
            self.wf(),
            user_factors.wf(),
            article_factors.wf(),
        ensures
            model is Some <==> {
                &&& self@.finished()
                &&& user_factors@.shape() == (self@.database.users.len(), self@.latent_factors)
                &&& article_factors@.shape() == (self@.database.articles.len(), self@.latent_factors)
            },
            match model {
                Some(m) => {
                    &&& m.wf()
                    &&& m@.database == self@.database
                    &&& m@.user_factors == user_factors@
                    &&& m@.article_factors == article_factors@
                    &&& m@.user_factors.shape() == (self@.database.users.len(), self@.latent_factors)
                    &&& m@.article_factors.shape() == (
                        self@.database.articles.len(),
                        self@.latent_factors,
                    )
                    &&& is_seen_filter(m@.seen, self@.database.votes, self@.database.users.len())
                },
                None => true,
            },
    {
        if !self.is_finished() {
            return None;
        }
        let users: usize = self.database.user_count();
        let articles: usize = self.database.article_count();
        if user_factors.rows() != users || user_factors.cols() != self.latent_factors
            || article_factors.rows() != articles || article_factors.cols() != self.latent_factors {
            return None;
        }
        let user_votes = seen_filter(self.database.article_votes(), users);
        Some(PredictionModel::assemble(self.database, user_factors, article_factors, user_votes))
    }
}

impl Database {
    /// Starts a training run on this database, which the run keeps as it
    /// is, for `latent_factors` latent factors with `iterations` sweeps
    /// each.
    ///
    /// The learning rate and the regularization are double-precision
    /// numbers, given by their bits. The run is refused unless the
    /// hyperparameters are admissible.
    pub fn train_prediction_model(
        self,
        latent_factors: usize,
        iterations: usize,
        learning_rate: u64,
        regularization: u64,
    ) -> (r: Result<Training, Error>)
        requires
            self.wf(),
        ensures
            r is Ok <==> admissible(
                latent_factors as nat,
                iterations as nat,
                learning_rate,
                regularization,
            ),
            match r {
                Ok(run) => {
                    &&& run.wf()
                    &&& run@ == (TrainingView {
                        database: self@,
                        latent_factors: latent_factors as nat,
                        iterations: iterations as nat,
                        learning_rate,
                        regularization,
                        steps_taken: 0,
                    })
                },
                Err(e) => e == Error::Hyperparameter,
            },
    {
        if latent_factors < 1 || iterations < 1 || score_key(learning_rate) <= 0 || score_key(
            regularization,
        ) < 0 {
            return Err(Error::Hyperparameter);
        }
        let run = Training {
            database: self,
            latent_factors,
            iterations,
            learning_rate,
            regularization,
            factor: 0,
            started: false,
            sweeps: 0,
        };
        proof {
            assert(0 <= latent_factors * (iterations + 2)) by (nonlinear_arith)
                requires
                    0 <= latent_factors,
                    0 <= iterations,
            ;
        }
        Ok(run)
    }
}

} // verus!

use crate::error::Error;
use crate::ieee::{key_of, keys_of, score_keys};
use crate::matrix::{Matrix, MatrixView};
use crate::rank::{is_ranking, listed, marked, top_ranked};
use crate::seen::{covers_votes, mark_ids, mark_voters, rows_of};
use crate::store::{voted_in, Database, DatabaseView};
use vstd::prelude::*;

verus! {

/// One place of a ranking: who or what is recommended, and how strongly.
#[derive(Clone, Debug, PartialEq, Eq)]
pub struct Prediction {
    /// The id of the recommended article or user.
    pub id: usize,
    /// Its key or name.
    pub name: String,
    /// Its score, a double-precision number given by its bits: a greater
    /// one is a stronger recommendation.
    pub score: u64,
}

/// The mathematical content of a [`PredictionModel`].
pub struct ModelView {
    /// The database the model was trained on.
    pub database: DatabaseView,
    /// The user factor matrix: a row for each user, a column for each
    /// latent factor.
    pub user_factors: MatrixView,
    /// The article factor matrix: a row for each article, a column for
    /// each latent factor.
    pub article_factors: MatrixView,
    /// For each user, by id, the articles that are not recommended to the
    /// user any more.
    pub seen: Seq<Seq<usize>>,
}

impl ModelView {
    /// The number of latent factors: the columns of the factor matrices.
    pub open spec fn latent_factors(self) -> nat {
        self.user_factors.cols
    }

    /// The database is well formed, the user factor matrix has a row for
    /// each user and the article factor matrix a row for each article,
    /// both have the same number of columns, which is at least one, and
    /// every user's list of seen articles holds the articles the user has
    /// voted on.
    pub open spec fn wf(self) -> bool {
        &&& self.database.wf()
        &&& self.user_factors.wf()
        &&& self.article_factors.wf()
        &&& self.latent_factors() >= 1
        &&& self.user_factors.shape() == (self.database.users.len(), self.latent_factors())
        &&& self.article_factors.shape() == (self.database.articles.len(), self.latent_factors())
        &&& covers_votes(self.seen, self.database.votes, self.database.users.len())
    }

    /// The articles that are not recommended to user `user`.
    pub open spec fn seen_by(self, user: int) -> Set<int> {
        Set::new(|article: int| listed(self.seen[user], article))
    }

    /// The users to whom article `article` is not recommended: those who
    /// have voted on it.
    pub open spec fn voters_of(self, article: int) -> Set<int> {
        Set::new(|user: int| voted_in(self.database.votes[article], user))
    }
}

/// The ids of the predictions of a list, in order.
pub open spec fn ids_of(list: Seq<Prediction>) -> Seq<usize> {
    Seq::new(list.len(), |i: int| list[i].id)
}

/// Each prediction of the list carries the name and the score that belong
/// to its id.
pub open spec fn labelled(list: Seq<Prediction>, names: Seq<Seq<char>>, scores: Seq<u64>) -> bool {
    forall|i: int|
        0 <= i < list.len() ==> {
            &&& (#[trigger] list[i]).id < names.len()
            &&& list[i].name@ == names[list[i].id as int]
            &&& list[i].score == scores[list[i].id as int]
        }
}

/// Whether two sets of excluded ids leave the same candidates matters to a
/// ranking, and nothing else about them.
pub proof fn lemma_ranking_same_candidates(
    ranking: Seq<usize>,
    scores: Seq<i64>,
    excluded: Set<int>,
    other: Set<int>,
    n: int,
    k: int,
)
    requires
        is_ranking(ranking, scores, excluded, n, k),
        forall|id: int| 0 <= id < n ==> (excluded.contains(id) <==> other.contains(id)),
    ensures
        is_ranking(ranking, scores, other, n, k),
{
}

/// A trained recommender: the database it was trained on, the two factor
/// matrices, and the per-user filter of articles that are no longer
/// recommended.
///
/// The model holds the numbers of its matrices by their bits and does no
/// arithmetic on them: the scores that the two queries rank are computed
/// by the caller.
pub struct PredictionModel {
    database: Database,
    user_factors: Matrix,
    article_factors: Matrix,
    user_votes: Vec<Vec<usize>>,
}

impl View for PredictionModel {
    type V = ModelView;

    closed spec fn view(&self) -> ModelView {
        ModelView {
            database: self.database@,
            user_factors: self.user_factors@,
            article_factors: self.article_factors@,
            seen: rows_of(self.user_votes@),
        }
    }
}

impl PredictionModel {
    /// The embedded database keeps its own invariant.
    pub closed spec fn holds_database(&self) -> bool {
        self.database.wf()
    }

    /// The invariant of the model.
    pub open spec fn wf(&self) -> bool {
        self.holds_database() && self@.wf()
    }

    /// The filter of seen articles covers the votes: whoever has cast a
    /// vote on an article has the article in their list.
    pub proof fn lemma_seen_covers_votes(&self, article: int, j: int)
        requires
            self.wf(),
            0 <= article < self@.database.votes.len(),
            0 <= j < self@.database.votes[article].len(),
        ensures
            self@.database.votes[article][j].0 < self@.seen.len(),
            listed(self@.seen[self@.database.votes[article][j].0 as int], article),
    {
    }

    /// The numbers of articles and of users of the model fit a `usize`.
    pub proof fn lemma_database_fits(&self)
        requires
            self.wf(),
        ensures
            self@.database.articles.len() <= usize::MAX,
            self@.database.users.len() <= usize::MAX,
    {
        self.database.lemma_counts_fit();
    }

    /// Puts a model together from a database, two factor matrices and a
    /// filter of seen articles.
    pub(crate) fn assemble(
        database: Database,
        user_factors: Matrix,
        article_factors: Matrix,
        user_votes: Vec<Vec<usize>>,
    ) -> (model: PredictionModel)
        requires
            database.wf(),
            (ModelView {
                database: database@,
                user_factors: user_factors@,
                article_factors: article_factors@,
                seen: rows_of(user_votes@),
            }).wf(),
        ensures
            model.wf(),
            model@ == (ModelView {
                database: database@,
                user_factors: user_factors@,
                article_factors: article_factors@,
                seen: rows_of(user_votes@),
            }),
    {
        PredictionModel { database, user_factors, article_factors, user_votes }
    }

    /// The database the model was trained on.
    pub fn database(&self) -> (database: &Database)
        requires
            self.wf(),
        ensures
            database.wf(),
            database@ == self@.database,
    {
        &self.database
    }

    /// The number of latent factors: the columns of the factor matrices.
    pub fn latent_factors(&self) -> (factors: usize)
        requires
            self.wf(),
        ensures
            factors == self@.latent_factors(),
            factors >= 1,
    {
        self.user_factors.cols()
    }

    /// The user factor matrix.
    pub fn user_factors(&self) -> (matrix: &Matrix)
        requires
            self.wf(),
        ensures
            matrix.wf(),
            matrix@ == self@.user_factors,
    {
        &self.user_factors
    }

    /// The article factor matrix.
    pub fn article_factors(&self) -> (matrix: &Matrix)
        requires
            self.wf(),
        ensures
            matrix.wf(),
            matrix@ == self@.article_factors,
    {
        &self.article_factors
    }

    /// For each user, by id, the articles that are not recommended to the
    /// user any more.
    pub fn user_votes(&self) -> (seen: &Vec<Vec<usize>>)
        ensures
            rows_of(seen@) == self@.seen,
    {
        &self.user_votes
    }

    /// Ranks the articles that user `name` has not seen by the scores given
    /// for them and returns the `top` best, best first.
    ///
    /// `scores` holds one score for each article, by article id, as the
    /// bits of a double-precision number. A greater score comes first, of
    /// two equal scores the one of the lower id, and a NaN after every
    /// number.
    pub fn predict_for_user(&self, name: &str, top: usize, scores: &Vec<u64>) -> (r: Result<
        Vec<Prediction>,
        Error,
    >)
        requires
            self.wf(),
            scores.len() == self@.database.articles.len(),
        ensures
            match r {
                Ok(list) => {
                    &&& self@.database.users.contains(name@)
                    &&& is_ranking(
                        ids_of(list@),
                        keys_of(scores@),
                        self@.seen_by(self@.database.users.index_of(name@)),
                        scores.len() as int,
                        top as int,
                    )
                    &&& labelled(list@, self@.database.articles, scores@)
                    &&& list.len() <= top
                    &&& forall|i: int|
                        0 <= i < list.len() ==> !listed(
                            self@.seen[self@.database.users.index_of(name@)],
                            (#[trigger] list[i]).id as int,
                        )
                    &&& forall|i: int, j: int|
                        0 <= i < j < list.len() ==> key_of((#[trigger] list[i]).score) >= key_of(
                            (#[trigger] list[j]).score,
                        )
                },
                Err(e) => e == Error::UnknownUser && !self@.database.users.contains(name@),
            },
    {
        let user: usize = match self.database.user_id(name) {
            Some(user) => user,
            None => {
                return Err(Error::UnknownUser);
            },
        };
        let articles: usize = self.database.article_count();
        let mask = mark_ids(&self.user_votes[user], articles);
        let keys = score_keys(scores);
        let ranking = top_ranked(&keys, &mask, top);
        proof {
            lemma_ranking_same_candidates(
                ranking@,
                keys@,
                marked(mask@),
                self@.seen_by(user as int),
                articles as int,
                top as int,
            );
        }
        let list = self.label_articles(&ranking, scores);
        proof {
            assert(ids_of(list@) =~= ranking@);
        }
        Ok(list)
    }

    /// Ranks the users who have not voted on article `name` by the scores
    /// given for them and returns the `top` best, best first.
    ///
    /// `scores` holds one score for each user, by user id, as the bits of
    /// a double-precision number. A greater score comes first, of two
    /// equal scores the one of the lower id, and a NaN after every number.
    pub fn predict_for_article(&self, name: &str, top: usize, scores: &Vec<u64>) -> (r: Result<
        Vec<Prediction>,
        Error,
    >)
        requires
            self.wf(),
            scores.len() == self@.database.users.len(),
        ensures
            match r {
                Ok(list) => {
                    &&& self@.database.articles.contains(name@)
                    &&& is_ranking(
                        ids_of(list@),
                        keys_of(scores@),
                        self@.voters_of(self@.database.articles.index_of(name@)),
                        scores.len() as int,
                        top as int,
                    )
                    &&& labelled(list@, self@.database.users, scores@)
                    &&& list.len() <= top
                    &&& forall|i: int|
                        0 <= i < list.len() ==> !self@.database.has_voted(
                            (#[trigger] list[i]).id as int,
                            self@.database.articles.index_of(name@),
                        )
                    &&& forall|i: int, j: int|
                        0 <= i < j < list.len() ==> key_of((#[trigger] list[i]).score) >= key_of(
                            (#[trigger] list[j]).score,
                        )
                },
                Err(e) => e == Error::UnknownArticle && !self@.database.articles.contains(name@),
            },
    {
        let article: usize = match self.database.article_id(name) {
            Some(article) => article,
            None => {
                return Err(Error::UnknownArticle);
            },
        };
        let users: usize = self.database.user_count();
        let votes = self.database.article_votes();
        let mask = mark_voters(&votes[article], users);
        let keys = score_keys(scores);
        let ranking = top_ranked(&keys, &mask, top);
        proof {
            lemma_ranking_same_candidates(
                ranking@,
                keys@,
                marked(mask@),
                self@.voters_of(article as int),
                users as int,
                top as int,
            );
        }
        let list = self.label_users(&ranking, scores);
        proof {
            assert(ids_of(list@) =~= ranking@);
        }
        Ok(list)
    }

    /// Gives each article id of a ranking its key and its score.
    fn label_articles(&self, ranking: &Vec<usize>, scores: &Vec<u64>) -> (list: Vec<Prediction>)
        requires
            self.wf(),
            scores.len() == self@.database.articles.len(),
            forall|i: int| 0 <= i < ranking.len() ==> #[trigger] ranking[i] < scores.len(),
        ensures
            list.len() == ranking.len(),
            forall|i: int| 0 <= i < list.len() ==> (#[trigger] list[i]).id == ranking[i],
            labelled(list@, self@.database.articles, scores@),
    {
        let mut list: Vec<Prediction> = Vec::new();
        let mut i: usize = 0;
        while i < ranking.len()
            invariant
                i <= ranking.len(),
                self.wf(),
                scores.len() == self@.database.articles.len(),
                forall|x: int| 0 <= x < ranking.len() ==> #[trigger] ranking[x] < scores.len(),
                list.len() == i,
                forall|x: int| 0 <= x < list.len() ==> (#[trigger] list[x]).id == ranking[x],
                labelled(list@, self@.database.articles, scores@),
            decreases ranking.len() - i,
        {
            let id: usize = ranking[i];
            if let Some(key) = self.database.article_key(id) {
                list.push(Prediction { id, name: key.clone(), score: scores[id] });
            }
            i += 1;
        }
        list
    }

    /// Gives each user id of a ranking its name and its score.
    fn label_users(&self, ranking: &Vec<usize>, scores: &Vec<u64>) -> (list: Vec<Prediction>)
        requires
            self.wf(),
            scores.len() == self@.database.users.len(),
            forall|i: int| 0 <= i < ranking.len() ==> #[trigger] ranking[i] < scores.len(),
        ensures
            list.len() == ranking.len(),
            forall|i: int| 0 <= i < list.len() ==> (#[trigger] list[i]).id == ranking[i],
            labelled(list@, self@.database.users, scores@),
    {
        let mut list: Vec<Prediction> = Vec::new();
        let mut i: usize = 0;
        while i < ranking.len()
            invariant
                i <= ranking.len(),
                self.wf(),
                scores.len() == self@.database.users.len(),
                forall|x: int| 0 <= x < ranking.len() ==> #[trigger] ranking[x] < scores.len(),
                list.len() == i,
                forall|x: int| 0 <= x < list.len() ==> (#[trigger] list[x]).id == ranking[x],
                labelled(list@, self@.database.users, scores@),
            decreases ranking.len() - i,
        {
            let id: usize = ranking[i];
            if let Some(name) = self.database.user_name(id) {
                list.push(Prediction { id, name: name.clone(), score: scores[id] });
            }
            i += 1;
        }
        list
    }
}

} // verus!

use crate::error::Error;
use crate::matrix::{Matrix, MatrixView};
use crate::model::{ModelView, PredictionModel};
use crate::rank::listed;
use crate::seen::{covers_votes, is_seen_filter, mark_ids, rows_of, seen_filter};
use crate::store::{ballots_of, text_of, votes_in_range, Database, DatabaseView, Vote};
use vstd::prelude::*;
use vstd::set_lib::{lemma_int_range, lemma_subset_equality, set_int_range};

verus! {

/// A database taken apart for storage: two mappings from a name to an id,
/// two lists by article id, and the number of votes.
///
/// The entries of a mapping may stand in any order.
#[derive(Clone, Debug, PartialEq, Eq)]
pub struct DatabaseParts {
    /// Each article key with the article's id.
    pub articles: Vec<(String, usize)>,
    /// Page identifier of each article, by article id.
    pub page_ids: Vec<String>,
    /// Votes on each article, by article id.
    pub article_votes: Vec<Vec<Vote>>,
    /// The number of votes.
    pub total_votes: usize,
    /// Each user name with the user's id.
    pub users: Vec<(String, usize)>,
}

/// The mathematical content of a [`DatabaseParts`].
pub struct PartsView {
    /// Each article key with the article's id.
    pub articles: Seq<(Seq<char>, usize)>,
    /// Page identifier of each article, by article id.
    pub page_ids: Seq<Seq<char>>,
    /// Votes on each article, by article id.
    pub votes: Seq<Seq<Vote>>,
    /// The number of votes.
    pub total_votes: nat,
    /// Each user name with the user's id.
    pub users: Seq<(Seq<char>, usize)>,
}

/// The entries of a mapping, each name by its view.
pub open spec fn entries_of(pairs: Seq<(String, usize)>) -> Seq<(Seq<char>, usize)> {
    Seq::new(pairs.len(), |i: int| (pairs[i].0@, pairs[i].1))
}

impl View for DatabaseParts {
    type V = PartsView;

    open spec fn view(&self) -> PartsView {
        PartsView {
            articles: entries_of(self.articles@),
            page_ids: text_of(self.page_ids@),
            votes: ballots_of(self.article_votes@),
            total_votes: self.total_votes as nat,
            users: entries_of(self.users@),
        }
    }
}

/// The ids of the entries are below the number of entries, and no two
/// entries have the same id.
pub open spec fn is_numbering(entries: Seq<(Seq<char>, usize)>) -> bool {
    &&& forall|i: int| 0 <= i < entries.len() ==> (#[trigger] entries[i]).1 < entries.len()
    &&& forall|i: int, j: int|
        0 <= i < j < entries.len() ==> (#[trigger] entries[i]).1 != (#[trigger] entries[j]).1
}

/// The place of the entry that has the id `id`.
pub open spec fn holder(entries: Seq<(Seq<char>, usize)>, id: int) -> int {
    choose|i: int| 0 <= i < entries.len() && (#[trigger] entries[i]).1 == id
}

/// The names of the entries, each at the place that its id gives.
pub open spec fn ordered(entries: Seq<(Seq<char>, usize)>) -> Seq<Seq<char>> {
    Seq::new(entries.len(), |id: int| entries[holder(entries, id)].0)
}

/// The names of a list, each with its place as its id.
pub open spec fn numbered(names: Seq<Seq<char>>) -> Seq<(Seq<char>, usize)> {
    Seq::new(names.len(), |i: int| (names[i], i as usize))
}

impl PartsView {
    /// The database that the parts describe.
    pub open spec fn decoded(self) -> DatabaseView {
        DatabaseView {
            articles: ordered(self.articles),
            page_ids: self.page_ids,
            votes: self.votes,
            total_votes: self.total_votes,
            users: ordered(self.users),
        }
    }

    /// The parts describe a database: both mappings number their names,
    /// and what they describe satisfies the invariant of a database.
    pub open spec fn valid(self) -> bool {
        &&& is_numbering(self.articles)
        &&& is_numbering(self.users)
        &&& self.decoded().wf()
    }
}

impl DatabaseView {
    /// The parts that the database is stored as.
    pub open spec fn parts(self) -> PartsView {
        PartsView {
            articles: numbered(self.articles),
            page_ids: self.page_ids,
            votes: self.votes,
            total_votes: self.total_votes,
            users: numbered(self.users),
        }
    }
}

/// In a numbering every id below the number of entries has an entry.
pub proof fn lemma_numbering_is_onto(entries: Seq<(Seq<char>, usize)>, id: int)
    requires
        is_numbering(entries),
        0 <= id < entries.len(),
    ensures
        0 <= holder(entries, id) < entries.len(),
        entries[holder(entries, id)].1 == id,
{
    // The ids are as many as the numbers below `n` and are among them, so
    // they are all of them.
    let n = entries.len() as int;
    let ids = Seq::new(entries.len(), |i: int| entries[i].1 as int);
    ids.unique_seq_to_set();
    lemma_int_range(0, n);
    assert forall|v: int| ids.to_set().contains(v) implies set_int_range(0, n).contains(v) by {
        let i = choose|i: int| 0 <= i < ids.len() && ids[i] == v;
        assert(entries[i].1 < n);
    }
    lemma_subset_equality(ids.to_set(), set_int_range(0, n));
    assert(ids.to_set().contains(id));
    let i = choose|i: int| 0 <= i < ids.len() && ids[i] == id;
    assert(entries[i].1 == id);
}

/// The entry of a numbering that has a given id is the only one.
pub proof fn lemma_holder_is_unique(entries: Seq<(Seq<char>, usize)>, i: int)
    requires
        is_numbering(entries),
        0 <= i < entries.len(),
    ensures
        holder(entries, entries[i].1 as int) == i,
{
    let h = holder(entries, entries[i].1 as int);
    assert(entries[h].1 == entries[i].1);
}

/// Numbering the names of a list by their places and ordering the entries
/// by their ids gives the list back.
pub proof fn lemma_numbered_then_ordered(names: Seq<Seq<char>>)
    requires
        names.len() <= usize::MAX,
    ensures
        is_numbering(numbered(names)),
        ordered(numbered(names)) == names,
{
    let entries = numbered(names);
    assert forall|id: int| 0 <= id < names.len() implies #[trigger] ordered(entries)[id]
        == names[id] by {
        lemma_holder_is_unique(entries, id);
    }
}

/// The order in which the entries of a mapping stand is immaterial: two
/// numberings that hold the same entries order their names alike.
pub proof fn lemma_entry_order_is_immaterial(
    first: Seq<(Seq<char>, usize)>,
    second: Seq<(Seq<char>, usize)>,
)
    requires
        is_numbering(first),
        is_numbering(second),
        first.len() == second.len(),
        forall|i: int| 0 <= i < first.len() ==> second.contains(#[trigger] first[i]),
    ensures
        ordered(first) == ordered(second),
{
    assert forall|id: int| 0 <= id < first.len() implies #[trigger] ordered(first)[id] == ordered(
        second,
    )[id] by {
        lemma_numbering_is_onto(first, id);
        let i = holder(first, id);
        let j = choose|j: int| 0 <= j < second.len() && second[j] == first[i];
        assert(second[j] == first[i]);
        lemma_holder_is_unique(second, j);
    }
}

/// Orders the names of a mapping by their ids, unless the ids do not
/// number the names.
pub fn order_by_id(pairs: &Vec<(String, usize)>) -> (names: Option<Vec<String>>)
    ensures
        names is Some <==> is_numbering(entries_of(pairs@)),
        names is Some ==> text_of(names->0@) == ordered(entries_of(pairs@)),
{
    let n: usize = pairs.len();
    let ghost entries = entries_of(pairs@);
    let mut place: Vec<usize> = Vec::new();
    while place.len() < n
        invariant
            place.len() <= n,
            forall|id: int| 0 <= id < place.len() ==> #[trigger] place[id] == n,
        decreases n - place.len(),
    {
        place.push(n);
    }
    let mut i: usize = 0;
    while i < n
        invariant
            i <= n,
            n == pairs.len(),
            entries == entries_of(pairs@),
            place.len() == n,
            forall|x: int| 0 <= x < i ==> (#[trigger] entries[x]).1 < n,
            forall|x: int, y: int|
                0 <= x < y < i ==> (#[trigger] entries[x]).1 != (#[trigger] entries[y]).1,
            forall|id: int|
                0 <= id < n && #[trigger] place[id] != n ==> place[id] < i && entries[place[id] as int].1
                    == id,
            forall|x: int| 0 <= x < i ==> place[(#[trigger] entries[x]).1 as int] == x,
        decreases n - i,
    {
        let id: usize = pairs[i].1;
        assert(entries[i as int].1 == id);
        if id >= n {
            return None;
        }
        if place[id] != n {
            proof {
                let earlier = place[id as int] as int;
                assert(entries[earlier].1 == entries[i as int].1);
            }
            return None;
        }
        place[id] = i;
        i += 1;
    }
    let mut names: Vec<String> = Vec::new();
    let mut id: usize = 0;
    while id < n
        invariant
            id <= n,
            n == pairs.len(),
            entries == entries_of(pairs@),
            is_numbering(entries),
            place.len() == n,
            forall|x: int| 0 <= x < n ==> place[(#[trigger] entries[x]).1 as int] == x,
            names.len() == id,
            forall|x: int| 0 <= x < id ==> (#[trigger] names[x])@ == ordered(entries)[x],
        decreases n - id,
    {
        proof {
            lemma_numbering_is_onto(entries, id as int);
            let h = holder(entries, id as int);
            assert(place[entries[h].1 as int] == h);
        }
        let at: usize = place[id];
        names.push(pairs[at].0.clone());
        id += 1;
    }
    Some(names)
}

/// Gives each name of a list its place as its id.
pub fn number(names: &Vec<String>) -> (pairs: Vec<(String, usize)>)
    ensures
        entries_of(pairs@) == numbered(text_of(names@)),
{
    let mut pairs: Vec<(String, usize)> = Vec::new();
    let mut i: usize = 0;
    while i < names.len()
        invariant
            i <= names.len(),
            pairs.len() == i,
            forall|x: int| 0 <= x < i ==> (#[trigger] pairs[x]).0@ == names[x]@ && pairs[x].1 == x,
        decreases names.len() - i,
    {
        pairs.push((names[i].clone(), i));
        i += 1;
    }
    pairs
}

/// Copies a list of strings.
fn copy_strings(strings: &Vec<String>) -> (copy: Vec<String>)
    ensures
        text_of(copy@) == text_of(strings@),
{
    let mut copy: Vec<String> = Vec::new();
    let mut i: usize = 0;
    while i < strings.len()
        invariant
            i <= strings.len(),
            copy.len() == i,
            forall|x: int| 0 <= x < i ==> (#[trigger] copy[x])@ == strings[x]@,
        decreases strings.len() - i,
    {
        copy.push(strings[i].clone());
        i += 1;
    }
    copy
}

/// Copies a list of vote lists.
fn copy_ballots(lists: &Vec<Vec<Vote>>) -> (copy: Vec<Vec<Vote>>)
    ensures
        ballots_of(copy@) == ballots_of(lists@),
{
    let mut copy: Vec<Vec<Vote>> = Vec::new();
    let mut a: usize = 0;
    while a < lists.len()
        invariant
            a <= lists.len(),
            copy.len() == a,
            forall|x: int| 0 <= x < a ==> (#[trigger] copy[x])@ == lists[x]@,
        decreases lists.len() - a,
    {
        let list = &lists[a];
        let mut row: Vec<Vote> = Vec::new();
        let mut j: usize = 0;
        while j < list.len()
            invariant
                j <= list.len(),
                row@ == list@.subrange(0, j as int),
            decreases list.len() - j,
        {
            row.push(list[j]);
            j += 1;
        }
        copy.push(row);
        a += 1;
    }
    copy
}

/// Copies a list of id lists.
fn copy_rows(lists: &Vec<Vec<usize>>) -> (copy: Vec<Vec<usize>>)
    ensures
        rows_of(copy@) == rows_of(lists@),
{
    let mut copy: Vec<Vec<usize>> = Vec::new();
    let mut u: usize = 0;
    while u < lists.len()
        invariant
            u <= lists.len(),
            copy.len() == u,
            forall|x: int| 0 <= x < u ==> (#[trigger] copy[x])@ == lists[x]@,
        decreases lists.len() - u,
    {
        let list = &lists[u];
        let mut row: Vec<usize> = Vec::new();
        let mut j: usize = 0;
        while j < list.len()
            invariant
                j <= list.len(),
                row@ == list@.subrange(0, j as int),
            decreases list.len() - j,
        {
            row.push(list[j]);
            j += 1;
        }
        copy.push(row);
        u += 1;
    }
    copy
}

impl Database {
    /// Takes a copy of the database apart for storage.
    pub fn to_parts(&self) -> (parts: DatabaseParts)
        requires
            self.wf(),
        ensures
            parts@ == self@.parts(),
            parts@.valid(),
            parts@.decoded() == self@,
    {
        proof {
            self.lemma_counts_fit();
            lemma_numbered_then_ordered(self@.articles);
            lemma_numbered_then_ordered(self@.users);
        }
        DatabaseParts {
            articles: number(self.article_keys()),
            page_ids: copy_strings(self.page_ids()),
            article_votes: copy_ballots(self.article_votes()),
            total_votes: self.total_votes(),
            users: number(self.user_names()),
        }
    }

    /// Puts a database together from its parts, which are refused unless
    /// they describe a database.
    pub fn from_parts(parts: DatabaseParts) -> (r: Result<Database, Error>)
        ensures
            r is Ok <==> parts@.valid(),
            match r {
                Ok(db) => db.wf() && db@ == parts@.decoded(),
                Err(e) => e == Error::Decode,
            },
    {
        let article_keys = match order_by_id(&parts.articles) {
            Some(names) => names,
            None => {
                return Err(Error::Decode);
            },
        };
        let user_names = match order_by_id(&parts.users) {
            Some(names) => names,
            None => {
                return Err(Error::Decode);
            },
        };
        Database::from_lists(
            article_keys,
            parts.page_ids,
            parts.article_votes,
            parts.total_votes,
            user_names,
        )
    }
}

/// A database that is taken apart and put together again is the same
/// database: every list, every id and the number of votes are as before.
pub proof fn lemma_database_round_trip(db: Database)
    requires
        db.wf(),
    ensures
        db@.parts().valid(),
        db@.parts().decoded() == db@,
{
    db.lemma_counts_fit();
    lemma_numbered_then_ordered(db@.articles);
    lemma_numbered_then_ordered(db@.users);
}

/// Ids are stable across storage: the database put together from the parts
/// of a database knows every article key and every user name under the id
/// it had.
pub proof fn lemma_ids_survive_storage(db: Database, name: Seq<char>)
    requires
        db.wf(),
    ensures
        db@.parts().decoded().article_id(name) == db@.article_id(name),
        db@.parts().decoded().user_id(name) == db@.user_id(name),
{
    lemma_database_round_trip(db);
}

/// What is put together from the parts of a database does not depend on
/// the order in which the entries of the two mappings stand.
pub proof fn lemma_parts_order_is_immaterial(first: PartsView, second: PartsView)
    requires
        first.valid(),
        is_numbering(second.articles),
        is_numbering(second.users),
        second.articles.len() == first.articles.len(),
        second.users.len() == first.users.len(),
        forall|i: int|
            0 <= i < first.articles.len() ==> second.articles.contains(#[trigger] first.articles[i]),
        forall|i: int| 0 <= i < first.users.len() ==> second.users.contains(#[trigger] first.users[i]),
        second.page_ids == first.page_ids,
        second.votes == first.votes,
        second.total_votes == first.total_votes,
    ensures
        second.valid(),
        second.decoded() == first.decoded(),
{
    lemma_entry_order_is_immaterial(first.articles, second.articles);
    lemma_entry_order_is_immaterial(first.users, second.users);
}

/// A matrix taken apart for storage: its shape and its cells, column after
/// column, each the bits of a double-precision number.
#[derive(Clone, Debug, PartialEq, Eq)]
pub struct MatrixParts {
    /// The number of rows.
    pub rows: usize,
    /// The number of columns.
    pub cols: usize,
    /// The cells, column after column.
    pub cells: Vec<u64>,
}

impl View for MatrixParts {
    type V = MatrixView;

    open spec fn view(&self) -> MatrixView {
        MatrixView { rows: self.rows as nat, cols: self.cols as nat, cells: self.cells@ }
    }
}

/// A model taken apart for storage: the parts of its database, its two
/// factor matrices, and its filter of seen articles.
#[derive(Clone, Debug, PartialEq, Eq)]
pub struct ModelParts {
    /// The parts of the database the model was trained on.
    pub database: DatabaseParts,
    /// The user factor matrix.
    pub user_factors: MatrixParts,
    /// The article factor matrix.
    pub article_factors: MatrixParts,
    /// For each user, by id, the articles not recommended to the user.
    pub user_votes: Vec<Vec<usize>>,
}

/// The mathematical content of a [`ModelParts`].
pub struct ModelPartsView {
    /// The parts of the database the model was trained on.
    pub database: PartsView,
    /// The user factor matrix.
    pub user_factors: MatrixView,
    /// The article factor matrix.
    pub article_factors: MatrixView,
    /// For each user, by id, the articles not recommended to the user.
    pub seen: Seq<Seq<usize>>,
}

impl View for ModelParts {
    type V = ModelPartsView;

    open spec fn view(&self) -> ModelPartsView {
        ModelPartsView {
            database: self.database@,
            user_factors: self.user_factors@,
            article_factors: self.article_factors@,
            seen: rows_of(self.user_votes@),
        }
    }
}

impl ModelPartsView {
    /// The model that the parts describe.
    pub open spec fn decoded(self) -> ModelView {
        ModelView {
            database: self.database.decoded(),
            user_factors: self.user_factors,
            article_factors: self.article_factors,
            seen: self.seen,
        }
    }

    /// The parts describe a model: the database parts describe a database,
    /// and what all parts together describe satisfies the invariant of a
    /// model.
    pub open spec fn valid(self) -> bool {
        &&& self.database.valid()
        &&& self.decoded().wf()
    }
}

impl ModelView {
    /// The parts that the model is stored as.
    pub open spec fn parts(self) -> ModelPartsView {
        ModelPartsView {
            database: self.database.parts(),
            user_factors: self.user_factors,
            article_factors: self.article_factors,
            seen: self.seen,
        }
    }
}

/// Copies a list of numbers.
fn copy_cells(cells: &Vec<u64>) -> (copy: Vec<u64>)
    ensures
        copy@ == cells@,
{
    let mut copy: Vec<u64> = Vec::new();
    let mut i: usize = 0;
    while i < cells.len()
        invariant
            i <= cells.len(),
            copy@ == cells@.subrange(0, i as int),
        decreases cells.len() - i,
    {
        copy.push(cells[i]);
        i += 1;
    }
    copy
}

impl Matrix {
    /// Takes a copy of the matrix apart for storage.
    pub fn to_parts(&self) -> (parts: MatrixParts)
        ensures
            parts@ == self@,
    {
        MatrixParts { rows: self.rows(), cols: self.cols(), cells: copy_cells(self.cells()) }
    }

    /// Puts a matrix together from its parts, unless the number of the
    /// cells is not that of the shape.
    pub fn from_parts(parts: MatrixParts) -> (matrix: Option<Matrix>)
        ensures
            matrix is Some <==> parts@.wf(),
            matrix is Some ==> matrix->0.wf() && matrix->0@ == parts@,
    {
        Matrix::from_cells(parts.rows, parts.cols, parts.cells)
    }
}

/// Whether the list of each of the `users` users holds every article that
/// the user has voted on.
pub fn filter_covers_votes(
    user_votes: &Vec<Vec<usize>>,
    votes: &Vec<Vec<Vote>>,
    users: usize,
) -> (ok: bool)
    requires
        forall|a: int| 0 <= a < votes.len() ==> votes_in_range(#[trigger] votes[a]@, users as nat),
    ensures
        ok == covers_votes(rows_of(user_votes@), ballots_of(votes@), users as nat),
{
    if user_votes.len() != users {
        return false;
    }
    let ghost seen = rows_of(user_votes@);
    let ghost ballots = ballots_of(votes@);
    let exact = seen_filter(votes, users);
    let ghost voted = rows_of(exact@);
    let mut u: usize = 0;
    while u < users
        invariant
            u <= users,
            user_votes.len() == users,
            exact.len() == users,
            seen == rows_of(user_votes@),
            ballots == ballots_of(votes@),
            voted == rows_of(exact@),
            is_seen_filter(voted, ballots, users as nat),
            forall|v: int, i: int|
                0 <= v < u && 0 <= i < voted[v].len() ==> listed(seen[v], #[trigger] voted[v][i] as int),
        decreases users - u,
    {
        let mask = mark_ids(&user_votes[u], votes.len());
        let row = &exact[u];
        let mut i: usize = 0;
        while i < row.len()
            invariant
                i <= row.len(),
                u < users,
                user_votes.len() == users,
                seen == rows_of(user_votes@),
                ballots == ballots_of(votes@),
                row@ == voted[u as int],
                is_seen_filter(voted, ballots, users as nat),
                mask.len() == votes.len(),
                forall|a: int|
                    0 <= a < votes.len() ==> #[trigger] mask[a] == listed(user_votes[u as int]@, a),
                forall|x: int| 0 <= x < i ==> listed(seen[u as int], #[trigger] row[x] as int),
            decreases row.len() - i,
        {
            let article: usize = row[i];
            if !mask[article] {
                proof {
                    // The user has cast a vote on the article, and the
                    // user's list lacks it.
                    let a = article as int;
                    let j = choose|j: int|
                        0 <= j < ballots[a].len() && (#[trigger] ballots[a][j]).0 == u;
                    assert(!listed(seen[ballots[a][j].0 as int], a));
                }
                return false;
            }
            i += 1;
        }
        u += 1;
    }
    proof {
        assert forall|a: int, j: int|
            0 <= a < ballots.len() && 0 <= j < ballots[a].len() && (#[trigger] ballots[a][j]).0
                < users implies listed(seen[ballots[a][j].0 as int], a) by {
            let v = ballots[a][j].0 as int;
            let i = choose|i: int| 0 <= i < voted[v].len() && #[trigger] voted[v][i] == a;
            assert(listed(seen[v], voted[v][i] as int));
        }
    }
    true
}

impl PredictionModel {
    /// Takes a copy of the model apart for storage.
    pub fn to_parts(&self) -> (parts: ModelParts)
        requires
            self.wf(),
        ensures
            parts@ == self@.parts(),
            parts@.valid(),
            parts@.decoded() == self@,
    {
        ModelParts {
            database: self.database().to_parts(),
            user_factors: self.user_factors().to_parts(),
            article_factors: self.article_factors().to_parts(),
            user_votes: copy_rows(self.user_votes()),
        }
    }

    /// Puts a model together from its parts, which are refused unless they
    /// describe a model.
    pub fn from_parts(parts: ModelParts) -> (r: Result<PredictionModel, Error>)
        ensures
            r is Ok <==> parts@.valid(),
            match r {
                Ok(model) => model.wf() && model@ == parts@.decoded(),
                Err(e) => e == Error::Decode,
            },
    {
        let database = match Database::from_parts(parts.database) {
            Ok(database) => database,
            Err(_) => {
                return Err(Error::Decode);
            },
        };
        let user_factors = match Matrix::from_parts(parts.user_factors) {
            Some(matrix) => matrix,
            None => {
                return Err(Error::Decode);
            },
        };
        let article_factors = match Matrix::from_parts(parts.article_factors) {
            Some(matrix) => matrix,
            None => {
                return Err(Error::Decode);
            },
        };
        let users: usize = database.user_count();
        let articles: usize = database.article_count();
        let factors: usize = user_factors.cols();
        if user_factors.rows() != users || article_factors.rows() != articles || article_factors.cols()
            != factors || factors < 1 {
            return Err(Error::Decode);
        }
        if !filter_covers_votes(&parts.user_votes, database.article_votes(), users) {
            return Err(Error::Decode);
        }
        Ok(PredictionModel::assemble(database, user_factors, article_factors, parts.user_votes))
    }
}

/// A model that is taken apart and put together again is the same model:
/// its database, the shapes of its matrices and its filter are as before.
pub proof fn lemma_model_round_trip(model: PredictionModel)
    requires
        model.wf(),
    ensures
        model@.parts().valid(),
        model@.parts().decoded() == model@,
{
    model.lemma_database_fits();
    lemma_numbered_then_ordered(model@.database.articles);
    lemma_numbered_then_ordered(model@.database.users);
}

} // verus!

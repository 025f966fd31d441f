use crate::error::Error;
use vstd::hash_map::StringHashMap;
use vstd::prelude::*;

verus! {

/// One vote: the id of the user who cast it, and whether it is an upvote.
pub type Vote = (usize, bool);

/// Number of votes held by the given per-article vote lists.
pub open spec fn count_votes(votes: Seq<Seq<Vote>>) -> nat
    decreases votes.len(),
{
    if votes.len() == 0 {
        0
    } else {
        count_votes(votes.drop_last()) + votes.last().len()
    }
}

/// Every vote of the list was cast by one of the first `users` users.
pub open spec fn votes_in_range(votes: Seq<Vote>, users: nat) -> bool {
    forall|j: int| 0 <= j < votes.len() ==> (#[trigger] votes[j]).0 < users
}

/// One of the votes of the list was cast by `user`.
pub open spec fn voted_in(votes: Seq<Vote>, user: int) -> bool {
    exists|j: int| 0 <= j < votes.len() && (#[trigger] votes[j]).0 == user
}

/// The mathematical content of a [`Database`].
pub struct DatabaseView {
    /// Article keys; the position of a key is the article's id.
    pub articles: Seq<Seq<char>>,
    /// Page identifier of each article, by article id.
    pub page_ids: Seq<Seq<char>>,
    /// Votes on each article, by article id, in the order they were given.
    pub votes: Seq<Seq<Vote>>,
    /// The cached number of votes.
    pub total_votes: nat,
    /// User names; the position of a name is the user's id.
    pub users: Seq<Seq<char>>,
}

impl DatabaseView {
    /// The database without any article or user.
    pub open spec fn empty() -> DatabaseView {
        DatabaseView {
            articles: Seq::empty(),
            page_ids: Seq::empty(),
            votes: Seq::empty(),
            total_votes: 0,
            users: Seq::empty(),
        }
    }

    /// Ids are dense and unique, every vote names a stored user, and the
    /// cached total is the exact number of votes.
    pub open spec fn wf(self) -> bool {
        &&& self.page_ids.len() == self.articles.len()
        &&& self.votes.len() == self.articles.len()
        &&& self.articles.no_duplicates()
        &&& self.users.no_duplicates()
        &&& forall|a: int|
            0 <= a < self.votes.len() ==> votes_in_range(#[trigger] self.votes[a], self.users.len())
        &&& self.total_votes == count_votes(self.votes)
    }

    /// The id of the article stored under `key`, if there is one.
    pub open spec fn article_id(self, key: Seq<char>) -> Option<int> {
        if self.articles.contains(key) {
            Some(self.articles.index_of(key))
        } else {
            None
        }
    }

    /// The id of the user called `name`, if there is one.
    pub open spec fn user_id(self, name: Seq<char>) -> Option<int> {
        if self.users.contains(name) {
            Some(self.users.index_of(name))
        } else {
            None
        }
    }

    /// The votes on the article stored under `key`.
    pub open spec fn votes_on(self, key: Seq<char>) -> Seq<Vote> {
        self.votes[self.articles.index_of(key)]
    }

    /// Every article and every user of this database is in `later` under
    /// the id it has here.
    pub open spec fn ids_kept_by(self, later: DatabaseView) -> bool {
        &&& forall|key: Seq<char>| #[trigger]
            self.articles.contains(key) ==> later.article_id(key) == self.article_id(key)
        &&& forall|name: Seq<char>| #[trigger]
            self.users.contains(name) ==> later.user_id(name) == self.user_id(name)
    }

    /// User `user` has voted on article `article`.
    pub open spec fn has_voted(self, user: int, article: int) -> bool {
        0 <= article < self.votes.len() && voted_in(self.votes[article], user)
    }
}

/// What `add_article` answers on the database `db`.
pub open spec fn add_article_outcome(db: DatabaseView, key: Seq<char>, votes: Seq<Vote>) -> Result<
    (),
    Error,
> {
    if db.articles.contains(key) {
        Err(Error::DuplicateArticle)
    } else if !votes_in_range(votes, db.users.len()) {
        Err(Error::UnknownUser)
    } else {
        Ok(())
    }
}

/// What `update_article` answers on the database `db`.
pub open spec fn update_article_outcome(db: DatabaseView, key: Seq<char>, votes: Seq<Vote>) -> Result<
    (),
    Error,
> {
    if !db.articles.contains(key) {
        Err(Error::UnknownArticle)
    } else if !votes_in_range(votes, db.users.len()) {
        Err(Error::UnknownUser)
    } else {
        Ok(())
    }
}

/// The views of the strings of a list, in order.
pub open spec fn text_of(strings: Seq<String>) -> Seq<Seq<char>> {
    Seq::new(strings.len(), |i: int| strings[i]@)
}

/// The views of the vote lists of a list, in order.
pub open spec fn ballots_of(lists: Seq<Vec<Vote>>) -> Seq<Seq<Vote>> {
    Seq::new(lists.len(), |i: int| lists[i]@)
}

/// The database that the given lists describe.
pub open spec fn lists_view(
    article_keys: Seq<String>,
    page_ids: Seq<String>,
    article_votes: Seq<Vec<Vote>>,
    total_votes: usize,
    user_names: Seq<String>,
) -> DatabaseView {
    DatabaseView {
        articles: text_of(article_keys),
        page_ids: text_of(page_ids),
        votes: ballots_of(article_votes),
        total_votes: total_votes as nat,
        users: text_of(user_names),
    }
}

/// `index` maps every string of `names` to its position, and nothing else.
pub open spec fn mirrors(index: Map<Seq<char>, usize>, names: Seq<Seq<char>>) -> bool {
    &&& forall|i: int|
        0 <= i < names.len() ==> index.contains_key(#[trigger] names[i]) && index[names[i]] == i
    &&& forall|k: Seq<char>| #[trigger]
        index.contains_key(k) ==> index[k] < names.len() && names[index[k] as int] == k
}

/// Articles, users and the users' votes on the articles.
///
/// Articles and users get dense ids in the order in which they are first
/// stored; an id, once given, never changes.
pub struct Database {
    article_ids: StringHashMap<usize>,
    article_keys: Vec<String>,
    page_ids: Vec<String>,
    article_votes: Vec<Vec<Vote>>,
    total_votes: usize,
    user_ids: StringHashMap<usize>,
    user_names: Vec<String>,
}

impl View for Database {
    type V = DatabaseView;

    closed spec fn view(&self) -> DatabaseView {
        DatabaseView {
            articles: text_of(self.article_keys@),
            page_ids: text_of(self.page_ids@),
            votes: ballots_of(self.article_votes@),
            total_votes: self.total_votes as nat,
            users: text_of(self.user_names@),
        }
    }
}

/// A sequence that an index mirrors holds no string twice.
pub proof fn lemma_mirrored_names_are_distinct(index: Map<Seq<char>, usize>, names: Seq<Seq<char>>)
    requires
        mirrors(index, names),
    ensures
        names.no_duplicates(),
{
}

/// A name keeps its place among names without duplicates when the list is
/// extended.
pub proof fn lemma_extension_keeps_place(names: Seq<Seq<char>>, longer: Seq<Seq<char>>, name: Seq<char>)
    requires
        names.is_prefix_of(longer),
        longer.no_duplicates(),
        names.contains(name),
    ensures
        longer.contains(name),
        longer.index_of(name) == names.index_of(name),
{
    let i = names.index_of(name);
    assert(longer[i] == name);
    let j = longer.index_of(name);
    assert(longer[j] == name);
}

/// Ids are never given out again and never change: a database that
/// extends the lists of articles and of users of another knows every
/// article and every user of the other under the same id.
pub proof fn lemma_extension_keeps_ids(before: DatabaseView, after: DatabaseView)
    requires
        after.wf(),
        before.articles.is_prefix_of(after.articles),
        before.users.is_prefix_of(after.users),
    ensures
        before.ids_kept_by(after),
{
    assert forall|key: Seq<char>| #[trigger] before.articles.contains(key) implies after.article_id(key)
        == before.article_id(key) by {
        lemma_extension_keeps_place(before.articles, after.articles, key);
    }
    assert forall|name: Seq<char>| #[trigger] before.users.contains(name) implies after.user_id(name)
        == before.user_id(name) by {
        lemma_extension_keeps_place(before.users, after.users, name);
    }
}

/// Appending a vote list adds its length to the count.
pub proof fn lemma_count_votes_push(votes: Seq<Seq<Vote>>, list: Seq<Vote>)
    ensures
        count_votes(votes.push(list)) == count_votes(votes) + list.len(),
{
    assert(votes.push(list).drop_last() =~= votes);
}

/// Replacing a vote list changes the count by the difference of the lengths.
pub proof fn lemma_count_votes_update(votes: Seq<Seq<Vote>>, article: int, list: Seq<Vote>)
    requires
        0 <= article < votes.len(),
    ensures
        count_votes(votes.update(article, list)) == count_votes(votes) - votes[article].len()
            + list.len(),
        votes[article].len() <= count_votes(votes),
    decreases votes.len(),
{
    let updated = votes.update(article, list);
    if article == votes.len() - 1 {
        assert(updated.drop_last() =~= votes.drop_last());
    } else {
        lemma_count_votes_update(votes.drop_last(), article, list);
        assert(updated.drop_last() =~= votes.drop_last().update(article, list));
    }
}

/// Whether every vote of `votes` was cast by one of the first `users` users.
pub fn all_votes_in_range(votes: &Vec<Vote>, users: usize) -> (ok: bool)
    ensures
        ok == votes_in_range(votes@, users as nat),
{
    let mut j: usize = 0;
    while j < votes.len()
        invariant
            j <= votes.len(),
            forall|i: int| 0 <= i < j ==> (#[trigger] votes@[i]).0 < users,
        decreases votes.len() - j,
    {
        if votes[j].0 >= users {
            return false;
        }
        j += 1;
    }
    true
}

/// The votes of the first lists are among the votes of all.
pub proof fn lemma_count_votes_prefix(votes: Seq<Seq<Vote>>, n: int)
    requires
        0 <= n <= votes.len(),
    ensures
        count_votes(votes.subrange(0, n)) <= count_votes(votes),
    decreases votes.len(),
{
    if n == votes.len() {
        assert(votes.subrange(0, n) =~= votes);
    } else {
        lemma_count_votes_prefix(votes.drop_last(), n);
        assert(votes.drop_last().subrange(0, n) =~= votes.subrange(0, n));
    }
}

/// Counts the votes of all lists, unless there are more than a `usize`
/// can hold.
fn count_all(votes: &Vec<Vec<Vote>>) -> (total: Option<usize>)
    ensures
        match total {
            Some(t) => t == count_votes(ballots_of(votes@)),
            None => count_votes(ballots_of(votes@)) > usize::MAX,
        },
{
    let ghost ballots = ballots_of(votes@);
    let mut total: usize = 0;
    let mut a: usize = 0;
    while a < votes.len()
        invariant
            a <= votes.len(),
            ballots == ballots_of(votes@),
            total == count_votes(ballots.subrange(0, a as int)),
        decreases votes.len() - a,
    {
        proof {
            assert(ballots.subrange(0, a + 1).drop_last() =~= ballots.subrange(0, a as int));
            lemma_count_votes_prefix(ballots, a + 1);
        }
        let length: usize = votes[a].len();
        if length > usize::MAX - total {
            return None;
        }
        total = total + length;
        a += 1;
    }
    proof {
        assert(ballots.subrange(0, votes.len() as int) =~= ballots);
    }
    Some(total)
}

/// Builds the index of a list of names, unless a name occurs twice.
fn index_names(names: &Vec<String>) -> (index: Option<StringHashMap<usize>>)
    ensures
        match index {
            Some(m) => mirrors(m@, text_of(names@)),
            None => !text_of(names@).no_duplicates(),
        },
{
    let ghost text = text_of(names@);
    let mut index: StringHashMap<usize> = StringHashMap::new();
    let mut i: usize = 0;
    while i < names.len()
        invariant
            i <= names.len(),
            text == text_of(names@),
            mirrors(index@, text.subrange(0, i as int)),
        decreases names.len() - i,
    {
        if index.contains_key(names[i].as_str()) {
            proof {
                let earlier = index@[text[i as int]] as int;
                assert(text[earlier] == text[i as int]);
            }
            return None;
        }
        index.insert(names[i].clone(), i);
        i += 1;
    }
    proof {
        assert(text.subrange(0, names.len() as int) =~= text);
    }
    Some(index)
}

/// Whether every vote of every list was cast by one of the first `users`
/// users.
fn all_lists_in_range(votes: &Vec<Vec<Vote>>, users: usize) -> (ok: bool)
    ensures
        ok == forall|a: int|
            0 <= a < votes.len() ==> votes_in_range(#[trigger] ballots_of(votes@)[a], users as nat),
{
    let mut a: usize = 0;
    while a < votes.len()
        invariant
            a <= votes.len(),
            forall|b: int| 0 <= b < a ==> votes_in_range(#[trigger] ballots_of(votes@)[b], users as nat),
        decreases votes.len() - a,
    {
        if !all_votes_in_range(&votes[a], users) {
            assert(!votes_in_range(ballots_of(votes@)[a as int], users as nat));
            return false;
        }
        a += 1;
    }
    true
}

impl Database {
    /// The name index and the key index agree with the lists they index.
    pub closed spec fn indexed(&self) -> bool {
        &&& mirrors(self.article_ids@, text_of(self.article_keys@))
        &&& mirrors(self.user_ids@, text_of(self.user_names@))
    }

    /// The invariant of the database.
    pub open spec fn wf(&self) -> bool {
        self.indexed() && self@.wf()
    }

    /// Creates an empty database.
    pub fn new() -> (db: Database)
        ensures
            db.wf(),
            db@ == DatabaseView::empty(),
            db@.total_votes == count_votes(db@.votes),
    {
        let db = Database {
            article_ids: StringHashMap::new(),
            article_keys: Vec::new(),
            page_ids: Vec::new(),
            article_votes: Vec::new(),
            total_votes: 0,
            user_ids: StringHashMap::new(),
            user_names: Vec::new(),
        };
        proof {
            assert(db@.articles =~= Seq::empty());
            assert(db@.page_ids =~= Seq::empty());
            assert(db@.votes =~= Seq::empty());
            assert(db@.users =~= Seq::empty());
        }
        db
    }

    /// Returns the id of the user called `user`, storing the name under the
    /// next free id if it is new.
    pub fn add_user(&mut self, user: String) -> (id: usize)
        requires
            old(self).wf(),
        ensures
            final(self).wf(),
            final(self)@.total_votes == count_votes(final(self)@.votes),
            old(self)@.ids_kept_by(final(self)@),
            old(self)@.users.contains(user@) ==> final(self)@ == old(self)@ && id
                == old(self)@.users.index_of(user@),
            !old(self)@.users.contains(user@) ==> id == old(self)@.users.len() && final(self)@ == (
            DatabaseView { users: old(self)@.users.push(user@), ..old(self)@ }),
    {
        let found = self.user_ids.get(user.as_str());
        if let Some(id) = found {
            return *id;
        }
        let id: usize = self.user_names.len();
        self.user_names.push(user.clone());
        self.user_ids.insert(user, id);
        proof {
            let before = text_of(old(self).user_names@);
            let after = text_of(self.user_names@);
            assert(after =~= before.push(user@));
            lemma_mirrored_names_are_distinct(self.user_ids@, after);
            lemma_extension_keeps_ids(old(self)@, self@);
        }
        id
    }

    /// Stores a new article under the next free id, with its page
    /// identifier and its votes.
    ///
    /// Nothing is stored if the key is taken, or if a vote names a user id
    /// that has not been given out.
    pub fn add_article(&mut self, article: String, page_id: String, votes: Vec<Vote>) -> (r: Result<
        (),
        Error,
    >)
        requires
            old(self).wf(),
            old(self)@.total_votes + votes.len() <= usize::MAX,
        ensures
            final(self).wf(),
            final(self)@.total_votes == count_votes(final(self)@.votes),
            old(self)@.ids_kept_by(final(self)@),
            r == add_article_outcome(old(self)@, article@, votes@),
            r is Ok ==> final(self)@ == (DatabaseView {
                articles: old(self)@.articles.push(article@),
                page_ids: old(self)@.page_ids.push(page_id@),
                votes: old(self)@.votes.push(votes@),
                total_votes: old(self)@.total_votes + votes@.len(),
                users: old(self)@.users,
            }),
            r is Err ==> final(self)@ == old(self)@,
    {
        if self.article_ids.contains_key(article.as_str()) {
            return Err(Error::DuplicateArticle);
        }
        if !all_votes_in_range(&votes, self.user_names.len()) {
            return Err(Error::UnknownUser);
        }
        let id: usize = self.article_keys.len();
        let ghost added = votes@;
        self.article_keys.push(article.clone());
        self.article_ids.insert(article, id);
        self.page_ids.push(page_id);
        self.total_votes = self.total_votes + votes.len();
        self.article_votes.push(votes);
        proof {
            let before = text_of(old(self).article_keys@);
            let after = text_of(self.article_keys@);
            assert(after =~= before.push(article@));
            lemma_mirrored_names_are_distinct(self.article_ids@, after);
            assert(self@.page_ids =~= old(self)@.page_ids.push(page_id@));
            assert(self@.votes =~= old(self)@.votes.push(added));
            lemma_count_votes_push(old(self)@.votes, added);
            lemma_extension_keeps_ids(old(self)@, self@);
        }
        Ok(())
    }

    /// Replaces the votes of a stored article; its id and page identifier
    /// stay as they are.
    ///
    /// Nothing changes if the key is unknown, or if a vote names a user id
    /// that has not been given out.
    pub fn update_article(&mut self, article: String, votes: Vec<Vote>) -> (r: Result<(), Error>)
        requires
            old(self).wf(),
            old(self)@.articles.contains(article@) ==> old(self)@.total_votes - old(self)@.votes_on(
                article@,
            ).len() + votes.len() <= usize::MAX,
        ensures
            final(self).wf(),
            final(self)@.total_votes == count_votes(final(self)@.votes),
            old(self)@.ids_kept_by(final(self)@),
            r == update_article_outcome(old(self)@, article@, votes@),
            r is Ok ==> final(self)@ == (DatabaseView {
                votes: old(self)@.votes.update(old(self)@.articles.index_of(article@), votes@),
                total_votes: (old(self)@.total_votes - old(self)@.votes_on(article@).len()
                    + votes@.len()) as nat,
                ..old(self)@
            }),
            r is Err ==> final(self)@ == old(self)@,
    {
        let id: usize = match self.article_id(article.as_str()) {
            Some(id) => id,
            None => {
                return Err(Error::UnknownArticle);
            },
        };
        if !all_votes_in_range(&votes, self.user_names.len()) {
            return Err(Error::UnknownUser);
        }
        let ghost added = votes@;
        proof {
            lemma_count_votes_update(self@.votes, id as int, added);
        }
        self.total_votes = self.total_votes - self.article_votes[id].len() + votes.len();
        self.article_votes[id] = votes;
        proof {
            assert(self@.votes =~= old(self)@.votes.update(id as int, added));
            lemma_extension_keeps_ids(old(self)@, self@);
        }
        Ok(())
    }

    /// The id of the article stored under `key`, if there is one.
    pub fn article_id(&self, key: &str) -> (id: Option<usize>)
        requires
            self.wf(),
        ensures
            match id {
                Some(i) => self@.article_id(key@) == Some(i as int) && i < self@.articles.len(),
                None => self@.article_id(key@) is None,
            },
    {
        let found = self.article_ids.get(key);
        match found {
            Some(i) => Some(*i),
            None => None,
        }
    }

    /// The id of the user called `name`, if there is one.
    pub fn user_id(&self, name: &str) -> (id: Option<usize>)
        requires
            self.wf(),
        ensures
            match id {
                Some(i) => self@.user_id(name@) == Some(i as int) && i < self@.users.len(),
                None => self@.user_id(name@) is None,
            },
    {
        let found = self.user_ids.get(name);
        match found {
            Some(i) => Some(*i),
            None => None,
        }
    }

    /// The page identifier of the article stored under `article`, if there
    /// is one.
    pub fn get_page_id(&self, article: &str) -> (page_id: Option<&String>)
        requires
            self.wf(),
        ensures
            match page_id {
                Some(p) => self@.articles.contains(article@) && p@
                    == self@.page_ids[self@.articles.index_of(article@)],
                None => !self@.articles.contains(article@),
            },
    {
        match self.article_id(article) {
            Some(id) => Some(&self.page_ids[id]),
            None => None,
        }
    }

    /// The number of stored articles.
    pub fn article_count(&self) -> (n: usize)
        ensures
            n == self@.articles.len(),
    {
        self.article_keys.len()
    }

    /// The number of stored users.
    pub fn user_count(&self) -> (n: usize)
        ensures
            n == self@.users.len(),
    {
        self.user_names.len()
    }

    /// The number of stored votes.
    pub fn total_votes(&self) -> (n: usize)
        ensures
            n == self@.total_votes,
    {
        self.total_votes
    }

    /// The votes on each article, by article id.
    pub fn article_votes(&self) -> (votes: &Vec<Vec<Vote>>)
        ensures
            ballots_of(votes@) == self@.votes,
            self.wf() ==> forall|a: int|
                0 <= a < votes.len() ==> votes_in_range(#[trigger] votes[a]@, self@.users.len()),
    {
        proof {
            if self.wf() {
                assert forall|a: int| 0 <= a < self.article_votes.len() implies votes_in_range(
                    #[trigger] self.article_votes[a]@,
                    self@.users.len(),
                ) by {
                    assert(self.article_votes[a]@ == self@.votes[a]);
                }
            }
        }
        &self.article_votes
    }

    /// The key of the article with the given id, if the id has been given
    /// out.
    pub fn article_key(&self, id: usize) -> (key: Option<&String>)
        ensures
            match key {
                Some(k) => id < self@.articles.len() && k@ == self@.articles[id as int],
                None => id >= self@.articles.len(),
            },
    {
        if id < self.article_keys.len() {
            Some(&self.article_keys[id])
        } else {
            None
        }
    }

    /// The name of the user with the given id, if the id has been given
    /// out.
    pub fn user_name(&self, id: usize) -> (name: Option<&String>)
        ensures
            match name {
                Some(n) => id < self@.users.len() && n@ == self@.users[id as int],
                None => id >= self@.users.len(),
            },
    {
        if id < self.user_names.len() {
            Some(&self.user_names[id])
        } else {
            None
        }
    }

    /// The page identifier of each article, by article id.
    pub fn page_ids(&self) -> (page_ids: &Vec<String>)
        ensures
            text_of(page_ids@) == self@.page_ids,
    {
        &self.page_ids
    }

    /// Builds a database from its lists: the article keys, page
    /// identifiers and vote lists by article id, the number of votes, and
    /// the user names by user id.
    ///
    /// The lists are refused unless they satisfy the invariant of a
    /// database.
    pub fn from_lists(
        article_keys: Vec<String>,
        page_ids: Vec<String>,
        article_votes: Vec<Vec<Vote>>,
        total_votes: usize,
        user_names: Vec<String>,
    ) -> (r: Result<Database, Error>)
        ensures
            match r {
                Ok(db) => db.wf() && db@ == lists_view(
                    article_keys@,
                    page_ids@,
                    article_votes@,
                    total_votes,
                    user_names@,
                ),
                Err(e) => e == Error::Decode,
            },
            r is Ok <==> lists_view(
                article_keys@,
                page_ids@,
                article_votes@,
                total_votes,
                user_names@,
            ).wf(),
    {
        if page_ids.len() != article_keys.len() || article_votes.len() != article_keys.len() {
            return Err(Error::Decode);
        }
        let article_ids = match index_names(&article_keys) {
            Some(index) => index,
            None => {
                return Err(Error::Decode);
            },
        };
        let user_ids = match index_names(&user_names) {
            Some(index) => index,
            None => {
                return Err(Error::Decode);
            },
        };
        if !all_lists_in_range(&article_votes, user_names.len()) {
            return Err(Error::Decode);
        }
        match count_all(&article_votes) {
            Some(counted) => {
                if counted != total_votes {
                    return Err(Error::Decode);
                }
            },
            None => {
                return Err(Error::Decode);
            },
        }
        proof {
            lemma_mirrored_names_are_distinct(article_ids@, text_of(article_keys@));
            lemma_mirrored_names_are_distinct(user_ids@, text_of(user_names@));
        }
        Ok(
            Database {
                article_ids,
                article_keys,
                page_ids,
                article_votes,
                total_votes,
                user_ids,
                user_names,
            },
        )
    }

    /// The article keys, by article id.
    pub fn article_keys(&self) -> (keys: &Vec<String>)
        ensures
            text_of(keys@) == self@.articles,
    {
        &self.article_keys
    }

    /// The user names, by user id.
    pub fn user_names(&self) -> (names: &Vec<String>)
        ensures
            text_of(names@) == self@.users,
    {
        &self.user_names
    }

    /// The numbers of articles and of users fit a `usize`.
    pub proof fn lemma_counts_fit(&self)
        ensures
            self@.articles.len() <= usize::MAX,
            self@.users.len() <= usize::MAX,
    {
        assert(self.article_keys@.len() == self.article_keys.len());
        assert(self.user_names@.len() == self.user_names.len());
    }
}

} // verus!

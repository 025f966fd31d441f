use crate::error::Error;
use crate::store::{
    count_votes, lemma_extension_keeps_ids, lemma_extension_keeps_place, text_of, Database,
    DatabaseView, Vote,
};
use vstd::prelude::*;
use vstd::string::StringExecFns;

verus! {

/// What every article key begins with.
pub const ARTICLE_PREFIX: &'static str = "scp-";

/// The least number of digits in an article key.
pub const ARTICLE_DIGITS: usize = 3;

/// The text of a vote that is an upvote.
pub const UPVOTE: &'static str = "+";

/// The character that writes the digit `digit`.
pub open spec fn digit_char(digit: nat) -> char {
    if digit == 0 {
        '0'
    } else if digit == 1 {
        '1'
    } else if digit == 2 {
        '2'
    } else if digit == 3 {
        '3'
    } else if digit == 4 {
        '4'
    } else if digit == 5 {
        '5'
    } else if digit == 6 {
        '6'
    } else if digit == 7 {
        '7'
    } else if digit == 8 {
        '8'
    } else {
        '9'
    }
}

/// The decimal digits of `number`, with zeros in front where there would
/// be fewer than `width`.
pub open spec fn digits_of(number: nat, width: nat) -> Seq<char>
    decreases number, width,
{
    if number < 10 && width <= 1 {
        seq![digit_char(number)]
    } else {
        digits_of(
            number / 10,
            if width > 1 {
                (width - 1) as nat
            } else {
                0
            },
        ).push(digit_char(number % 10))
    }
}

/// The key of the article with the given number.
pub open spec fn article_name_of(number: nat) -> Seq<char> {
    ARTICLE_PREFIX@ + digits_of(number, ARTICLE_DIGITS as nat)
}

/// The text that writes one digit.
fn digit_text(digit: usize) -> (text: &'static str)
    requires
        digit < 10,
    ensures
        text@ == seq![digit_char(digit as nat)],
{
    proof {
        reveal_strlit("0");
        reveal_strlit("1");
        reveal_strlit("2");
        reveal_strlit("3");
        reveal_strlit("4");
        reveal_strlit("5");
        reveal_strlit("6");
        reveal_strlit("7");
        reveal_strlit("8");
        reveal_strlit("9");
    }
    let text = if digit == 0 {
        "0"
    } else if digit == 1 {
        "1"
    } else if digit == 2 {
        "2"
    } else if digit == 3 {
        "3"
    } else if digit == 4 {
        "4"
    } else if digit == 5 {
        "5"
    } else if digit == 6 {
        "6"
    } else if digit == 7 {
        "7"
    } else if digit == 8 {
        "8"
    } else {
        "9"
    };
    text
}

/// Appends the decimal digits of `number` to `text`, with zeros in front
/// where there would be fewer than `width`.
pub fn write_digits(text: &mut String, number: usize, width: usize)
    ensures
        final(text)@ == old(text)@ + digits_of(number as nat, width as nat),
    decreases number, width,
{
    if number < 10 && width <= 1 {
        text.append(digit_text(number));
    } else {
        let rest: usize = if width > 1 {
            width - 1
        } else {
            0
        };
        write_digits(text, number / 10, rest);
        text.append(digit_text(number % 10));
    }
}

/// The key of the article with the given number: the prefix of all keys
/// and the number in at least three digits.
pub fn article_name(number: usize) -> (name: String)
    ensures
        name@ == article_name_of(number as nat),
{
    let mut name = ARTICLE_PREFIX.to_owned();
    write_digits(&mut name, number, ARTICLE_DIGITS);
    name
}

/// What is read from one entry of a page's list of votes, with the white
/// space around each text taken off.
#[derive(Clone, Debug, PartialEq, Eq)]
pub struct Span {
    /// The texts of the links of the entry. The second is the name of a
    /// user; the entry of a deleted account has no second link.
    pub links: Vec<String>,
    /// The text of the entry: for a vote, its sign.
    pub text: String,
}

/// The mathematical content of a [`Span`].
pub struct SpanView {
    /// The texts of the links of the entry.
    pub links: Seq<Seq<char>>,
    /// The text of the entry.
    pub text: Seq<char>,
}

impl SpanView {
    /// The name of the user that the entry gives: the text of its second
    /// link.
    pub open spec fn user(self) -> Option<Seq<char>> {
        if self.links.len() >= 2 {
            Some(self.links[1])
        } else {
            None
        }
    }
}

impl View for Span {
    type V = SpanView;

    open spec fn view(&self) -> SpanView {
        SpanView { links: text_of(self.links@), text: self.text@ }
    }
}

/// The views of the spans of a list, in order.
pub open spec fn spans_of(spans: Seq<Span>) -> Seq<SpanView> {
    Seq::new(spans.len(), |i: int| spans[i]@)
}

/// A vote as a page lists it: the name of the user, and whether it is an
/// upvote.
pub type Ballot = (String, bool);

/// The views of the ballots of a list, in order.
pub open spec fn cast_by(ballots: Seq<Ballot>) -> Seq<(Seq<char>, bool)> {
    Seq::new(ballots.len(), |i: int| (ballots[i].0@, ballots[i].1))
}

/// The votes read from the entries of a page.
#[derive(Clone, Debug, PartialEq, Eq)]
pub struct Ballots {
    /// The votes, in the order of the page.
    pub votes: Vec<Ballot>,
    /// Whether every entry was read: the last entry of a list with an odd
    /// number of entries has no partner and is left out.
    pub complete: bool,
}

/// The votes that the first `pairs` pairs of entries give.
///
/// The entries come in pairs, the user first and the vote second. A pair
/// whose first entry names no user gives no vote.
pub open spec fn ballots_in(spans: Seq<SpanView>, pairs: nat) -> Seq<(Seq<char>, bool)>
    decreases pairs,
{
    if pairs == 0 {
        Seq::empty()
    } else {
        let before = ballots_in(spans, (pairs - 1) as nat);
        match spans[2 * (pairs - 1)].user() {
            Some(name) => before.push((name, spans[2 * (pairs - 1) + 1].text == UPVOTE@)),
            None => before,
        }
    }
}

/// Reads the votes from the entries of a page's list of votes.
pub fn collect_ballots(spans: &Vec<Span>) -> (ballots: Ballots)
    ensures
        cast_by(ballots.votes@) == ballots_in(spans_of(spans@), spans.len() as nat / 2),
        ballots.complete == (spans.len() % 2 == 0),
{
    let upvote = UPVOTE.to_owned();
    let pairs: usize = spans.len() / 2;
    let mut votes: Vec<Ballot> = Vec::new();
    let mut pair: usize = 0;
    while pair < pairs
        invariant
            pair <= pairs,
            pairs == spans.len() / 2,
            upvote@ == UPVOTE@,
            cast_by(votes@) == ballots_in(spans_of(spans@), pair as nat),
        decreases pairs - pair,
    {
        let user = &spans[2 * pair];
        let vote = &spans[2 * pair + 1];
        if user.links.len() >= 2 {
            let up: bool = vote.text == upvote;
            votes.push((user.links[1].clone(), up));
        }
        pair += 1;
    }
    Ballots { votes, complete: spans.len() % 2 == 0 }
}

/// The users after the user called `name` was stored, if new.
pub open spec fn with_user(users: Seq<Seq<char>>, name: Seq<char>) -> Seq<Seq<char>> {
    if users.contains(name) {
        users
    } else {
        users.push(name)
    }
}

/// The users after the voters of the ballots were stored, each new name
/// under the next free id, in the order of the ballots.
pub open spec fn with_voters(users: Seq<Seq<char>>, ballots: Seq<(Seq<char>, bool)>) -> Seq<
    Seq<char>,
>
    decreases ballots.len(),
{
    if ballots.len() == 0 {
        users
    } else {
        with_user(with_voters(users, ballots.drop_last()), ballots.last().0)
    }
}

/// The votes that the ballots are, each with the id that its voter has
/// among `users`.
pub open spec fn votes_by(users: Seq<Seq<char>>, ballots: Seq<(Seq<char>, bool)>) -> Seq<Vote> {
    Seq::new(ballots.len(), |i: int| (users.index_of(ballots[i].0) as usize, ballots[i].1))
}

/// The database after a new article with the given ballots was recorded.
pub open spec fn with_article(
    db: DatabaseView,
    key: Seq<char>,
    page_id: Seq<char>,
    ballots: Seq<(Seq<char>, bool)>,
) -> DatabaseView {
    let users = with_voters(db.users, ballots);
    DatabaseView {
        articles: db.articles.push(key),
        page_ids: db.page_ids.push(page_id),
        votes: db.votes.push(votes_by(users, ballots)),
        total_votes: db.total_votes + ballots.len(),
        users,
    }
}

/// The users after the voters of some ballots were stored begin with the
/// users before.
pub proof fn lemma_voters_extend_users(users: Seq<Seq<char>>, ballots: Seq<(Seq<char>, bool)>)
    ensures
        users.is_prefix_of(with_voters(users, ballots)),
    decreases ballots.len(),
{
    if ballots.len() > 0 {
        lemma_voters_extend_users(users, ballots.drop_last());
    }
}

impl Database {
    /// Records a new article with the votes that its page lists: stores
    /// every voter who is new, in the order of the ballots, and then the
    /// article with its votes.
    ///
    /// Nothing is stored, no user either, if the key is taken.
    pub fn record_article(&mut self, article: String, page_id: String, ballots: Vec<Ballot>) -> (r:
        Result<(), Error>)
        requires
            old(self).wf(),
            old(self)@.total_votes + ballots.len() <= usize::MAX,
        ensures
            final(self).wf(),
            final(self)@.total_votes == count_votes(final(self)@.votes),
            old(self)@.ids_kept_by(final(self)@),
            r is Err <==> old(self)@.articles.contains(article@),
            match r {
                Ok(_) => final(self)@ == with_article(
                    old(self)@,
                    article@,
                    page_id@,
                    cast_by(ballots@),
                ),
                Err(e) => e == Error::DuplicateArticle && final(self)@ == old(self)@,
            },
    {
        if self.article_id(article.as_str()).is_some() {
            proof {
                lemma_extension_keeps_ids(self@, self@);
            }
            return Err(Error::DuplicateArticle);
        }
        let ghost cast = cast_by(ballots@);
        let mut votes: Vec<Vote> = Vec::new();
        let mut i: usize = 0;
        while i < ballots.len()
            invariant
                i <= ballots.len(),
                cast == cast_by(ballots@),
                self.wf(),
                self@ == (DatabaseView {
                    users: with_voters(old(self)@.users, cast.subrange(0, i as int)),
                    ..old(self)@
                }),
                votes@ == votes_by(self@.users, cast.subrange(0, i as int)),
                forall|x: int| 0 <= x < i ==> self@.users.contains(#[trigger] cast[x].0),
            decreases ballots.len() - i,
        {
            let ghost before = self@.users;
            let ghost done = cast.subrange(0, i as int);
            let ghost next = cast.subrange(0, i + 1);
            let name = ballots[i].0.clone();
            let up: bool = ballots[i].1;
            let id: usize = self.add_user(name);
            votes.push((id, up));
            proof {
                let after = self@.users;
                let voter = cast[i as int].0;
                assert(next.drop_last() =~= done);
                if !before.contains(voter) {
                    assert(after[before.len() as int] == voter);
                }
                assert forall|x: int| 0 <= x < i + 1 implies after.contains(#[trigger] cast[x].0) by {
                    if x < i {
                        lemma_extension_keeps_place(before, after, cast[x].0);
                    }
                }
                assert forall|x: int| 0 <= x < i + 1 implies #[trigger] votes@[x] == votes_by(
                    after,
                    next,
                )[x] by {
                    if x < i {
                        lemma_extension_keeps_place(before, after, cast[x].0);
                    } else if !before.contains(voter) {
                        let j = after.index_of(voter);
                        assert(after[j] == voter);
                    }
                }
            }
            i += 1;
        }
        proof {
            assert(cast.subrange(0, ballots.len() as int) =~= cast);
            assert forall|j: int| 0 <= j < votes@.len() implies (#[trigger] votes@[j]).0
                < self@.users.len() by {
                let at = self@.users.index_of(cast[j].0);
                assert(self@.users[at] == cast[j].0);
            }
        }
        let r = self.add_article(article, page_id, votes);
        proof {
            lemma_voters_extend_users(old(self)@.users, cast);
            lemma_extension_keeps_ids(old(self)@, self@);
        }
        r
    }
}

} // verus!

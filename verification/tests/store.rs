use vote_recommender::{Database, Error};

fn sum_of_lengths(db: &Database) -> usize {
    db.article_votes().iter().map(|votes| votes.len()).sum()
}

#[test]
fn new_database_is_empty() {
    let db = Database::new();
    assert_eq!(db.user_count(), 0);
    assert_eq!(db.article_count(), 0);
    assert_eq!(db.total_votes(), 0);
    assert!(db.article_votes().is_empty());
    assert_eq!(db.get_page_id("a1"), None);
}

#[test]
fn add_user_gives_dense_ids_and_remembers_names() {
    let mut db = Database::new();
    assert_eq!(db.add_user("alice".to_string()), 0);
    assert_eq!(db.add_user("bob".to_string()), 1);
    assert_eq!(db.add_user("alice".to_string()), 0);
    assert_eq!(db.add_user("carol".to_string()), 2);
    assert_eq!(db.user_count(), 3);
    assert_eq!(db.user_id("bob"), Some(1));
    assert_eq!(db.user_id("dave"), None);
    assert_eq!(db.user_name(2), Some(&"carol".to_string()));
    assert_eq!(db.user_name(3), None);
}

#[test]
fn add_article_gives_dense_ids_in_order() {
    let mut db = Database::new();
    db.add_user("u0".to_string());
    assert_eq!(db.add_article("x".to_string(), "px".to_string(), vec![(0, true)]), Ok(()));
    assert_eq!(db.add_article("y".to_string(), "py".to_string(), vec![]), Ok(()));
    assert_eq!(db.add_article("z".to_string(), "pz".to_string(), vec![(0, false)]), Ok(()));
    assert_eq!(db.article_id("x"), Some(0));
    assert_eq!(db.article_id("y"), Some(1));
    assert_eq!(db.article_id("z"), Some(2));
    assert_eq!(db.article_id("w"), None);
    assert_eq!(db.article_key(1), Some(&"y".to_string()));
    assert_eq!(db.article_key(3), None);
    assert_eq!(db.get_page_id("z"), Some(&"pz".to_string()));
    assert_eq!(db.get_page_id("w"), None);
    assert_eq!(db.page_ids(), &vec!["px".to_string(), "py".to_string(), "pz".to_string()]);
    assert_eq!(db.article_votes(), &vec![vec![(0, true)], vec![], vec![(0, false)]]);
    assert_eq!(db.total_votes(), 2);
}

#[test]
fn add_article_rejects_a_key_twice() {
    let mut db = Database::new();
    db.add_user("alice".to_string());
    assert_eq!(db.add_article("a1".to_string(), "p1".to_string(), vec![(0, true)]), Ok(()));
    assert_eq!(
        db.add_article("a1".to_string(), "p2".to_string(), vec![]),
        Err(Error::DuplicateArticle)
    );
    assert_eq!(db.article_count(), 1);
    assert_eq!(db.total_votes(), 1);
    assert_eq!(db.get_page_id("a1"), Some(&"p1".to_string()));
    assert_eq!(db.article_votes(), &vec![vec![(0, true)]]);
}

#[test]
fn add_article_rejects_a_vote_of_an_unknown_user() {
    let mut db = Database::new();
    db.add_user("alice".to_string());
    assert_eq!(
        db.add_article("a1".to_string(), "p1".to_string(), vec![(0, true), (1, false)]),
        Err(Error::UnknownUser)
    );
    assert_eq!(db.article_count(), 0);
    assert_eq!(db.total_votes(), 0);
    assert_eq!(db.article_id("a1"), None);
}

#[test]
fn a_taken_key_is_reported_before_an_unknown_user() {
    let mut db = Database::new();
    assert_eq!(db.add_article("a1".to_string(), "p1".to_string(), vec![]), Ok(()));
    assert_eq!(
        db.add_article("a1".to_string(), "p1".to_string(), vec![(7, true)]),
        Err(Error::DuplicateArticle)
    );
}

#[test]
fn update_article_replaces_the_votes_and_adjusts_the_total() {
    let mut db = Database::new();
    let u0 = db.add_user("u0".to_string());
    let u1 = db.add_user("u1".to_string());
    assert_eq!(
        db.add_article("a0".to_string(), "p0".to_string(), vec![(u0, true), (u1, true)]),
        Ok(())
    );
    assert_eq!(db.total_votes(), 2);
    assert_eq!(db.update_article("a0".to_string(), vec![(u0, false)]), Ok(()));
    assert_eq!(db.total_votes(), 1);
    assert_eq!(db.article_votes()[0], vec![(u0, false)]);
    assert_eq!(db.article_id("a0"), Some(0));
    assert_eq!(db.get_page_id("a0"), Some(&"p0".to_string()));
    assert_eq!(db.article_count(), 1);
}

#[test]
fn update_article_can_lengthen_a_vote_list() {
    let mut db = Database::new();
    db.add_user("u0".to_string());
    db.add_user("u1".to_string());
    db.add_user("u2".to_string());
    assert_eq!(db.add_article("a0".to_string(), "p0".to_string(), vec![(0, true)]), Ok(()));
    assert_eq!(db.add_article("a1".to_string(), "p1".to_string(), vec![(1, true), (2, false)]), Ok(()));
    assert_eq!(
        db.update_article("a0".to_string(), vec![(0, true), (1, false), (2, true)]),
        Ok(())
    );
    assert_eq!(db.total_votes(), 5);
    assert_eq!(db.article_votes()[1], vec![(1, true), (2, false)]);
}

#[test]
fn update_article_rejects_an_unknown_key() {
    let mut db = Database::new();
    db.add_user("u0".to_string());
    assert_eq!(db.add_article("a0".to_string(), "p0".to_string(), vec![(0, true)]), Ok(()));
    assert_eq!(db.update_article("a1".to_string(), vec![]), Err(Error::UnknownArticle));
    assert_eq!(db.total_votes(), 1);
    assert_eq!(db.article_votes()[0], vec![(0, true)]);
}

#[test]
fn update_article_rejects_a_vote_of_an_unknown_user() {
    let mut db = Database::new();
    db.add_user("u0".to_string());
    assert_eq!(db.add_article("a0".to_string(), "p0".to_string(), vec![(0, true)]), Ok(()));
    assert_eq!(db.update_article("a0".to_string(), vec![(1, true)]), Err(Error::UnknownUser));
    assert_eq!(db.total_votes(), 1);
    assert_eq!(db.article_votes()[0], vec![(0, true)]);
}

#[test]
fn total_votes_is_the_sum_of_the_list_lengths_after_every_operation() {
    let mut db = Database::new();
    assert_eq!(db.total_votes(), sum_of_lengths(&db));
    for name in ["a", "b", "c", "d"] {
        db.add_user(name.to_string());
        assert_eq!(db.total_votes(), sum_of_lengths(&db));
    }
    let _ = db.add_article("x".to_string(), "1".to_string(), vec![(0, true), (1, false), (2, true)]);
    assert_eq!(db.total_votes(), sum_of_lengths(&db));
    let _ = db.add_article("y".to_string(), "2".to_string(), vec![(3, true), (3, true)]);
    assert_eq!(db.total_votes(), sum_of_lengths(&db));
    let _ = db.add_article("x".to_string(), "3".to_string(), vec![(0, true)]);
    assert_eq!(db.total_votes(), sum_of_lengths(&db));
    let _ = db.update_article("x".to_string(), vec![]);
    assert_eq!(db.total_votes(), sum_of_lengths(&db));
    let _ = db.update_article("y".to_string(), vec![(0, false), (1, false), (2, false), (3, false)]);
    assert_eq!(db.total_votes(), sum_of_lengths(&db));
    let _ = db.update_article("z".to_string(), vec![(0, false)]);
    assert_eq!(db.total_votes(), sum_of_lengths(&db));
    let _ = db.update_article("y".to_string(), vec![(9, false)]);
    assert_eq!(db.total_votes(), sum_of_lengths(&db));
    assert_eq!(db.total_votes(), 4);
}

#[test]
fn duplicate_votes_of_one_user_are_kept() {
    let mut db = Database::new();
    db.add_user("u0".to_string());
    assert_eq!(
        db.add_article("a0".to_string(), "p0".to_string(), vec![(0, true), (0, true), (0, false)]),
        Ok(())
    );
    assert_eq!(db.total_votes(), 3);
    assert_eq!(db.article_votes()[0].len(), 3);
}

#[test]
fn from_lists_builds_the_database_the_lists_describe() {
    let db = Database::from_lists(
        vec!["a0".to_string(), "a1".to_string()],
        vec!["p0".to_string(), "p1".to_string()],
        vec![vec![(1, true)], vec![(0, false), (1, false)]],
        3,
        vec!["u0".to_string(), "u1".to_string()],
    );
    let db = match db {
        Ok(db) => db,
        Err(e) => panic!("refused: {:?}", e),
    };
    assert_eq!(db.article_id("a1"), Some(1));
    assert_eq!(db.user_id("u1"), Some(1));
    assert_eq!(db.total_votes(), 3);
    assert_eq!(db.get_page_id("a0"), Some(&"p0".to_string()));
    assert_eq!(db.article_keys(), &vec!["a0".to_string(), "a1".to_string()]);
    assert_eq!(db.user_names(), &vec!["u0".to_string(), "u1".to_string()]);
}

#[test]
fn from_lists_refuses_lists_that_break_the_invariant() {
    let keys = || vec!["a0".to_string(), "a1".to_string()];
    let pages = || vec!["p0".to_string(), "p1".to_string()];
    let votes = || vec![vec![(1, true)], vec![(0, false), (1, false)]];
    let users = || vec!["u0".to_string(), "u1".to_string()];
    assert!(Database::from_lists(keys(), pages(), votes(), 3, users()).is_ok());
    // a wrong total
    assert_eq!(Database::from_lists(keys(), pages(), votes(), 2, users()).err(), Some(Error::Decode));
    // a key twice
    assert_eq!(
        Database::from_lists(vec!["a0".to_string(), "a0".to_string()], pages(), votes(), 3, users()).err(),
        Some(Error::Decode)
    );
    // a name twice
    assert_eq!(
        Database::from_lists(keys(), pages(), votes(), 3, vec!["u0".to_string(), "u0".to_string()]).err(),
        Some(Error::Decode)
    );
    // a page identifier too few
    assert_eq!(
        Database::from_lists(keys(), vec!["p0".to_string()], votes(), 3, users()).err(),
        Some(Error::Decode)
    );
    // a vote list too many
    assert_eq!(
        Database::from_lists(keys(), pages(), vec![vec![], vec![], vec![]], 0, users()).err(),
        Some(Error::Decode)
    );
    // a vote of a user that is not there
    assert_eq!(
        Database::from_lists(keys(), pages(), vec![vec![(2, true)], vec![]], 1, users()).err(),
        Some(Error::Decode)
    );
}

#[test]
fn ids_never_change() {
    let mut db = Database::new();
    let mut users: Vec<(String, usize)> = Vec::new();
    let mut articles: Vec<(String, usize)> = Vec::new();
    for round in 0..6 {
        let name = format!("user{}", round);
        let id = db.add_user(name.clone());
        users.push((name, id));
        let key = format!("article{}", round);
        assert_eq!(db.add_article(key.clone(), format!("{}", round), vec![(id, round % 2 == 0)]), Ok(()));
        articles.push((key, db.article_count() - 1));
        let _ = db.update_article("article0".to_string(), vec![(0, false); round]);
        let _ = db.add_article("article0".to_string(), String::new(), vec![]);
        let _ = db.add_user("user0".to_string());
        for (name, id) in &users {
            assert_eq!(db.user_id(name), Some(*id));
        }
        for (key, id) in &articles {
            assert_eq!(db.article_id(key), Some(*id));
        }
    }
    assert_eq!(users.iter().map(|u| u.1).collect::<Vec<_>>(), vec![0, 1, 2, 3, 4, 5]);
    assert_eq!(articles.iter().map(|a| a.1).collect::<Vec<_>>(), vec![0, 1, 2, 3, 4, 5]);
}

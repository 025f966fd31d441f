use vote_recommender::parts::{order_by_id, number, MatrixParts};
use vote_recommender::matrix::Matrix;
use vote_recommender::{Database, DatabaseParts, Error, ModelParts, PredictionModel};

fn sample_database() -> Database {
    // 3 articles, 5 users, 17 votes
    let mut db = Database::new();
    for name in ["ann", "ben", "cyd", "dee", "eli"] {
        db.add_user(name.to_string());
    }
    let lists: Vec<Vec<(usize, bool)>> = vec![
        vec![(0, true), (1, true), (2, false), (3, true), (4, true), (0, false)],
        vec![(4, false), (3, false), (2, true), (1, true), (0, true)],
        vec![(2, true), (2, true), (3, false), (1, false), (4, true), (0, true)],
    ];
    for (i, votes) in lists.into_iter().enumerate() {
        let key = format!("scp-{:03}", 173 + i);
        let page = format!("{}", 1000 + i);
        assert_eq!(db.add_article(key, page, votes), Ok(()));
    }
    assert_eq!(db.total_votes(), 17);
    db
}

fn trained(db: Database, factors: usize) -> PredictionModel {
    let mut run = match db.train_prediction_model(factors, 1, 0.5f64.to_bits(), 0.0f64.to_bits()) {
        Ok(run) => run,
        Err(e) => panic!("refused: {:?}", e),
    };
    while !run.is_finished() {
        run.advance();
    }
    let users = run.initial_user_factors().unwrap();
    let articles = run.initial_article_factors().unwrap();
    run.finish(users, articles).unwrap()
}

#[test]
fn database_parts_number_names_by_id() {
    let db = sample_database();
    let parts = db.to_parts();
    assert_eq!(
        parts.articles,
        vec![("scp-173".to_string(), 0), ("scp-174".to_string(), 1), ("scp-175".to_string(), 2)]
    );
    assert_eq!(
        parts.users,
        vec![
            ("ann".to_string(), 0),
            ("ben".to_string(), 1),
            ("cyd".to_string(), 2),
            ("dee".to_string(), 3),
            ("eli".to_string(), 4)
        ]
    );
    assert_eq!(parts.page_ids, vec!["1000".to_string(), "1001".to_string(), "1002".to_string()]);
    assert_eq!(&parts.article_votes, db.article_votes());
    assert_eq!(parts.total_votes, 17);
}

#[test]
fn database_survives_storage_with_all_ids_page_ids_and_the_total() {
    let db = sample_database();
    let back = match Database::from_parts(db.to_parts()) {
        Ok(back) => back,
        Err(e) => panic!("refused: {:?}", e),
    };
    assert_eq!(back.article_count(), 3);
    assert_eq!(back.user_count(), 5);
    assert_eq!(back.total_votes(), 17);
    for key in ["scp-173", "scp-174", "scp-175", "scp-176"] {
        assert_eq!(back.article_id(key), db.article_id(key));
        assert_eq!(back.get_page_id(key), db.get_page_id(key));
    }
    for name in ["ann", "ben", "cyd", "dee", "eli", "fay"] {
        assert_eq!(back.user_id(name), db.user_id(name));
    }
    assert_eq!(back.article_votes(), db.article_votes());
    assert_eq!(back.page_ids(), db.page_ids());
    assert_eq!(back.article_keys(), db.article_keys());
    assert_eq!(back.user_names(), db.user_names());
    assert_eq!(back.to_parts(), db.to_parts());
}

#[test]
fn the_order_of_the_entries_of_a_mapping_is_immaterial() {
    let db = sample_database();
    let mut parts = db.to_parts();
    parts.articles.reverse();
    parts.users.sort_by(|a, b| b.0.cmp(&a.0));
    parts.users.swap(1, 3);
    let back = match Database::from_parts(parts) {
        Ok(back) => back,
        Err(e) => panic!("refused: {:?}", e),
    };
    assert_eq!(back.to_parts(), db.to_parts());
    assert_eq!(back.article_id("scp-175"), Some(2));
    assert_eq!(back.user_id("eli"), Some(4));
}

#[test]
fn empty_database_survives_storage() {
    let parts = Database::new().to_parts();
    assert!(parts.articles.is_empty());
    assert!(parts.users.is_empty());
    let back = Database::from_parts(parts).ok().unwrap();
    assert_eq!(back.article_count(), 0);
    assert_eq!(back.user_count(), 0);
    assert_eq!(back.total_votes(), 0);
}

fn refused(parts: DatabaseParts) -> bool {
    matches!(Database::from_parts(parts), Err(Error::Decode))
}

#[test]
fn database_parts_that_describe_no_database_are_refused() {
    let good = || sample_database().to_parts();
    assert!(Database::from_parts(good()).is_ok());

    let mut parts = good();
    parts.total_votes = 16;
    assert!(refused(parts));

    let mut parts = good();
    parts.articles[1].1 = 3;
    assert!(refused(parts));

    let mut parts = good();
    parts.articles[1].1 = 0;
    assert!(refused(parts));

    let mut parts = good();
    parts.users[4].1 = 5;
    assert!(refused(parts));

    let mut parts = good();
    parts.users[4].0 = "ann".to_string();
    assert!(refused(parts));

    let mut parts = good();
    parts.articles[2].0 = "scp-173".to_string();
    assert!(refused(parts));

    let mut parts = good();
    parts.page_ids.pop();
    assert!(refused(parts));

    let mut parts = good();
    parts.article_votes.push(vec![]);
    assert!(refused(parts));

    let mut parts = good();
    parts.article_votes[0][0] = (5, true);
    assert!(refused(parts));

    let mut parts = good();
    parts.users.pop();
    assert!(refused(parts));
}

#[test]
fn order_by_id_puts_each_name_at_its_id() {
    let pairs = vec![("c".to_string(), 2), ("a".to_string(), 0), ("b".to_string(), 1)];
    assert_eq!(
        order_by_id(&pairs),
        Some(vec!["a".to_string(), "b".to_string(), "c".to_string()])
    );
    assert_eq!(order_by_id(&vec![]), Some(vec![]));
    assert_eq!(order_by_id(&vec![("a".to_string(), 1)]), None);
    assert_eq!(order_by_id(&vec![("a".to_string(), 0), ("b".to_string(), 0)]), None);
    assert_eq!(order_by_id(&vec![("a".to_string(), 1), ("b".to_string(), 2)]), None);
}

#[test]
fn number_gives_each_name_its_place() {
    let names = vec!["x".to_string(), "y".to_string()];
    assert_eq!(number(&names), vec![("x".to_string(), 0), ("y".to_string(), 1)]);
    assert_eq!(order_by_id(&number(&names)), Some(names));
}

#[test]
fn model_survives_storage() {
    let model = trained(sample_database(), 2);
    let parts = model.to_parts();
    assert_eq!(parts.user_factors.rows, 5);
    assert_eq!(parts.user_factors.cols, 2);
    assert_eq!(parts.article_factors.rows, 3);
    assert_eq!(parts.article_factors.cols, 2);
    assert_eq!(parts.user_factors.cells.len(), 10);
    assert_eq!(parts.article_factors.cells.len(), 6);
    let back = match PredictionModel::from_parts(parts) {
        Ok(back) => back,
        Err(e) => panic!("refused: {:?}", e),
    };
    assert_eq!(back.to_parts(), model.to_parts());
    assert_eq!(back.user_votes(), model.user_votes());
    assert_eq!(back.user_factors(), model.user_factors());
    assert_eq!(back.article_factors(), model.article_factors());
    assert_eq!(back.latent_factors(), 2);
    assert_eq!(back.database().total_votes(), 17);
    assert_eq!(back.database().article_id("scp-174"), Some(1));
}

#[test]
fn model_cells_survive_storage_bit_for_bit() {
    let db = sample_database();
    let numbers = [0.1, -0.0, 1.0e-300, f64::MAX, f64::NEG_INFINITY, 2.5, -7.25, 0.3, 1.0 / 3.0, 42.0];
    let user_cells: Vec<u64> = numbers.iter().map(|x: &f64| x.to_bits()).collect();
    let parts = ModelParts {
        database: db.to_parts(),
        user_factors: MatrixParts { rows: 5, cols: 2, cells: user_cells.clone() },
        article_factors: MatrixParts { rows: 3, cols: 2, cells: vec![f64::NAN.to_bits(); 6] },
        user_votes: vec![vec![0, 1, 2]; 5],
    };
    let model = PredictionModel::from_parts(parts.clone()).ok().unwrap();
    assert_eq!(model.user_factors().cells(), &user_cells);
    assert_eq!(model.to_parts(), parts);
    assert_eq!(model.user_factors().get(1, 1), Some(numbers[6].to_bits()));
}

fn model_refused(parts: ModelParts) -> bool {
    matches!(PredictionModel::from_parts(parts), Err(Error::Decode))
}

#[test]
fn model_parts_that_describe_no_model_are_refused() {
    let good = || trained(sample_database(), 2).to_parts();
    assert!(PredictionModel::from_parts(good()).is_ok());

    // a matrix with a row too few
    let mut parts = good();
    parts.user_factors = MatrixParts { rows: 4, cols: 2, cells: vec![0; 8] };
    assert!(model_refused(parts));

    // matrices that disagree on the number of factors
    let mut parts = good();
    parts.article_factors = MatrixParts { rows: 3, cols: 1, cells: vec![0; 3] };
    assert!(model_refused(parts));

    // no factor at all
    let mut parts = good();
    parts.user_factors = MatrixParts { rows: 5, cols: 0, cells: vec![] };
    parts.article_factors = MatrixParts { rows: 3, cols: 0, cells: vec![] };
    assert!(model_refused(parts));

    // cells that do not fill the shape
    let mut parts = good();
    parts.user_factors.cells.pop();
    assert!(model_refused(parts));

    // a filter that misses a vote
    let mut parts = good();
    parts.user_votes[2] = vec![0, 2];
    assert!(model_refused(parts));

    // a filter with a user too few
    let mut parts = good();
    parts.user_votes.pop();
    assert!(model_refused(parts));

    // a database that is none
    let mut parts = good();
    parts.database.total_votes = 3;
    assert!(model_refused(parts));
}

#[test]
fn a_filter_may_hold_more_than_the_votes() {
    let mut parts = trained(sample_database(), 1).to_parts();
    parts.user_votes[0] = vec![2, 0, 1, 7, 0];
    let model = PredictionModel::from_parts(parts).ok().unwrap();
    assert_eq!(model.user_votes()[0], vec![2, 0, 1, 7, 0]);
}

#[test]
fn matrix_parts_keep_shape_and_cells() {
    let matrix = Matrix::from_cells(2, 3, vec![1, 2, 3, 4, 5, 6]).unwrap();
    let parts = matrix.to_parts();
    assert_eq!(parts, MatrixParts { rows: 2, cols: 3, cells: vec![1, 2, 3, 4, 5, 6] });
    assert_eq!(Matrix::from_parts(parts), Some(matrix));
    assert_eq!(Matrix::from_parts(MatrixParts { rows: 2, cols: 3, cells: vec![1, 2, 3, 4, 5] }), None);
    assert_eq!(
        Matrix::from_parts(MatrixParts { rows: usize::MAX, cols: 2, cells: vec![] }),
        None
    );
}

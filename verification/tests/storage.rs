use nalgebra::DMatrix;
use serde_cbor::value::{from_value, to_value};
use serde_cbor::Value;
use std::collections::BTreeMap;
use vote_recommender::matrix::Matrix;
use vote_recommender::parts::MatrixParts;
use vote_recommender::{Database, DatabaseParts, ModelParts, PredictionModel};

fn sample_database() -> Database {
    // 3 articles, 5 users, 17 votes
    let mut db = Database::new();
    for name in ["zed", "ann", "mia", "bob", "eve"] {
        db.add_user(name.to_string());
    }
    let lists: Vec<Vec<(usize, bool)>> = vec![
        vec![(0, true), (1, true), (2, false), (3, true), (4, true), (0, false)],
        vec![(4, false), (3, false), (2, true), (1, true), (0, true)],
        vec![(2, true), (2, true), (3, false), (1, false), (4, true), (0, true)],
    ];
    for (key, votes) in ["scp-900", "scp-173", "scp-500"].iter().zip(lists) {
        let page = format!("page of {}", key);
        assert_eq!(db.add_article(key.to_string(), page, votes), Ok(()));
    }
    db
}

fn field(name: &str) -> Value {
    Value::Text(name.to_string())
}

/// The database as a document with named fields, the two mappings as maps.
fn database_document(parts: DatabaseParts) -> Value {
    let articles: BTreeMap<String, usize> = parts.articles.into_iter().collect();
    let users: BTreeMap<String, usize> = parts.users.into_iter().collect();
    let mut document = BTreeMap::new();
    document.insert(field("articles"), to_value(articles).unwrap());
    document.insert(field("page_ids"), to_value(parts.page_ids).unwrap());
    document.insert(field("article_votes"), to_value(parts.article_votes).unwrap());
    document.insert(field("total_votes"), to_value(parts.total_votes).unwrap());
    document.insert(field("users"), to_value(users).unwrap());
    Value::Map(document)
}

fn take(document: &mut BTreeMap<Value, Value>, name: &str) -> Value {
    document.remove(&field(name)).unwrap()
}

fn database_parts(document: Value) -> DatabaseParts {
    let mut document = match document {
        Value::Map(document) => document,
        other => panic!("no map: {:?}", other),
    };
    let articles: BTreeMap<String, usize> = from_value(take(&mut document, "articles")).unwrap();
    let users: BTreeMap<String, usize> = from_value(take(&mut document, "users")).unwrap();
    DatabaseParts {
        articles: articles.into_iter().collect(),
        page_ids: from_value(take(&mut document, "page_ids")).unwrap(),
        article_votes: from_value(take(&mut document, "article_votes")).unwrap(),
        total_votes: from_value(take(&mut document, "total_votes")).unwrap(),
        users: users.into_iter().collect(),
    }
}

fn numbers(parts: &MatrixParts) -> DMatrix<f64> {
    let cells = parts.cells.iter().map(|bits| f64::from_bits(*bits)).collect();
    DMatrix::from_vec(parts.rows, parts.cols, cells)
}

fn bits(matrix: &DMatrix<f64>) -> MatrixParts {
    MatrixParts {
        rows: matrix.nrows(),
        cols: matrix.ncols(),
        cells: matrix.as_slice().iter().map(|x| x.to_bits()).collect(),
    }
}

fn model_document(parts: ModelParts) -> Value {
    let mut document = BTreeMap::new();
    document.insert(field("user_factors"), to_value(numbers(&parts.user_factors)).unwrap());
    document.insert(field("article_factors"), to_value(numbers(&parts.article_factors)).unwrap());
    document.insert(field("user_votes"), to_value(parts.user_votes).unwrap());
    document.insert(field("database"), database_document(parts.database));
    Value::Map(document)
}

fn model_parts(document: Value) -> ModelParts {
    let mut document = match document {
        Value::Map(document) => document,
        other => panic!("no map: {:?}", other),
    };
    let user_factors: DMatrix<f64> = from_value(take(&mut document, "user_factors")).unwrap();
    let article_factors: DMatrix<f64> = from_value(take(&mut document, "article_factors")).unwrap();
    ModelParts {
        database: database_parts(take(&mut document, "database")),
        user_factors: bits(&user_factors),
        article_factors: bits(&article_factors),
        user_votes: from_value(take(&mut document, "user_votes")).unwrap(),
    }
}

#[test]
fn database_survives_its_binary_encoding() {
    let db = sample_database();
    assert_eq!(db.article_count(), 3);
    assert_eq!(db.user_count(), 5);
    assert_eq!(db.total_votes(), 17);
    let bytes = serde_cbor::to_vec(&database_document(db.to_parts())).unwrap();
    let document: Value = serde_cbor::from_slice(&bytes).unwrap();
    let back = Database::from_parts(database_parts(document)).ok().unwrap();
    assert_eq!(back.total_votes(), 17);
    assert_eq!(back.article_keys(), db.article_keys());
    assert_eq!(back.page_ids(), db.page_ids());
    assert_eq!(back.user_names(), db.user_names());
    assert_eq!(back.article_votes(), db.article_votes());
    for key in ["scp-900", "scp-173", "scp-500", "scp-001"] {
        assert_eq!(back.article_id(key), db.article_id(key));
        assert_eq!(back.get_page_id(key), db.get_page_id(key));
    }
    for name in ["zed", "ann", "mia", "bob", "eve", "sam"] {
        assert_eq!(back.user_id(name), db.user_id(name));
    }
    assert_eq!(back.article_id("scp-900"), Some(0));
    assert_eq!(back.article_id("scp-173"), Some(1));
    assert_eq!(back.user_id("zed"), Some(0));
    assert_eq!(back.user_id("ann"), Some(1));
    let again = serde_cbor::to_vec(&database_document(back.to_parts())).unwrap();
    assert_eq!(again, bytes);
}

#[test]
fn the_encoding_carries_the_names_of_the_fields() {
    let bytes = serde_cbor::to_vec(&database_document(sample_database().to_parts())).unwrap();
    for name in ["articles", "page_ids", "article_votes", "total_votes", "users"] {
        let needle = name.as_bytes();
        assert!(bytes.windows(needle.len()).any(|window| window == needle), "{}", name);
    }
}

#[test]
fn model_survives_its_binary_encoding() {
    let db = sample_database();
    let mut run =
        match db.train_prediction_model(2, 1, 0.004f64.to_bits(), 0.02f64.to_bits()) {
            Ok(run) => run,
            Err(e) => panic!("refused: {:?}", e),
        };
    while !run.is_finished() {
        run.advance();
    }
    let p: Vec<u64> = (0..10).map(|i| (0.1 + i as f64 / 7.0).to_bits()).collect();
    let q: Vec<u64> = (0..6).map(|i| (-1.5 * i as f64 + 1.0 / 3.0).to_bits()).collect();
    let model = run
        .finish(Matrix::from_cells(5, 2, p).unwrap(), Matrix::from_cells(3, 2, q).unwrap())
        .unwrap();
    let bytes = serde_cbor::to_vec(&model_document(model.to_parts())).unwrap();
    let document: Value = serde_cbor::from_slice(&bytes).unwrap();
    let back: PredictionModel = PredictionModel::from_parts(model_parts(document)).ok().unwrap();
    assert_eq!(back.to_parts(), model.to_parts());
    assert_eq!(back.user_factors(), model.user_factors());
    assert_eq!(back.article_factors(), model.article_factors());
    assert_eq!(back.user_votes(), model.user_votes());
    assert_eq!(back.database().article_id("scp-500"), Some(2));
    assert_eq!(back.database().total_votes(), 17);
    let again = serde_cbor::to_vec(&model_document(back.to_parts())).unwrap();
    assert_eq!(again, bytes);
}

#[test]
fn bytes_that_hold_no_database_are_refused() {
    assert!(serde_cbor::from_slice::<Value>(&[0xff, 0x00, 0x13]).is_err());
    let mut parts = sample_database().to_parts();
    parts.total_votes = 18;
    let bytes = serde_cbor::to_vec(&database_document(parts)).unwrap();
    let document: Value = serde_cbor::from_slice(&bytes).unwrap();
    assert!(Database::from_parts(database_parts(document)).is_err());
}

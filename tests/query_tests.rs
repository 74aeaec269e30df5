use tivoli_server::error::AppError;
use tivoli_server::files::{check_confined, clamp_width, is_within, render_thumbnail, thumbnail_cache_name};
use tivoli_server::filter::{validate_clause, FilterClause, FilterField, FilterOp, FilterValue};
use tivoli_server::sql::{build_image_query, build_image_subquery, make_placeholders};

fn s(x: &str) -> String {
    x.to_string()
}

fn clause(field: FilterField, op: FilterOp, values: &[&str]) -> FilterClause {
    FilterClause { field, op, value: FilterValue::Multiple(values.iter().map(|v| s(v)).collect()) }
}

const BASE: &str = "SELECT i.uuid, i.path, i.collection, i.gallery, i.width, i.height, i.file_size FROM images i";
const ORDER: &str = " ORDER BY i.collection, i.gallery, i.path";

fn compile(filters: &[FilterClause]) -> (String, Vec<String>) {
    match build_image_query(filters) {
        Ok(q) => q,
        Err(_) => panic!("query refused"),
    }
}

#[test]
fn placeholders_are_counted_and_separated() {
    assert_eq!(make_placeholders(0), "");
    assert_eq!(make_placeholders(1), "?");
    assert_eq!(make_placeholders(3), "?, ?, ?");
}

#[test]
fn empty_filter_selects_everything_in_order() {
    let (sql, params) = compile(&[]);
    assert_eq!(sql, format!("{BASE}{ORDER}"));
    assert!(params.is_empty());
}

#[test]
fn collection_eq_binds_its_value() {
    let f = [FilterClause {
        field: FilterField::Collection,
        op: FilterOp::Eq,
        value: FilterValue::Single(s("noir-atelier")),
    }];
    let (sql, params) = compile(&f);
    assert_eq!(sql, format!("{BASE} WHERE i.collection = ?{ORDER}"));
    assert_eq!(params, vec!["noir-atelier"]);
}

#[test]
fn single_element_list_counts_as_single_value() {
    let f = [clause(FilterField::Gallery, FilterOp::Eq, &["summer-editorial"])];
    let (sql, params) = compile(&f);
    assert_eq!(sql, format!("{BASE} WHERE i.gallery = ?{ORDER}"));
    assert_eq!(params, vec!["summer-editorial"]);
}

#[test]
fn models_all_of_counts_distinct_matches() {
    let f = [clause(FilterField::Models, FilterOp::AllOf, &["a", "b"])];
    let (sql, params) = compile(&f);
    assert_eq!(
        sql,
        format!(
            "{BASE} WHERE i.uuid IN (SELECT image_uuid FROM image_models WHERE model_uuid IN (?, ?) GROUP BY image_uuid HAVING COUNT(DISTINCT model_uuid) = (SELECT COUNT(DISTINCT column1) FROM (VALUES (?), (?)))){ORDER}"
        )
    );
    assert_eq!(params, vec!["a", "b", "a", "b"]);
}

#[test]
fn repeated_values_change_only_the_parameters() {
    let (repeated, params) = compile(&[clause(FilterField::Models, FilterOp::AllOf, &["a", "a", "b"])]);
    let (distinct, _) = compile(&[clause(FilterField::Models, FilterOp::AllOf, &["a", "b", "c"])]);
    assert_eq!(repeated, distinct);
    assert!(repeated.contains("FROM (VALUES (?), (?), (?))"));
    assert_eq!(params, vec!["a", "a", "b", "a", "a", "b"]);
}

#[test]
fn empty_all_of_adds_no_condition() {
    let f = [clause(FilterField::Tags, FilterOp::AllOf, &[])];
    let (sql, params) = compile(&f);
    assert_eq!(sql, format!("{BASE}{ORDER}"));
    assert!(params.is_empty());
    let f = [clause(FilterField::Models, FilterOp::Exact, &[])];
    let (sql, _) = compile(&f);
    assert_eq!(
        sql,
        format!("{BASE} WHERE i.uuid NOT IN (SELECT image_uuid FROM image_models WHERE model_uuid NOT IN ()){ORDER}")
    );
}

#[test]
fn models_exact_binds_values_three_times() {
    let f = [clause(FilterField::Models, FilterOp::Exact, &["a"])];
    let (sql, params) = compile(&f);
    assert_eq!(
        sql,
        format!(
            "{BASE} WHERE i.uuid IN (SELECT image_uuid FROM image_models WHERE model_uuid IN (?) GROUP BY image_uuid HAVING COUNT(DISTINCT model_uuid) = (SELECT COUNT(DISTINCT column1) FROM (VALUES (?)))) AND i.uuid NOT IN (SELECT image_uuid FROM image_models WHERE model_uuid NOT IN (?)){ORDER}"
        )
    );
    assert_eq!(params, vec!["a", "a", "a"]);
}

#[test]
fn tags_exact_binds_values_four_times() {
    let f = [clause(FilterField::Tags, FilterOp::Exact, &["t1", "t2"])];
    let (sql, params) = compile(&f);
    assert!(sql.contains("t2.tag_group_uuid IN (SELECT tag_group_uuid FROM tags WHERE uuid IN (?, ?)) AND it2.tag_uuid NOT IN (?, ?)"));
    assert_eq!(params, vec!["t1", "t2", "t1", "t2", "t1", "t2", "t1", "t2"]);
    assert_eq!(sql.matches('?').count(), params.len());
}

#[test]
fn clauses_are_joined_with_and_in_order() {
    let f = [
        clause(FilterField::Collection, FilterOp::Eq, &["lumiere-studio"]),
        clause(FilterField::Models, FilterOp::NoneOf, &["m1"]),
        clause(FilterField::Tags, FilterOp::AnyOf, &["t1", "t2", "t3"]),
    ];
    let (sql, params) = compile(&f);
    assert_eq!(
        sql,
        format!(
            "{BASE} WHERE i.collection = ? AND i.uuid NOT IN (SELECT image_uuid FROM image_models WHERE model_uuid IN (?)) AND i.uuid IN (SELECT image_uuid FROM image_tags WHERE tag_uuid IN (?, ?, ?)){ORDER}"
        )
    );
    assert_eq!(params, vec!["lumiere-studio", "m1", "t1", "t2", "t3"]);
}

#[test]
fn user_text_never_reaches_the_query_text() {
    let hostile = "x'); DROP TABLE images; --";
    let f = [
        clause(FilterField::Gallery, FilterOp::Eq, &[hostile]),
        clause(FilterField::Tags, FilterOp::NoneOf, &[hostile, hostile]),
    ];
    let (sql, params) = compile(&f);
    assert!(!sql.contains("DROP"));
    assert_eq!(params, vec![hostile, hostile, hostile]);
}

#[test]
fn invalid_operators_are_refused() {
    for (field, op) in [
        (FilterField::Collection, FilterOp::AnyOf),
        (FilterField::Gallery, FilterOp::Exact),
        (FilterField::Models, FilterOp::Eq),
        (FilterField::Tags, FilterOp::Eq),
    ] {
        let c = clause(field, op, &["x"]);
        assert!(matches!(validate_clause(&c), Err(AppError::BadRequest(_))));
        assert!(matches!(build_image_query(&[c]), Err(AppError::BadRequest(_))));
    }
    let c = clause(FilterField::Tags, FilterOp::Exact, &["x"]);
    assert!(validate_clause(&c).is_ok());
}

#[test]
fn eq_needs_exactly_one_value() {
    let f = [clause(FilterField::Collection, FilterOp::Eq, &["a", "b"])];
    assert!(matches!(build_image_query(&f), Err(AppError::BadRequest(_))));
    let f = [clause(FilterField::Collection, FilterOp::Eq, &[])];
    assert!(matches!(build_image_query(&f), Err(AppError::BadRequest(_))));
}

#[test]
fn filter_value_views() {
    let one = FilterValue::Single(s("a"));
    assert_eq!(one.as_single(), Some("a"));
    assert_eq!(one.as_multiple(), vec!["a"]);
    let many = FilterValue::Multiple(vec![s("a"), s("b")]);
    assert_eq!(many.as_single(), None);
    assert_eq!(many.as_multiple(), vec!["a", "b"]);
    let listed_one = FilterValue::Multiple(vec![s("z")]);
    assert_eq!(listed_one.as_single(), Some("z"));
}

#[test]
fn errors_map_to_status_and_hide_storage_detail() {
    let e = AppError::DbError(s("disk I/O error at /var/lib/x.db"));
    assert_eq!(e.status_code(), 500);
    assert_eq!(e.public_message(), "Internal server error");
    assert_eq!(AppError::NotFound(s("Image not found")).status_code(), 404);
    assert_eq!(AppError::BadRequest(s("bad")).public_message(), "bad");
}

#[test]
fn widths_are_clamped() {
    assert_eq!(clamp_width(0), 50);
    assert_eq!(clamp_width(49), 50);
    assert_eq!(clamp_width(51), 51);
    assert_eq!(clamp_width(1920), 1920);
    assert_eq!(clamp_width(u32::MAX), 1920);
}

#[test]
fn cache_names_hold_uuid_and_width() {
    assert_eq!(thumbnail_cache_name("abc", 640), "abc_640.jpg");
    assert_eq!(thumbnail_cache_name("u-1", 50), "u-1_50.jpg");
}

#[test]
fn confinement_compares_whole_components() {
    assert!(is_within("/srv/galleries/a/b.jpg", "/srv/galleries"));
    assert!(is_within("/srv/galleries", "/srv/galleries"));
    assert!(!is_within("/srv/galleries2/a.jpg", "/srv/galleries"));
    assert!(!is_within("/etc/passwd", "/srv/galleries"));
    assert!(is_within("/a.jpg", "/"));
    assert!(!is_within("/srv", "/srv/galleries"));
    assert!(matches!(check_confined("/etc/passwd", "/srv/galleries"), Err(AppError::BadRequest(_))));
    assert!(check_confined("/srv/galleries/x.jpg", "/srv/galleries").is_ok());
}

fn png_of(width: u32, height: u32) -> Vec<u8> {
    let img = image::DynamicImage::new_rgb8(width, height);
    let mut buf = Vec::new();
    match img.write_to(&mut std::io::Cursor::new(&mut buf), image::ImageFormat::Png) {
        Ok(()) => buf,
        Err(_) => panic!("encoding the fixture failed"),
    }
}

#[test]
fn test_get_image_file_content_is_jpeg() {
    let body = match render_thumbnail(&png_of(120, 80), 50) {
        Ok(t) => {
            assert_eq!((t.width, t.height), (50, 33));
            t.bytes
        }
        Err(_) => panic!("thumbnail failed"),
    };
    assert!(body.len() > 3);
    assert_eq!(body[0], 0xFF);
    assert_eq!(body[1], 0xD8);
    assert_eq!(body[2], 0xFF);
}

#[test]
fn thumbnails_are_scaled_down_but_never_up() {
    let small = match render_thumbnail(&png_of(120, 80), 60) {
        Ok(t) => {
            assert_eq!((t.width, t.height), (60, 40));
            t.bytes
        }
        Err(_) => panic!("thumbnail failed"),
    };
    match image::load_from_memory(&small) {
        Ok(img) => {
            assert_eq!(img.width(), 60);
            assert_eq!(img.height(), 40);
        }
        Err(_) => panic!("not an image"),
    }
    let same = match render_thumbnail(&png_of(40, 30), 50) {
        Ok(t) => {
            assert_eq!((t.width, t.height), (40, 30));
            t.bytes
        }
        Err(_) => panic!("thumbnail failed"),
    };
    match image::load_from_memory(&same) {
        Ok(img) => assert_eq!(img.width(), 40),
        Err(_) => panic!("not an image"),
    }
}

#[test]
fn undecodable_bytes_are_a_bad_request() {
    assert!(matches!(render_thumbnail(b"not an image", 100), Err(AppError::BadRequest(_))));
}

#[test]
fn subquery_drops_only_the_ordering() {
    let f = [clause(FilterField::Tags, FilterOp::NoneOf, &["t1"])];
    let (full, params) = compile(&f);
    match build_image_subquery(&f) {
        Ok((sub, sub_params)) => {
            assert_eq!(format!("{sub}{ORDER}"), full);
            assert!(!sub.contains("ORDER BY"));
            assert_eq!(sub_params, params);
        }
        Err(_) => panic!("subquery refused"),
    }
    let bad = [clause(FilterField::Gallery, FilterOp::AllOf, &["g"])];
    assert!(matches!(build_image_subquery(&bad), Err(AppError::BadRequest(_))));
}

use tivoli_server::catalog::{Catalog, GroupRow, Link, TagRow};
use tivoli_server::error::AppError;
use tivoli_server::filter::{FilterClause, FilterField, FilterOp, FilterValue};
use tivoli_server::models::{ImageRow, Model};

const COLLECTIONS: [(&str, [(&str, usize); 3]); 4] = [
    ("lumiere-studio", [("summer-editorial", 5), ("ivory-portraits", 5), ("window-light", 4)]),
    ("raw-collective", [("concrete", 5), ("street-motion", 5), ("late-shift", 4)]),
    ("golden-hour-photo", [("dunes", 5), ("harbour", 4), ("orchard", 4)]),
    ("noir-atelier", [("shadows", 5), ("velvet", 5), ("smoke", 4)]),
];

const MODELS: [(&str, &str); 25] = [
    ("emma", "lumiere-studio"),
    ("sofia", "lumiere-studio"),
    ("ines", "lumiere-studio"),
    ("lea", "lumiere-studio"),
    ("clara", "lumiere-studio"),
    ("marta", "lumiere-studio"),
    ("kai", "raw-collective"),
    ("zara", "raw-collective"),
    ("milo", "raw-collective"),
    ("nina", "raw-collective"),
    ("diego", "raw-collective"),
    ("suki", "raw-collective"),
    ("amara", "golden-hour-photo"),
    ("bruno", "golden-hour-photo"),
    ("celia", "golden-hour-photo"),
    ("dario", "golden-hour-photo"),
    ("elif", "golden-hour-photo"),
    ("farid", "golden-hour-photo"),
    ("raven", "noir-atelier"),
    ("silas", "noir-atelier"),
    ("vera", "noir-atelier"),
    ("onyx", "noir-atelier"),
    ("lucien", "noir-atelier"),
    ("mira", "noir-atelier"),
    ("odile", "noir-atelier"),
];

const GROUPS: [(&str, [&str; 7]); 5] = [
    ("lighting", ["natural-light", "golden-hour", "backlit", "studio", "low-key", "high-key", "neon"]),
    ("setting", ["outdoor", "indoor", "urban", "beach", "forest", "rooftop", "loft"]),
    ("mood", ["moody", "joyful", "serene", "dramatic", "playful", "wistful", "bold"]),
    ("framing", ["close-up", "full-body", "half-body", "wide", "overhead", "profile", "candid"]),
    ("wardrobe", ["casual", "formal", "swimwear", "streetwear", "couture", "vintage", "-"]),
];

fn s(x: &str) -> String {
    x.to_string()
}

fn image_uuid(c: usize, k: usize) -> String {
    format!("img-{c}-{k:02}")
}

fn link(image: String, other: &str) -> Link {
    Link { image_uuid: image, other_uuid: s(other) }
}

/// The sample archive: 4 collections of 3 galleries, 55 images, 25 models,
/// 5 tag groups and 34 tags.
fn sample_catalog() -> Catalog {
    let mut images = Vec::new();
    for (c, (collection, galleries)) in COLLECTIONS.iter().enumerate() {
        let mut k = 0;
        for (gallery, n) in galleries.iter() {
            for _ in 0..*n {
                images.push(ImageRow {
                    uuid: image_uuid(c, k),
                    path: format!("{collection}/{gallery}/{k:02}.jpg"),
                    collection: s(collection),
                    gallery: s(gallery),
                    width: 4000,
                    height: 6000,
                    file_size: 1_000_000 + k as i64,
                });
                k += 1;
            }
        }
    }
    let models: Vec<Model> = MODELS
        .iter()
        .map(|(name, collection)| Model {
            uuid: format!("model-{name}"),
            name: s(name),
            collection: s(collection),
        })
        .collect();
    let mut tag_groups = Vec::new();
    let mut tags = Vec::new();
    for (group, members) in GROUPS.iter() {
        tag_groups.push(GroupRow { uuid: format!("group-{group}"), name: s(group) });
        for t in members.iter().filter(|t| **t != "-") {
            tags.push(TagRow { uuid: format!("tag-{t}"), name: s(t), group_uuid: format!("group-{group}") });
        }
    }
    let mut image_models = Vec::new();
    // lumiere-studio: emma and sofia have two solo shots each and one duo.
    image_models.push(link(image_uuid(0, 0), "model-emma"));
    image_models.push(link(image_uuid(0, 1), "model-emma"));
    image_models.push(link(image_uuid(0, 2), "model-sofia"));
    image_models.push(link(image_uuid(0, 3), "model-sofia"));
    image_models.push(link(image_uuid(0, 4), "model-emma"));
    image_models.push(link(image_uuid(0, 4), "model-sofia"));
    for (i, m) in ["ines", "lea", "clara", "marta"].iter().enumerate() {
        image_models.push(link(image_uuid(0, 5 + i), &format!("model-{m}")));
    }
    // raw-collective: kai has three images.
    for k in 0..3 {
        image_models.push(link(image_uuid(1, k), "model-kai"));
    }
    for (i, m) in ["zara", "milo", "nina", "diego", "suki"].iter().enumerate() {
        image_models.push(link(image_uuid(1, 3 + i), &format!("model-{m}")));
    }
    for (i, m) in ["amara", "bruno", "celia", "dario", "elif", "farid"].iter().enumerate() {
        image_models.push(link(image_uuid(2, i), &format!("model-{m}")));
    }
    for (i, m) in ["raven", "silas", "vera", "onyx", "lucien", "mira", "odile"].iter().enumerate() {
        image_models.push(link(image_uuid(3, i), &format!("model-{m}")));
    }
    let mut image_tags = Vec::new();
    for k in 0..8 {
        image_tags.push(link(image_uuid(2, k), "tag-golden-hour"));
    }
    image_tags.push(link(image_uuid(2, 0), "tag-backlit"));
    image_tags.push(link(image_uuid(2, 8), "tag-backlit"));
    for k in 0..5 {
        image_tags.push(link(image_uuid(0, k), "tag-studio"));
    }
    image_tags.push(link(image_uuid(2, 0), "tag-outdoor"));
    image_tags.push(link(image_uuid(2, 1), "tag-outdoor"));
    image_tags.push(link(image_uuid(1, 0), "tag-outdoor"));
    image_tags.push(link(image_uuid(2, 0), "tag-casual"));
    image_tags.push(link(image_uuid(1, 0), "tag-casual"));
    image_tags.push(link(image_uuid(1, 0), "tag-natural-light"));
    image_tags.push(link(image_uuid(3, 0), "tag-moody"));
    let mut spare = 0;
    for t in tags.iter() {
        if !image_tags.iter().any(|l: &Link| l.other_uuid == t.uuid) {
            image_tags.push(link(image_uuid(3, 5 + spare % 9), &t.uuid.clone()));
            spare += 1;
        }
    }
    match Catalog::new(images, models, tag_groups, tags, image_models, image_tags) {
        Ok(c) => c,
        Err(_) => panic!("sample catalog is inconsistent"),
    }
}

fn clause(field: FilterField, op: FilterOp, values: &[&str]) -> FilterClause {
    FilterClause { field, op, value: FilterValue::Multiple(values.iter().map(|v| s(v)).collect()) }
}

fn eq(field: FilterField, value: &str) -> FilterClause {
    FilterClause { field, op: FilterOp::Eq, value: FilterValue::Single(s(value)) }
}

fn search_count(cat: &Catalog, filters: &[FilterClause]) -> usize {
    match cat.query_images(filters) {
        Ok(rows) => rows.len(),
        Err(_) => panic!("search failed"),
    }
}

fn tag_names_of(cat: &Catalog, uuid: &str) -> Vec<String> {
    match cat.query_image_detail(uuid) {
        Ok(d) => d.tags.into_iter().map(|t| t.name).collect(),
        Err(_) => panic!("image not found"),
    }
}

// ─── collections ───

#[test]
fn test_collections_returns_all_four() {
    let cat = sample_catalog();
    let resp = cat.query_collections();
    assert_eq!(resp.len(), 4);
    let names: Vec<&str> = resp.iter().map(|c| c.name.as_str()).collect();
    assert!(names.contains(&"lumiere-studio"));
    assert!(names.contains(&"raw-collective"));
    assert!(names.contains(&"golden-hour-photo"));
    assert!(names.contains(&"noir-atelier"));
}

#[test]
fn test_collections_counts_match() {
    let cat = sample_catalog();
    let resp = cat.query_collections();
    assert_eq!(resp.len(), 4);
    for c in &resp {
        match c.name.as_str() {
            "lumiere-studio" | "raw-collective" | "noir-atelier" => assert_eq!(c.image_count, 14),
            "golden-hour-photo" => assert_eq!(c.image_count, 13),
            name => panic!("Unexpected collection: {name}"),
        }
        assert_eq!(c.gallery_count, 3);
    }
}

#[test]
fn collections_are_sorted_by_name() {
    let cat = sample_catalog();
    let names: Vec<String> = cat.query_collections().into_iter().map(|c| c.name).collect();
    assert_eq!(names, vec!["golden-hour-photo", "lumiere-studio", "noir-atelier", "raw-collective"]);
}

// ─── galleries ───

#[test]
fn test_galleries_unfiltered() {
    let cat = sample_catalog();
    assert_eq!(cat.query_galleries(None).len(), 12);
}

#[test]
fn test_galleries_filtered_by_collection() {
    let cat = sample_catalog();
    let resp = cat.query_galleries(Some("lumiere-studio"));
    assert!(!resp.is_empty());
    for g in &resp {
        assert_eq!(g.collection, "lumiere-studio");
    }
}

#[test]
fn test_galleries_unknown_collection() {
    let cat = sample_catalog();
    assert_eq!(cat.query_galleries(Some("nonexistent")).len(), 0);
}

#[test]
fn galleries_carry_image_counts_in_order() {
    let cat = sample_catalog();
    let resp = cat.query_galleries(Some("golden-hour-photo"));
    let got: Vec<(String, u32)> = resp.into_iter().map(|g| (g.name, g.image_count)).collect();
    assert_eq!(got, vec![(s("dunes"), 5), (s("harbour"), 4), (s("orchard"), 4)]);
}

// ─── models ───

#[test]
fn test_models_unfiltered() {
    let cat = sample_catalog();
    assert_eq!(cat.query_models(None).len(), 25);
}

#[test]
fn test_models_filtered_by_collection() {
    let cat = sample_catalog();
    let resp = cat.query_models(Some("raw-collective"));
    assert_eq!(resp.len(), 6);
    let names: Vec<&str> = resp.iter().map(|m| m.name.as_str()).collect();
    assert!(names.contains(&"kai"));
    assert!(names.contains(&"zara"));
    assert!(names.contains(&"milo"));
    assert!(names.contains(&"nina"));
    assert!(names.contains(&"diego"));
    assert!(names.contains(&"suki"));
}

#[test]
fn models_of_a_collection_are_sorted_by_name() {
    let cat = sample_catalog();
    let names: Vec<String> = cat.query_models(Some("raw-collective")).into_iter().map(|m| m.name).collect();
    assert_eq!(names, vec!["diego", "kai", "milo", "nina", "suki", "zara"]);
}

// ─── tags ───

#[test]
fn test_tags_returns_five_groups() {
    let cat = sample_catalog();
    assert_eq!(cat.query_tag_groups().len(), 5);
}

#[test]
fn test_tags_groups_are_named() {
    let cat = sample_catalog();
    let resp = cat.query_tag_groups();
    let names: Vec<&str> = resp.iter().map(|g| g.name.as_str()).collect();
    assert!(names.contains(&"lighting"));
    assert!(names.contains(&"setting"));
    assert!(names.contains(&"mood"));
    assert!(names.contains(&"framing"));
    assert!(names.contains(&"wardrobe"));
}

#[test]
fn test_tags_nested_structure() {
    let cat = sample_catalog();
    let total_tags: usize = cat.query_tag_groups().iter().map(|g| g.tags.len()).sum();
    assert_eq!(total_tags, 34);
}

#[test]
fn tag_groups_and_members_are_sorted_and_empty_groups_listed() {
    let mut cat = sample_catalog();
    cat.tag_groups.push(GroupRow { uuid: s("group-empty"), name: s("accessories") });
    let resp = cat.query_tag_groups();
    let names: Vec<&str> = resp.iter().map(|g| g.name.as_str()).collect();
    assert_eq!(names, vec!["accessories", "framing", "lighting", "mood", "setting", "wardrobe"]);
    assert!(resp[0].tags.is_empty());
    let lighting: Vec<&str> = resp[2].tags.iter().map(|t| t.name.as_str()).collect();
    assert_eq!(
        lighting,
        vec!["backlit", "golden-hour", "high-key", "low-key", "natural-light", "neon", "studio"]
    );
}

// ─── search ───

#[test]
fn test_search_no_filters() {
    let cat = sample_catalog();
    assert_eq!(search_count(&cat, &[]), 55);
}

#[test]
fn test_search_collection_eq() {
    let cat = sample_catalog();
    assert_eq!(search_count(&cat, &[eq(FilterField::Collection, "noir-atelier")]), 14);
}

#[test]
fn test_search_gallery_eq() {
    let cat = sample_catalog();
    assert_eq!(search_count(&cat, &[eq(FilterField::Gallery, "summer-editorial")]), 5);
}

#[test]
fn test_search_models_any_of() {
    let cat = sample_catalog();
    let f = [clause(FilterField::Models, FilterOp::AnyOf, &["model-emma", "model-sofia"])];
    assert_eq!(search_count(&cat, &f), 5);
}

#[test]
fn test_search_models_all_of() {
    let cat = sample_catalog();
    let f = [clause(FilterField::Models, FilterOp::AllOf, &["model-emma", "model-sofia"])];
    assert_eq!(search_count(&cat, &f), 1);
}

#[test]
fn test_search_models_exact() {
    let cat = sample_catalog();
    let f = [clause(FilterField::Models, FilterOp::Exact, &["model-emma"])];
    assert_eq!(search_count(&cat, &f), 2);
}

#[test]
fn test_search_models_none_of() {
    let cat = sample_catalog();
    let f = [
        eq(FilterField::Collection, "lumiere-studio"),
        clause(FilterField::Models, FilterOp::NoneOf, &["model-emma"]),
    ];
    assert_eq!(search_count(&cat, &f), 11);
}

#[test]
fn test_search_tags_any_of() {
    let cat = sample_catalog();
    let f = [clause(FilterField::Tags, FilterOp::AnyOf, &["tag-golden-hour", "tag-backlit"])];
    let count = search_count(&cat, &f);
    assert!(count >= 2 && count <= 10);
    assert_eq!(count, 9);
}

#[test]
fn test_search_tags_all_of() {
    let cat = sample_catalog();
    let f = [clause(FilterField::Tags, FilterOp::AllOf, &["tag-outdoor", "tag-casual"])];
    let count = search_count(&cat, &f);
    assert!(count > 0);
    assert_eq!(count, 2);
}

#[test]
fn test_search_tags_none_of() {
    let cat = sample_catalog();
    let f = [clause(FilterField::Tags, FilterOp::NoneOf, &["tag-studio"])];
    let count = search_count(&cat, &f);
    assert!(count > 0);
    assert!(count < 55);
    assert_eq!(count, 50);
}

#[test]
fn test_search_collection_and_model() {
    let cat = sample_catalog();
    let f = [
        eq(FilterField::Collection, "raw-collective"),
        clause(FilterField::Models, FilterOp::AnyOf, &["model-kai"]),
    ];
    assert_eq!(search_count(&cat, &f), 3);
}

#[test]
fn test_search_multiple_tag_clauses() {
    let cat = sample_catalog();
    let f = [
        clause(FilterField::Tags, FilterOp::AnyOf, &["tag-natural-light", "tag-golden-hour"]),
        clause(FilterField::Tags, FilterOp::AllOf, &["tag-outdoor"]),
    ];
    let count = search_count(&cat, &f);
    assert!(count > 0);
    assert_eq!(count, 3);
}

#[test]
fn test_search_model_exact_and_tags() {
    let cat = sample_catalog();
    let f = [
        clause(FilterField::Models, FilterOp::Exact, &["model-raven"]),
        clause(FilterField::Tags, FilterOp::AnyOf, &["tag-moody"]),
    ];
    assert!(search_count(&cat, &f) > 0);
}

#[test]
fn test_search_no_results() {
    let cat = sample_catalog();
    let f = [
        eq(FilterField::Collection, "noir-atelier"),
        clause(FilterField::Models, FilterOp::AnyOf, &["model-emma"]),
    ];
    assert_eq!(search_count(&cat, &f), 0);
}

#[test]
fn test_search_invalid_op_for_field() {
    let cat = sample_catalog();
    let f = [clause(FilterField::Collection, FilterOp::AnyOf, &["x"])];
    match cat.query_images(&f) {
        Err(e) => assert_eq!(e.status_code(), 400),
        Ok(_) => panic!("accepted an invalid clause"),
    }
}

#[test]
fn test_search_exact_on_tags() {
    let cat = sample_catalog();
    let f = [clause(FilterField::Tags, FilterOp::Exact, &["x"])];
    match cat.query_images(&f) {
        Ok(rows) => assert_eq!(rows.len(), 0),
        Err(_) => panic!("tags exact was refused"),
    }
}

#[test]
fn equal_keys_keep_catalog_order() {
    let row = |u: &str| ImageRow {
        uuid: s(u),
        path: s("same.jpg"),
        collection: s("c"),
        gallery: s("g"),
        width: 1,
        height: 1,
        file_size: 0,
    };
    let cat = match Catalog::new(vec![row("b"), row("a"), row("c")], vec![], vec![], vec![], vec![], vec![]) {
        Ok(c) => c,
        Err(_) => panic!("catalog refused"),
    };
    let got: Vec<String> = match cat.query_images(&[]) {
        Ok(rows) => rows.into_iter().map(|r| r.uuid).collect(),
        Err(_) => panic!("search failed"),
    };
    assert_eq!(got, vec!["b", "a", "c"]);
}

#[test]
fn repeated_values_count_once() {
    let cat = sample_catalog();
    let f = [clause(FilterField::Models, FilterOp::AllOf, &["model-emma", "model-emma"])];
    assert_eq!(search_count(&cat, &f), 3);
    let f = [clause(FilterField::Models, FilterOp::Exact, &["model-emma", "model-emma"])];
    assert_eq!(search_count(&cat, &f), 2);
}

#[test]
fn refused_filters_give_the_compiler_error() {
    let cat = sample_catalog();
    let f = [eq(FilterField::Collection, "x"), clause(FilterField::Gallery, FilterOp::AnyOf, &["y"])];
    match (cat.query_images(&f), cat.query_filter_options(&f)) {
        (Err(AppError::BadRequest(a)), Err(AppError::BadRequest(b))) => {
            assert_eq!(a, "gallery only supports the 'eq' operator");
            assert_eq!(b, a);
        }
        _ => panic!("refused filters were accepted"),
    }
}

#[test]
fn test_search_returns_bare_image_rows() {
    let cat = sample_catalog();
    let rows = match cat.query_images(&[eq(FilterField::Gallery, "summer-editorial")]) {
        Ok(rows) => rows,
        Err(_) => panic!("search failed"),
    };
    assert_eq!(rows.len(), 5);
    for img in &rows {
        assert!(!img.uuid.is_empty());
        assert!(!img.path.is_empty());
        assert_eq!(img.collection, "lumiere-studio");
        assert_eq!(img.gallery, "summer-editorial");
    }
}

#[test]
fn search_results_are_ordered_by_collection_gallery_path() {
    let cat = sample_catalog();
    let rows = match cat.query_images(&[]) {
        Ok(rows) => rows,
        Err(_) => panic!("search failed"),
    };
    for w in rows.windows(2) {
        let a = (&w[0].collection, &w[0].gallery, &w[0].path);
        let b = (&w[1].collection, &w[1].gallery, &w[1].path);
        assert!(a <= b);
    }
    assert_eq!(rows[0].collection, "golden-hour-photo");
    assert_eq!(rows[0].gallery, "dunes");
}

#[test]
fn tags_exact_excludes_other_tags_of_the_same_group_only() {
    let cat = sample_catalog();
    // Eight images carry golden-hour; one of them also carries backlit (same group),
    // and it carries outdoor and casual (other groups), which do not count.
    let f = [clause(FilterField::Tags, FilterOp::Exact, &["tag-golden-hour"])];
    assert_eq!(search_count(&cat, &f), 7);
    let f = [clause(FilterField::Tags, FilterOp::Exact, &["tag-golden-hour", "tag-backlit"])];
    assert_eq!(search_count(&cat, &f), 1);
}

#[test]
fn eq_with_several_values_is_refused() {
    let cat = sample_catalog();
    let f = [clause(FilterField::Collection, FilterOp::Eq, &["noir-atelier", "raw-collective"])];
    assert!(matches!(cat.query_images(&f), Err(AppError::BadRequest(_))));
    let f = [clause(FilterField::Collection, FilterOp::Eq, &["noir-atelier"])];
    assert_eq!(search_count(&cat, &f), 14);
}

#[test]
fn models_eq_is_refused() {
    let cat = sample_catalog();
    let f = [eq(FilterField::Models, "model-emma")];
    assert!(matches!(cat.query_images(&f), Err(AppError::BadRequest(_))));
}

#[test]
fn all_of_with_no_values_matches_everything() {
    let cat = sample_catalog();
    let f = [clause(FilterField::Models, FilterOp::AllOf, &[])];
    assert_eq!(search_count(&cat, &f), 55);
    let f = [clause(FilterField::Models, FilterOp::AnyOf, &[])];
    assert_eq!(search_count(&cat, &f), 0);
}

// ─── options ───

#[test]
fn test_options_no_filters() {
    let cat = sample_catalog();
    let opts = match cat.query_filter_options(&[]) {
        Ok(o) => o,
        Err(_) => panic!("options failed"),
    };
    assert_eq!(opts.image_count, 55);
    assert_eq!(opts.collections.len(), 4);
    assert_eq!(opts.galleries.len(), 12);
    assert_eq!(opts.models.len(), 25);
    assert_eq!(opts.tags.len(), 34);
}

#[test]
fn test_options_filtered_by_collection() {
    let cat = sample_catalog();
    let opts = match cat.query_filter_options(&[eq(FilterField::Collection, "lumiere-studio")]) {
        Ok(o) => o,
        Err(_) => panic!("options failed"),
    };
    assert_eq!(opts.image_count, 14);
    assert_eq!(opts.collections.len(), 1);
    assert_eq!(opts.galleries.len(), 3);
    for m in &opts.models {
        assert_eq!(m.collection, "lumiere-studio");
    }
}

#[test]
fn test_options_filtered_by_model() {
    let cat = sample_catalog();
    let f = [clause(FilterField::Models, FilterOp::AnyOf, &["model-emma"])];
    let opts = match cat.query_filter_options(&f) {
        Ok(o) => o,
        Err(_) => panic!("options failed"),
    };
    assert_eq!(opts.image_count, 3);
    assert_eq!(opts.collections.len(), 1);
}

#[test]
fn options_count_equals_search_length() {
    let cat = sample_catalog();
    let filters = [
        vec![],
        vec![eq(FilterField::Collection, "raw-collective")],
        vec![clause(FilterField::Tags, FilterOp::AnyOf, &["tag-golden-hour", "tag-backlit"])],
        vec![clause(FilterField::Models, FilterOp::NoneOf, &["model-kai"])],
    ];
    for f in filters.iter() {
        let n = search_count(&cat, f);
        match cat.query_filter_options(f) {
            Ok(o) => assert_eq!(o.image_count as usize, n),
            Err(_) => panic!("options failed"),
        }
    }
}

#[test]
fn options_lists_are_sorted_and_distinct() {
    let cat = sample_catalog();
    let opts = match cat.query_filter_options(&[]) {
        Ok(o) => o,
        Err(_) => panic!("options failed"),
    };
    assert_eq!(opts.collections, vec!["golden-hour-photo", "lumiere-studio", "noir-atelier", "raw-collective"]);
    for w in opts.galleries.windows(2) {
        assert!((&w[0].collection, &w[0].name) < (&w[1].collection, &w[1].name));
        assert_eq!(w[0].image_count, 0);
    }
    for w in opts.models.windows(2) {
        assert!((&w[0].collection, &w[0].name) < (&w[1].collection, &w[1].name));
    }
    for w in opts.tags.windows(2) {
        assert!((&w[0].group, &w[0].name) < (&w[1].group, &w[1].name));
    }
    assert_eq!(opts.tags[0].group, "framing");
}

#[test]
fn options_for_the_duo() {
    let cat = sample_catalog();
    let f = [clause(FilterField::Models, FilterOp::AllOf, &["model-emma", "model-sofia"])];
    let opts = match cat.query_filter_options(&f) {
        Ok(o) => o,
        Err(_) => panic!("options failed"),
    };
    assert_eq!(opts.image_count, 1);
    let names: Vec<&str> = opts.models.iter().map(|m| m.name.as_str()).collect();
    assert_eq!(names, vec!["emma", "sofia"]);
    let tags: Vec<&str> = opts.tags.iter().map(|t| t.name.as_str()).collect();
    assert_eq!(tags, vec!["studio"]);
    assert_eq!(opts.tags[0].group, "lighting");
}

#[test]
fn options_refuse_invalid_clause() {
    let cat = sample_catalog();
    let f = [clause(FilterField::Gallery, FilterOp::NoneOf, &["x"])];
    assert!(matches!(cat.query_filter_options(&f), Err(AppError::BadRequest(_))));
}

// ─── image detail and file ───

#[test]
fn image_detail_lists_models_and_tags() {
    let cat = sample_catalog();
    let d = match cat.query_image_detail(&image_uuid(0, 4)) {
        Ok(d) => d,
        Err(_) => panic!("image not found"),
    };
    assert_eq!(d.gallery, "summer-editorial");
    let models: Vec<&str> = d.models.iter().map(|m| m.name.as_str()).collect();
    assert_eq!(models, vec!["emma", "sofia"]);
    assert_eq!(tag_names_of(&cat, &image_uuid(0, 4)), vec!["studio"]);
}

#[test]
fn image_detail_unknown_uuid_is_not_found() {
    let cat = sample_catalog();
    assert!(matches!(
        cat.query_image_detail("00000000-0000-0000-0000-000000000000"),
        Err(AppError::NotFound(_))
    ));
}

#[test]
fn test_get_image_file_valid() {
    let cat = sample_catalog();
    let first = match cat.query_images(&[]) {
        Ok(rows) => rows[0].uuid.clone(),
        Err(_) => panic!("search failed"),
    };
    match cat.plan_image_file(&first, None) {
        Ok(p) => {
            assert_eq!(p.relative_path, "golden-hour-photo/dunes/00.jpg");
            assert!(p.thumbnail.is_none());
        }
        Err(_) => panic!("image not found"),
    }
}

#[test]
fn test_get_image_file_not_found() {
    let cat = sample_catalog();
    match cat.plan_image_file("00000000-0000-0000-0000-000000000000", None) {
        Err(e) => assert_eq!(e.status_code(), 404),
        Ok(_) => panic!("unknown image resolved"),
    }
}

#[test]
fn file_plan_clamps_width_and_names_cache_file() {
    let cat = sample_catalog();
    let uuid = image_uuid(3, 2);
    for (asked, served) in [(1u32, 50u32), (50, 50), (640, 640), (1920, 1920), (5000, 1920)] {
        match cat.plan_image_file(&uuid, Some(asked)) {
            Ok(p) => match p.thumbnail {
                Some(t) => {
                    assert_eq!(t.width, served);
                    assert_eq!(t.cache_name, format!("{uuid}_{served}.jpg"));
                }
                None => panic!("no thumbnail planned"),
            },
            Err(_) => panic!("image not found"),
        }
    }
}

// ─── tag mutation ───

#[test]
fn test_update_tags_set_and_verify() {
    let mut cat = sample_catalog();
    let image = image_uuid(1, 7);
    let r = cat.replace_image_tags(&image, &[s("tag-outdoor"), s("tag-moody")]);
    assert!(r.is_ok());
    let names = tag_names_of(&cat, &image);
    assert_eq!(names.len(), 2);
    assert!(names.contains(&s("outdoor")));
    assert!(names.contains(&s("moody")));
}

#[test]
fn test_update_tags_clear_all() {
    let mut cat = sample_catalog();
    let image = image_uuid(2, 0);
    assert!(!tag_names_of(&cat, &image).is_empty());
    assert!(cat.replace_image_tags(&image, &[]).is_ok());
    assert_eq!(tag_names_of(&cat, &image).len(), 0);
}

#[test]
fn test_update_tags_invalid_image_uuid() {
    let mut cat = sample_catalog();
    match cat.replace_image_tags("00000000-0000-0000-0000-000000000000", &[]) {
        Err(e) => assert_eq!(e.status_code(), 404),
        Ok(_) => panic!("unknown image accepted"),
    }
}

#[test]
fn test_update_tags_invalid_tag_uuid() {
    let mut cat = sample_catalog();
    let image = image_uuid(2, 0);
    let before = tag_names_of(&cat, &image);
    match cat.replace_image_tags(&image, &[s("tag-outdoor"), s("nonexistent-tag-uuid")]) {
        Err(e) => {
            assert_eq!(e.status_code(), 400);
            assert_eq!(e.public_message(), "Tag not found: nonexistent-tag-uuid");
        }
        Ok(_) => panic!("unknown tag accepted"),
    }
    assert_eq!(tag_names_of(&cat, &image), before);
}

#[test]
fn duplicate_tags_are_stored_once() {
    let mut cat = sample_catalog();
    let image = image_uuid(0, 9);
    let r = cat.replace_image_tags(&image, &[s("tag-moody"), s("tag-moody"), s("tag-wide")]);
    assert!(r.is_ok());
    assert_eq!(tag_names_of(&cat, &image), vec!["wide", "moody"]);
    let n = cat.image_tags.iter().filter(|l| l.image_uuid == image).count();
    assert_eq!(n, 2);
}

#[test]
fn replacing_tags_leaves_other_images_alone() {
    let mut cat = sample_catalog();
    let before = search_count(&cat, &[clause(FilterField::Tags, FilterOp::AnyOf, &["tag-golden-hour"])]);
    assert!(cat.replace_image_tags(&image_uuid(2, 0), &[s("tag-moody")]).is_ok());
    let after = search_count(&cat, &[clause(FilterField::Tags, FilterOp::AnyOf, &["tag-golden-hour"])]);
    assert_eq!(after, before - 1);
    assert_eq!(tag_names_of(&cat, &image_uuid(2, 1)), vec!["golden-hour", "outdoor"]);
}

// ─── construction ───

#[test]
fn inconsistent_catalogs_are_refused() {
    let image = |u: &str| ImageRow {
        uuid: s(u),
        path: s("a/b/c.jpg"),
        collection: s("a"),
        gallery: s("b"),
        width: 1,
        height: 1,
        file_size: 0,
    };
    let dup = Catalog::new(vec![image("x"), image("x")], vec![], vec![], vec![], vec![], vec![]);
    assert!(matches!(dup, Err(AppError::DbError(_))));
    let dangling = Catalog::new(vec![image("x")], vec![], vec![], vec![], vec![], vec![link(s("x"), "tag-none")]);
    assert!(matches!(dangling, Err(AppError::DbError(_))));
    let fine = Catalog::new(vec![image("x"), image("y")], vec![], vec![], vec![], vec![], vec![]);
    assert!(fine.is_ok());
    let group = || GroupRow { uuid: s("g"), name: s("mood") };
    let tag = |u: &str, g: &str| TagRow { uuid: s(u), name: s(u), group_uuid: s(g) };
    let twice = Catalog::new(
        vec![image("x")],
        vec![],
        vec![group()],
        vec![tag("t", "g")],
        vec![],
        vec![link(s("x"), "t"), link(s("x"), "t")],
    );
    assert!(matches!(twice, Err(AppError::DbError(_))));
    let orphan = Catalog::new(vec![image("x")], vec![], vec![group()], vec![tag("t", "missing")], vec![], vec![]);
    assert!(matches!(orphan, Err(AppError::DbError(_))));
    let same_tag = Catalog::new(vec![image("x")], vec![], vec![group()], vec![tag("t", "g"), tag("t", "g")], vec![], vec![]);
    assert!(matches!(same_tag, Err(AppError::DbError(_))));
    let ok = Catalog::new(vec![image("x")], vec![], vec![group()], vec![tag("t", "g")], vec![], vec![link(s("x"), "t")]);
    assert!(ok.is_ok());
}

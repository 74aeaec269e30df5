//! Compilation of filter clauses into a parameterised query over the catalog schema.
use vstd::prelude::*;
use vstd::string::StrSliceExecFns;

use crate::error::AppError;
use crate::filter::{
    check_clause, clause_ok, clauses_ok, filters_error, lemma_first_bad, FilterClause, FilterField, FilterOp,
};

verus! {

/// The character views of a list of strings.
pub open spec fn texts(v: Seq<String>) -> Seq<Seq<char>> {
    v.map_values(|s: String| s@)
}

/// The character views of a list of string slices.
pub open spec fn str_texts(v: Seq<&str>) -> Seq<Seq<char>> {
    v.map_values(|s: &str| s@)
}

/// `n` placeholders separated by commas: `?, ?, ?`.
pub open spec fn placeholders(n: nat) -> Seq<char>
    decreases n,
{
    if n == 0 {
        Seq::empty()
    } else if n == 1 {
        "?"@
    } else {
        placeholders((n - 1) as nat) + ", ?"@
    }
}

/// The decimal digit for `d`, where `d < 10`.
pub open spec fn digit(d: nat) -> char {
    if d == 0 {
        '0'
    } else if d == 1 {
        '1'
    } else if d == 2 {
        '2'
    } else if d == 3 {
        '3'
    } else if d == 4 {
        '4'
    } else if d == 5 {
        '5'
    } else if d == 6 {
        '6'
    } else if d == 7 {
        '7'
    } else if d == 8 {
        '8'
    } else {
        '9'
    }
}

/// The decimal notation of `n`, without leading zeros.
pub open spec fn decimal(n: nat) -> Seq<char>
    decreases n,
{
    if n < 10 {
        seq![digit(n)]
    } else {
        decimal(n / 10) + seq![digit(n % 10)]
    }
}

/// The decimal digit for `d` as a text.
fn digit_text(d: usize) -> (r: &'static str)
    requires
        d < 10,
    ensures
        r@ == seq![digit(d as nat)],
{
    match d {
        0 => {
            proof {
                reveal_strlit("0");
            }
            "0"
        },
        1 => {
            proof {
                reveal_strlit("1");
            }
            "1"
        },
        2 => {
            proof {
                reveal_strlit("2");
            }
            "2"
        },
        3 => {
            proof {
                reveal_strlit("3");
            }
            "3"
        },
        4 => {
            proof {
                reveal_strlit("4");
            }
            "4"
        },
        5 => {
            proof {
                reveal_strlit("5");
            }
            "5"
        },
        6 => {
            proof {
                reveal_strlit("6");
            }
            "6"
        },
        7 => {
            proof {
                reveal_strlit("7");
            }
            "7"
        },
        8 => {
            proof {
                reveal_strlit("8");
            }
            "8"
        },
        _ => {
            proof {
                reveal_strlit("9");
            }
            "9"
        },
    }
}

/// The decimal notation of `n`.
pub(crate) fn decimal_text(n: usize) -> (r: String)
    ensures
        r@ == decimal(n as nat),
    decreases n,
{
    if n < 10 {
        String::from_str(digit_text(n))
    } else {
        let mut s = decimal_text(n / 10);
        s.append(digit_text(n % 10));
        s
    }
}

/// Builds `n` placeholders separated by commas.
pub fn make_placeholders(n: usize) -> (r: String)
    ensures
        r@ == placeholders(n as nat),
{
    let mut s = String::new();
    let mut i: usize = 0;
    while i < n
        invariant
            i <= n,
            s@ == placeholders(i as nat),
        decreases n - i,
    {
        if i == 0 {
            s.append("?");
        } else {
            s.append(", ?");
        }
        i = i + 1;
    }
    s
}

/// The association table that a set field is matched against.
pub open spec fn link_table(f: FilterField) -> Seq<char> {
    if f == FilterField::Models {
        "image_models"@
    } else {
        "image_tags"@
    }
}

/// The column of that table that holds the associated uuid.
pub open spec fn link_column(f: FilterField) -> Seq<char> {
    if f == FilterField::Models {
        "model_uuid"@
    } else {
        "tag_uuid"@
    }
}

/// The images that carry at least one of `n` bound values of a set field.
pub open spec fn cond_in(f: FilterField, n: nat) -> Seq<char> {
    "i.uuid IN (SELECT image_uuid FROM "@ + link_table(f) + " WHERE "@ + link_column(f)
        + " IN ("@ + placeholders(n) + "))"@
}

/// The images that carry none of `n` bound values of a set field.
pub open spec fn cond_not_in(f: FilterField, n: nat) -> Seq<char> {
    "i.uuid NOT IN (SELECT image_uuid FROM "@ + link_table(f) + " WHERE "@ + link_column(f)
        + " IN ("@ + placeholders(n) + "))"@
}

/// `n` single-column rows of one placeholder each: `(?), (?), (?)`.
pub open spec fn value_rows(n: nat) -> Seq<char>
    decreases n,
{
    if n == 0 {
        Seq::empty()
    } else if n == 1 {
        "(?)"@
    } else {
        value_rows((n - 1) as nat) + ", (?)"@
    }
}

/// The images that carry all of `n` bound values of a set field: as many distinct
/// values match as the values, bound a second time, hold distinct ones.
pub open spec fn cond_all(f: FilterField, n: nat) -> Seq<char> {
    "i.uuid IN (SELECT image_uuid FROM "@ + link_table(f) + " WHERE "@ + link_column(f)
        + " IN ("@ + placeholders(n) + ") GROUP BY image_uuid HAVING COUNT(DISTINCT "@
        + link_column(f) + ") = (SELECT COUNT(DISTINCT column1) FROM (VALUES "@ + value_rows(n)
        + ")))"@
}

/// The conditions that demand all of the values: none for an empty list, which every
/// image satisfies.
pub open spec fn conds_all(f: FilterField, v: Seq<Seq<char>>) -> Seq<Seq<char>> {
    if v.len() == 0 {
        Seq::empty()
    } else {
        seq![cond_all(f, v.len())]
    }
}

/// The images that carry no model outside `n` bound values.
pub open spec fn cond_no_other_model(n: nat) -> Seq<char> {
    "i.uuid NOT IN (SELECT image_uuid FROM image_models WHERE model_uuid NOT IN ("@
        + placeholders(n) + "))"@
}

/// The images that carry no tag outside `n` bound values from the groups of those values.
pub open spec fn cond_no_other_tag_in_groups(n: nat) -> Seq<char> {
    "i.uuid NOT IN (SELECT it2.image_uuid FROM image_tags it2 JOIN tags t2 ON it2.tag_uuid = t2.uuid WHERE t2.tag_group_uuid IN (SELECT tag_group_uuid FROM tags WHERE uuid IN ("@
        + placeholders(n) + ")) AND it2.tag_uuid NOT IN ("@ + placeholders(n) + "))"@
}

/// The query conditions that one accepted clause contributes.
pub open spec fn clause_conds(c: FilterClause) -> Seq<Seq<char>> {
    let v = c.value.values();
    let n = v.len();
    match c.field {
        FilterField::Collection => seq!["i.collection = ?"@],
        FilterField::Gallery => seq!["i.gallery = ?"@],
        FilterField::Models | FilterField::Tags => match c.op {
            FilterOp::AnyOf => seq![cond_in(c.field, n)],
            FilterOp::AllOf => conds_all(c.field, v),
            FilterOp::Exact => if c.field == FilterField::Models {
                conds_all(c.field, v).push(cond_no_other_model(n))
            } else {
                conds_all(c.field, v).push(cond_no_other_tag_in_groups(n))
            },
            _ => seq![cond_not_in(c.field, n)],
        },
    }
}

/// The bound parameters that one accepted clause contributes, in placeholder order.
pub open spec fn clause_params(c: FilterClause) -> Seq<Seq<char>> {
    let v = c.value.values();
    match c.field {
        FilterField::Collection | FilterField::Gallery => seq![v[0]],
        FilterField::Models | FilterField::Tags => match c.op {
            FilterOp::AllOf => v + v,
            FilterOp::Exact => if c.field == FilterField::Models {
                v + v + v
            } else {
                v + v + v + v
            },
            _ => v,
        },
    }
}

/// The conditions of a list of clauses, in order.
pub open spec fn all_conds(cs: Seq<FilterClause>) -> Seq<Seq<char>>
    decreases cs.len(),
{
    if cs.len() == 0 {
        Seq::empty()
    } else {
        all_conds(cs.drop_last()) + clause_conds(cs.last())
    }
}

/// The parameters of a list of clauses, in order.
pub open spec fn all_params(cs: Seq<FilterClause>) -> Seq<Seq<char>>
    decreases cs.len(),
{
    if cs.len() == 0 {
        Seq::empty()
    } else {
        all_params(cs.drop_last()) + clause_params(cs.last())
    }
}

/// Conditions joined by ` AND `.
pub open spec fn join_and(conds: Seq<Seq<char>>) -> Seq<char>
    decreases conds.len(),
{
    if conds.len() == 0 {
        Seq::empty()
    } else if conds.len() == 1 {
        conds[0]
    } else {
        join_and(conds.drop_last()) + " AND "@ + conds.last()
    }
}

/// The projection of the image query.
pub open spec fn select_images() -> Seq<char> {
    "SELECT i.uuid, i.path, i.collection, i.gallery, i.width, i.height, i.file_size FROM images i"@
}

/// The ordering that closes the image query.
pub open spec fn order_images() -> Seq<char> {
    " ORDER BY i.collection, i.gallery, i.path"@
}

/// The image query without its ordering, for use as a subquery.
pub open spec fn query_body(cs: Seq<FilterClause>) -> Seq<char> {
    let conds = all_conds(cs);
    if conds.len() == 0 {
        select_images()
    } else {
        select_images() + " WHERE "@ + join_and(conds)
    }
}

/// The complete image query.
pub open spec fn query_text(cs: Seq<FilterClause>) -> Seq<char> {
    query_body(cs) + order_images()
}

/// Appends one string for each slice, in order.
fn push_values(params: &mut Vec<String>, vals: &Vec<&str>)
    ensures
        texts(final(params)@) == texts(old(params)@) + str_texts(vals@),
{
    let ghost start = texts(params@);
    let mut i: usize = 0;
    while i < vals.len()
        invariant
            i <= vals@.len(),
            texts(params@) == start + str_texts(vals@.subrange(0, i as int)),
        decreases vals@.len() - i,
    {
        let ghost before = params@;
        params.push(String::from_str(vals[i]));
        proof {
            assert(params@.drop_last() =~= before);
            assert(str_texts(vals@.subrange(0, i + 1)) =~= str_texts(vals@.subrange(0, i as int))
                + seq![vals@[i as int]@]);
            assert(texts(params@) =~= texts(params@.drop_last()) + seq![vals@[i as int]@]);
        }
        i = i + 1;
    }
    proof {
        assert(vals@.subrange(0, vals@.len() as int) =~= vals@);
    }
}

/// Builds the condition on images that carry at least one, or none, of the bound values.
fn make_cond_in(field: FilterField, n: usize, negated: bool) -> (r: String)
    requires
        field == FilterField::Models || field == FilterField::Tags,
    ensures
        r@ == (if negated {
            cond_not_in(field, n as nat)
        } else {
            cond_in(field, n as nat)
        }),
{
    let (table, column) = if field == FilterField::Models {
        ("image_models", "model_uuid")
    } else {
        ("image_tags", "tag_uuid")
    };
    let mut s = if negated {
        String::from_str("i.uuid NOT IN (SELECT image_uuid FROM ")
    } else {
        String::from_str("i.uuid IN (SELECT image_uuid FROM ")
    };
    s.append(table);
    s.append(" WHERE ");
    s.append(column);
    s.append(" IN (");
    let p = make_placeholders(n);
    s.append(p.as_str());
    s.append("))");
    s
}

/// Builds `n` single-column rows of one placeholder each.
fn make_value_rows(n: usize) -> (r: String)
    ensures
        r@ == value_rows(n as nat),
{
    let mut s = String::new();
    let mut i: usize = 0;
    while i < n
        invariant
            i <= n,
            s@ == value_rows(i as nat),
        decreases n - i,
    {
        if i == 0 {
            s.append("(?)");
        } else {
            s.append(", (?)");
        }
        i = i + 1;
    }
    s
}

/// Builds the condition on images that carry all of `n` bound values.
fn make_cond_all(field: FilterField, n: usize) -> (r: String)
    requires
        field == FilterField::Models || field == FilterField::Tags,
    ensures
        r@ == cond_all(field, n as nat),
{
    let (table, column) = if field == FilterField::Models {
        ("image_models", "model_uuid")
    } else {
        ("image_tags", "tag_uuid")
    };
    let mut s = String::from_str("i.uuid IN (SELECT image_uuid FROM ");
    s.append(table);
    s.append(" WHERE ");
    s.append(column);
    s.append(" IN (");
    let p = make_placeholders(n);
    s.append(p.as_str());
    s.append(") GROUP BY image_uuid HAVING COUNT(DISTINCT ");
    s.append(column);
    s.append(") = (SELECT COUNT(DISTINCT column1) FROM (VALUES ");
    let rows = make_value_rows(n);
    s.append(rows.as_str());
    s.append(")))");
    s
}

/// Builds the second condition of an `exact` clause.
fn make_cond_no_other(field: FilterField, n: usize) -> (r: String)
    requires
        field == FilterField::Models || field == FilterField::Tags,
    ensures
        field == FilterField::Models ==> r@ == cond_no_other_model(n as nat),
        field == FilterField::Tags ==> r@ == cond_no_other_tag_in_groups(n as nat),
{
    let p = make_placeholders(n);
    if field == FilterField::Models {
        let mut s = String::from_str(
            "i.uuid NOT IN (SELECT image_uuid FROM image_models WHERE model_uuid NOT IN (",
        );
        s.append(p.as_str());
        s.append("))");
        s
    } else {
        let mut s = String::from_str(
            "i.uuid NOT IN (SELECT it2.image_uuid FROM image_tags it2 JOIN tags t2 ON it2.tag_uuid = t2.uuid WHERE t2.tag_group_uuid IN (SELECT tag_group_uuid FROM tags WHERE uuid IN (",
        );
        s.append(p.as_str());
        s.append(")) AND it2.tag_uuid NOT IN (");
        s.append(p.as_str());
        s.append("))");
        s
    }
}

/// Joins conditions with ` AND `.
fn join_conditions(conds: &Vec<String>) -> (r: String)
    ensures
        r@ == join_and(texts(conds@)),
{
    let mut s = String::new();
    let mut i: usize = 0;
    while i < conds.len()
        invariant
            i <= conds@.len(),
            s@ == join_and(texts(conds@.subrange(0, i as int))),
        decreases conds@.len() - i,
    {
        proof {
            let t = texts(conds@.subrange(0, i + 1));
            assert(t.drop_last() =~= texts(conds@.subrange(0, i as int)));
            if i == 0 {
                assert(texts(conds@.subrange(0, i as int)) =~= Seq::<Seq<char>>::empty());
            }
        }
        if i > 0 {
            s.append(" AND ");
        }
        s.append(conds[i].as_str());
        i = i + 1;
    }
    proof {
        assert(conds@.subrange(0, conds@.len() as int) =~= conds@);
    }
    s
}

/// Compiles filter clauses into a parameterised query over the catalog schema and its
/// bound parameters. Every value of a clause reaches the query as a parameter; the
/// text holds only the compiler's own words. Fails on the first clause whose
/// operator does not suit its field, or whose `eq` value is not exactly one string.
pub fn build_image_query(filters: &[FilterClause]) -> (r: Result<(String, Vec<String>), AppError>)
    ensures
        r is Ok <==> clauses_ok(filters@),
        r matches Err(e) ==> e is BadRequest,
        r matches Err(AppError::BadRequest(m)) ==> m@ == filters_error(filters@),
        r matches Ok((sql, params)) ==> sql@ == query_text(filters@) && texts(params@)
            == all_params(filters@),
{
    let mut conds: Vec<String> = Vec::new();
    let mut params: Vec<String> = Vec::new();
    let mut k: usize = 0;
    while k < filters.len()
        invariant
            k <= filters@.len(),
            clauses_ok(filters@.subrange(0, k as int)),
            texts(conds@) == all_conds(filters@.subrange(0, k as int)),
            texts(params@) == all_params(filters@.subrange(0, k as int)),
        decreases filters@.len() - k,
    {
        let clause = &filters[k];
        let ghost pre = filters@.subrange(0, k as int);
        let ghost post = filters@.subrange(0, k + 1);
        let ghost cv = texts(conds@);
        let ghost pv = texts(params@);
        proof {
            assert(post.drop_last() =~= pre);
            assert(post.last() == *clause);
        }
        match check_clause(clause) {
            Ok(()) => {},
            Err(e) => {
                proof {
                    assert(!clause_ok(filters@[k as int]));
                    assert forall|j: int| 0 <= j < k implies clause_ok(#[trigger] filters@[j]) by {
                        assert(pre[j] == filters@[j]);
                    }
                    lemma_first_bad(filters@, k as int);
                }
                return Err(e);
            },
        }
        match clause.field {
            FilterField::Collection | FilterField::Gallery => {
                let val = match clause.value.as_single() {
                    Some(v) => v,
                    None => {
                        proof {
                            assert(!clause_ok(filters@[k as int]));
                        }
                        return Err(
                            AppError::BadRequest(
                                if clause.field == FilterField::Collection {
                                    String::from_str("collection eq requires a single value")
                                } else {
                                    String::from_str("gallery eq requires a single value")
                                },
                            ),
                        );
                    },
                };
                if clause.field == FilterField::Collection {
                    conds.push(String::from_str("i.collection = ?"));
                } else {
                    conds.push(String::from_str("i.gallery = ?"));
                }
                params.push(String::from_str(val));
                proof {
                    assert(texts(conds@) =~= cv + clause_conds(*clause));
                    assert(texts(params@) =~= pv + clause_params(*clause));
                }
            },
            FilterField::Models | FilterField::Tags => {
                let vals = clause.value.as_multiple();
                let n = vals.len();
                proof {
                    assert(str_texts(vals@) =~= clause.value.values());
                }
                match clause.op {
                    FilterOp::AnyOf => {
                        conds.push(make_cond_in(clause.field, n, false));
                        push_values(&mut params, &vals);
                    },
                    FilterOp::NoneOf => {
                        conds.push(make_cond_in(clause.field, n, true));
                        push_values(&mut params, &vals);
                    },
                    FilterOp::AllOf => {
                        if n > 0 {
                            conds.push(make_cond_all(clause.field, n));
                        }
                        push_values(&mut params, &vals);
                        push_values(&mut params, &vals);
                    },
                    _ => {
                        if n > 0 {
                            conds.push(make_cond_all(clause.field, n));
                        }
                        conds.push(make_cond_no_other(clause.field, n));
                        push_values(&mut params, &vals);
                        push_values(&mut params, &vals);
                        push_values(&mut params, &vals);
                        if clause.field == FilterField::Tags {
                            push_values(&mut params, &vals);
                        }
                    },
                }
                proof {
                    assert(texts(conds@) =~= cv + clause_conds(*clause));
                    assert(texts(params@) =~= pv + clause_params(*clause));
                }
            },
        }
        proof {
            assert forall|i: int| 0 <= i < post.len() implies clause_ok(#[trigger] post[i]) by {
                if i < k {
                    assert(post[i] == pre[i]);
                }
            }
        }
        k = k + 1;
    }
    proof {
        assert(filters@.subrange(0, filters@.len() as int) =~= filters@);
    }
    let mut sql = String::from_str(
        "SELECT i.uuid, i.path, i.collection, i.gallery, i.width, i.height, i.file_size FROM images i",
    );
    if conds.len() > 0 {
        sql.append(" WHERE ");
        let joined = join_conditions(&conds);
        sql.append(joined.as_str());
    }
    sql.append(" ORDER BY i.collection, i.gallery, i.path");
    Ok((sql, params))
}

/// Compiles filter clauses into the image query without its ordering, for use as a
/// subquery of an aggregation. Accepts and refuses as `build_image_query` does.
pub fn build_image_subquery(filters: &[FilterClause]) -> (r: Result<(String, Vec<String>), AppError>)
    ensures
        r is Ok <==> clauses_ok(filters@),
        r matches Err(e) ==> e is BadRequest,
        r matches Err(AppError::BadRequest(m)) ==> m@ == filters_error(filters@),
        r matches Ok((sql, params)) ==> sql@ == query_body(filters@) && texts(params@)
            == all_params(filters@),
{
    let (sql, params) = build_image_query(filters)?;
    let order = " ORDER BY i.collection, i.gallery, i.path";
    let n = sql.as_str().unicode_len();
    let m = order.unicode_len();
    proof {
        assert(order@ == order_images());
    }
    let body = sql.as_str().substring_char(0, n - m);
    proof {
        assert(query_body(filters@) =~= sql@.subrange(0, n - m));
    }
    Ok((String::from_str(body), params))
}

} // verus!

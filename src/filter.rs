//! The filter language: clauses of a field, an operator and a value.
use vstd::prelude::*;

verus! {

/// A request body carrying a list of filter clauses.
pub struct SearchRequest {
    pub filters: Vec<FilterClause>,
}

/// One clause of the filter language: a field, an operator and a value.
pub struct FilterClause {
    pub field: FilterField,
    pub op: FilterOp,
    pub value: FilterValue,
}

/// The image attribute that a clause constrains.
#[derive(PartialEq, Eq, Structural, Clone, Copy)]
pub enum FilterField {
    Collection,
    Gallery,
    Models,
    Tags,
}

/// How a clause compares its value with the image.
#[derive(PartialEq, Eq, Structural, Clone, Copy)]
pub enum FilterOp {
    Eq,
    AnyOf,
    AllOf,
    Exact,
    NoneOf,
}

/// A clause's value: one string, or a list of strings.
pub enum FilterValue {
    Single(String),
    Multiple(Vec<String>),
}

impl FilterValue {
    /// The value as a list of strings (a single string is a list of one).
    pub open spec fn values(&self) -> Seq<Seq<char>> {
        match self {
            FilterValue::Single(s) => seq![s@],
            FilterValue::Multiple(v) => v@.map_values(|s: String| s@),
        }
    }

    /// Whether the value denotes exactly one string.
    pub open spec fn is_one(&self) -> bool {
        self.values().len() == 1
    }

    /// The one string, where the value denotes exactly one.
    pub fn as_single(&self) -> (r: Option<&str>)
        ensures
            r is Some <==> self.is_one(),
            r matches Some(s) ==> s@ == self.values()[0],
    {
        match self {
            FilterValue::Single(s) => Some(s.as_str()),
            FilterValue::Multiple(v) => {
                if v.len() == 1 {
                    Some(v[0].as_str())
                } else {
                    None
                }
            },
        }
    }

    /// All strings of the value, in order.
    pub fn as_multiple(&self) -> (r: Vec<&str>)
        ensures
            r@.len() == self.values().len(),
            forall|i: int| 0 <= i < r@.len() ==> #[trigger] r@[i]@ == self.values()[i],
    {
        match self {
            FilterValue::Single(s) => {
                let mut r: Vec<&str> = Vec::new();
                r.push(s.as_str());
                r
            },
            FilterValue::Multiple(v) => {
                let mut r: Vec<&str> = Vec::new();
                let mut i: usize = 0;
                while i < v.len()
                    invariant
                        i <= v@.len(),
                        r@.len() == i,
                        forall|j: int| 0 <= j < i ==> #[trigger] r@[j]@ == v@[j]@,
                    decreases v@.len() - i,
                {
                    r.push(v[i].as_str());
                    i = i + 1;
                }
                r
            },
        }
    }
}

/// Whether an operator may be used with a field: `eq` on the collection and the
/// gallery, every set operator on models and tags.
pub open spec fn op_allowed(field: FilterField, op: FilterOp) -> bool {
    match field {
        FilterField::Collection | FilterField::Gallery => op == FilterOp::Eq,
        FilterField::Models | FilterField::Tags => op != FilterOp::Eq,
    }
}

/// Whether a clause is accepted: its operator suits its field, and an `eq` clause
/// carries exactly one value.
pub open spec fn clause_ok(c: FilterClause) -> bool {
    &&& op_allowed(c.field, c.op)
    &&& (c.op == FilterOp::Eq ==> c.value.is_one())
}

/// Whether every clause of a list is accepted.
pub open spec fn clauses_ok(cs: Seq<FilterClause>) -> bool {
    forall|i: int| 0 <= i < cs.len() ==> clause_ok(#[trigger] cs[i])
}

/// The message of the error that a refused clause gives.
pub open spec fn clause_error(c: FilterClause) -> Seq<char> {
    match c.field {
        FilterField::Collection => if c.op != FilterOp::Eq {
            "collection only supports the 'eq' operator"@
        } else {
            "collection eq requires a single value"@
        },
        FilterField::Gallery => if c.op != FilterOp::Eq {
            "gallery only supports the 'eq' operator"@
        } else {
            "gallery eq requires a single value"@
        },
        FilterField::Tags => "tags does not support the 'eq' operator"@,
        FilterField::Models => "models does not support the 'eq' operator"@,
    }
}

/// The position of the first refused clause of a list.
pub open spec fn first_bad(cs: Seq<FilterClause>) -> int
    decreases cs.len(),
{
    if cs.len() == 0 || !clause_ok(cs[0]) {
        0
    } else {
        1 + first_bad(cs.drop_first())
    }
}

/// The message of the error that a list of clauses gives: that of its first refused
/// clause.
pub open spec fn filters_error(cs: Seq<FilterClause>) -> Seq<char> {
    clause_error(cs[first_bad(cs)])
}

/// Where the clauses before `k` are accepted and the one at `k` is not, `k` is the
/// first refused clause.
pub proof fn lemma_first_bad(cs: Seq<FilterClause>, k: int)
    requires
        0 <= k < cs.len(),
        forall|j: int| 0 <= j < k ==> clause_ok(#[trigger] cs[j]),
        !clause_ok(cs[k]),
    ensures
        first_bad(cs) == k,
    decreases k,
{
    if k > 0 {
        assert(clause_ok(cs[0]));
        let rest = cs.drop_first();
        assert forall|j: int| 0 <= j < k - 1 implies clause_ok(#[trigger] rest[j]) by {
            assert(rest[j] == cs[j + 1]);
        }
        assert(rest[k - 1] == cs[k]);
        lemma_first_bad(rest, k - 1);
    }
}

/// Checks that a clause's operator suits its field.
pub fn validate_clause(clause: &FilterClause) -> (r: Result<(), crate::error::AppError>)
    ensures
        r is Ok <==> op_allowed(clause.field, clause.op),
        r matches Err(e) ==> e is BadRequest,
        r matches Err(crate::error::AppError::BadRequest(m)) ==> m@ == clause_error(*clause),
{
    match (clause.field, clause.op) {
        (FilterField::Collection, FilterOp::Eq) | (FilterField::Gallery, FilterOp::Eq) => Ok(()),
        (FilterField::Collection, _) => Err(
            crate::error::AppError::BadRequest(
                String::from_str("collection only supports the 'eq' operator"),
            ),
        ),
        (FilterField::Gallery, _) => Err(
            crate::error::AppError::BadRequest(
                String::from_str("gallery only supports the 'eq' operator"),
            ),
        ),
        (FilterField::Tags, FilterOp::Eq) => Err(
            crate::error::AppError::BadRequest(
                String::from_str("tags does not support the 'eq' operator"),
            ),
        ),
        (FilterField::Models, FilterOp::Eq) => Err(
            crate::error::AppError::BadRequest(
                String::from_str("models does not support the 'eq' operator"),
            ),
        ),
        _ => Ok(()),
    }
}

/// Checks a clause: its operator must suit its field, and an `eq` clause must carry
/// exactly one value.
pub fn check_clause(clause: &FilterClause) -> (r: Result<(), crate::error::AppError>)
    ensures
        r is Ok <==> clause_ok(*clause),
        r matches Err(e) ==> e is BadRequest,
        r matches Err(crate::error::AppError::BadRequest(m)) ==> m@ == clause_error(*clause),
{
    validate_clause(clause)?;
    if clause.op == FilterOp::Eq && clause.value.as_single().is_none() {
        return Err(
            crate::error::AppError::BadRequest(
                if clause.field == FilterField::Collection {
                    String::from_str("collection eq requires a single value")
                } else {
                    String::from_str("gallery eq requires a single value")
                },
            ),
        );
    }
    Ok(())
}

/// A request body that replaces the tags of one image.
pub struct UpdateTagsRequest {
    pub tag_uuids: Vec<String>,
}

/// An optional restriction of a listing to one collection.
pub struct CollectionFilter {
    pub collection: Option<String>,
}

/// The optional thumbnail width of a file request.
pub struct ImageFileParams {
    pub w: Option<u32>,
}

} // verus!

//! The two supported request shapes, validated against the catalog: a
//! single-row fetch by comma-separated primary-key values, and a multi-row
//! fetch by a JSON-object-encoded filter map with optional ordering and
//! pagination.  Each resolves schema and entity, decodes the request text,
//! and hands the parts to the query builder.

use crate::catalog::{assoc_get, assoc_has, MetaInfo, MetaInfoV};
use crate::query::{
    pair_views, spec_create_from_params, spec_create_from_pk, str_views, DynamicQuery,
    DynamicQueryV, ValidationError, ValidationErrorV,
};
use vstd::prelude::*;

verus! {

/// Why a request could not be answered.
#[derive(Debug)]
pub enum RequestError {
    /// The request names a schema the catalog does not hold.
    UnknownSchema,
    /// The request names an entity its schema does not hold.
    UnknownEntity,
    /// The filter text is not a JSON object of string values.
    MalformedFilter,
    /// The request failed validation against the entity.
    Invalid(ValidationError),
}

/// Mathematical value of a [`RequestError`].
pub enum RequestErrorV {
    UnknownSchema,
    UnknownEntity,
    MalformedFilter,
    Invalid(ValidationErrorV),
}

impl View for RequestError {
    type V = RequestErrorV;

    open spec fn view(&self) -> RequestErrorV {
        match self {
            RequestError::UnknownSchema => RequestErrorV::UnknownSchema,
            RequestError::UnknownEntity => RequestErrorV::UnknownEntity,
            RequestError::MalformedFilter => RequestErrorV::MalformedFilter,
            RequestError::Invalid(v) => RequestErrorV::Invalid(v@),
        }
    }
}

impl RequestErrorV {
    /// The text [`RequestError::message`] returns.
    pub open spec fn spec_message(self) -> Seq<char> {
        match self {
            RequestErrorV::UnknownSchema => "schema not found"@,
            RequestErrorV::UnknownEntity => "table or view not found"@,
            RequestErrorV::MalformedFilter => "Invalid query format"@,
            RequestErrorV::Invalid(v) => v.spec_message(),
        }
    }
}

impl RequestError {
    /// An explanatory message naming what was rejected.
    pub fn message(&self) -> (r: String)
        ensures
            r@ == self@.spec_message(),
    {
        match self {
            RequestError::UnknownSchema => String::from_str("schema not found"),
            RequestError::UnknownEntity => String::from_str("table or view not found"),
            RequestError::MalformedFilter => String::from_str("Invalid query format"),
            RequestError::Invalid(v) => v.message(),
        }
    }
}

/// The pieces of `s` between occurrences of `sep`, in order; a text without
/// the separator is one piece, and every separator starts a new piece, so
/// the empty text is one empty piece.
pub open spec fn spec_split(s: Seq<char>, sep: char) -> Seq<Seq<char>>
    decreases s.len(),
{
    if s.len() == 0 {
        seq![Seq::<char>::empty()]
    } else if s[0] == sep {
        seq![Seq::<char>::empty()] + spec_split(s.skip(1), sep)
    } else {
        let rest = spec_split(s.skip(1), sep);
        seq![seq![s[0]] + rest[0]] + rest.skip(1)
    }
}

/// A text without the separator splits into itself alone.
proof fn lemma_split_no_sep(s: Seq<char>, sep: char)
    requires
        forall|j: int| 0 <= j < s.len() ==> s[j] != sep,
    ensures
        spec_split(s, sep) == seq![s],
    decreases s.len(),
{
    if s.len() == 0 {
        assert(spec_split(s, sep) == seq![s]) by {
            assert(s =~= Seq::<char>::empty());
        }
    } else {
        lemma_split_no_sep(s.skip(1), sep);
        let rest = spec_split(s.skip(1), sep);
        assert(rest[0] == s.skip(1));
        assert(seq![s[0]] + rest[0] =~= s);
        assert(rest.skip(1) =~= Seq::<Seq<char>>::empty());
        assert(spec_split(s, sep) =~= seq![s]);
    }
}

/// Splitting at the first separator: the piece before it, then the split of
/// what follows it.
proof fn lemma_split_at_sep(s: Seq<char>, sep: char, i: int)
    requires
        0 <= i < s.len(),
        s[i] == sep,
        forall|j: int| 0 <= j < i ==> s[j] != sep,
    ensures
        spec_split(s, sep) == seq![s.subrange(0, i)] + spec_split(
            s.subrange(i + 1, s.len() as int),
            sep,
        ),
    decreases i,
{
    if i == 0 {
        assert(s.subrange(0, 0) =~= Seq::<char>::empty());
        assert(s.skip(1) =~= s.subrange(1, s.len() as int));
        assert(spec_split(s, sep) =~= seq![s.subrange(0, 0)] + spec_split(
            s.subrange(1, s.len() as int),
            sep,
        ));
    } else {
        let t = s.skip(1);
        assert(t[i - 1] == sep);
        lemma_split_at_sep(t, sep, i - 1);
        let rest = spec_split(t, sep);
        assert(rest == seq![t.subrange(0, i - 1)] + spec_split(t.subrange(i - 1 + 1, t.len() as int), sep));
        assert(rest[0] == t.subrange(0, i - 1));
        assert(seq![s[0]] + rest[0] =~= s.subrange(0, i));
        assert(t.subrange(i, t.len() as int) =~= s.subrange(i + 1, s.len() as int));
        assert(rest.skip(1) =~= spec_split(s.subrange(i + 1, s.len() as int), sep));
        assert(spec_split(s, sep) =~= seq![s.subrange(0, i)] + spec_split(
            s.subrange(i + 1, s.len() as int),
            sep,
        ));
    }
}

/// Split a text on commas, exactly as [`spec_split`] prescribes.
pub fn split_csv(s: &str) -> (r: Vec<String>)
    ensures
        str_views(r@) == spec_split(s@, ','),
    decreases s@.len(),
{
    let len = s.unicode_len();
    let mut i: usize = 0;
    while i < len
        invariant
            len == s@.len(),
            0 <= i <= len,
            forall|j: int| 0 <= j < i ==> s@[j] != ',',
        decreases len - i,
    {
        let c = s.get_char(i);
        if c == ',' {
            let piece = String::from_str(s.substring_char(0, i));
            let tail = s.substring_char(i + 1, len);
            let mut rest = split_csv(tail);
            rest.insert(0, piece);
            proof {
                lemma_split_at_sep(s@, ',', i as int);
                assert(str_views(rest@) =~= seq![s@.subrange(0, i as int)] + spec_split(
                    s@.subrange(i + 1, len as int),
                    ',',
                ));
            }
            return rest;
        }
        i = i + 1;
    }
    let mut out: Vec<String> = Vec::new();
    out.push(String::from_str(s));
    proof {
        lemma_split_no_sep(s@, ',');
        assert(str_views(out@) =~= seq![s@]);
    }
    out
}

/// The filter map a piece of text encodes, if it is a JSON object of string
/// values: a finite map from field name to field value.
pub uninterp spec fn json_object_of(s: Seq<char>) -> Option<Map<Seq<char>, Seq<char>>>;

/// The pairs list exactly the map's entries, each key once, in some order.
pub open spec fn pairs_match_map(
    pairs: Seq<(Seq<char>, Seq<char>)>,
    m: Map<Seq<char>, Seq<char>>,
) -> bool {
    &&& (forall|i: int, j: int| 0 <= i < j < pairs.len() ==> pairs[i].0 != pairs[j].0)
    &&& (forall|i: int| 0 <= i < pairs.len() ==> m.contains_pair(pairs[i].0, pairs[i].1))
    &&& (forall|k: Seq<char>|
        m.contains_key(k) ==> exists|i: int| 0 <= i < pairs.len() && pairs[i].0 == k)
}

/// Relies on serde_json::from_str::<HashMap<String, String>>: whether the
/// text is a JSON object of string values, and which map it encodes, depend
/// on the characters alone, so both are named by [`json_object_of`]; the
/// order in which the pairs come back out of the hash map does not, so
/// nothing is promised of it.
#[verifier::external_body]
fn parse_filter_map(s: &str) -> (r: Option<Vec<(String, String)>>)
    ensures
        match r {
            Some(v) => json_object_of(s@) matches Some(m) && pairs_match_map(pair_views(v@), m),
            None => json_object_of(s@) is None,
        },
{
    match serde_json::from_str::<std::collections::HashMap<String, String>>(s) {
        Ok(m) => Some(m.into_iter().collect()),
        Err(_) => None,
    }
}

/// Answer a single-row fetch: resolve schema and entity, split the
/// comma-separated key values, and build the by-primary-key query; the
/// catalog lookups fail before anything else is examined.
pub fn table_query_by_pk(
    mi: &MetaInfo,
    schema_name: &str,
    table_name: &str,
    pk_params: &str,
) -> (r: Result<DynamicQuery, RequestError>)
    requires
        mi@.wf(),
    ensures
        !assoc_has(mi@.schemas, schema_name@) ==> (r matches Err(e) && e@
            == RequestErrorV::UnknownSchema),
        assoc_has(mi@.schemas, schema_name@) && !assoc_has(
            assoc_get(mi@.schemas, schema_name@).entities,
            table_name@,
        ) ==> (r matches Err(e) && e@ == RequestErrorV::UnknownEntity),
        assoc_has(mi@.schemas, schema_name@) && assoc_has(
            assoc_get(mi@.schemas, schema_name@).entities,
            table_name@,
        ) ==> {
            let e = assoc_get(assoc_get(mi@.schemas, schema_name@).entities, table_name@);
            let outcome = spec_create_from_pk(
                schema_name@,
                table_name@,
                e,
                spec_split(pk_params@, ','),
            );
            match r {
                Ok(q) => outcome == Ok::<DynamicQueryV, ValidationErrorV>(q@),
                Err(err) => err@ matches RequestErrorV::Invalid(v) && outcome == Err::<
                    DynamicQueryV,
                    ValidationErrorV,
                >(v),
            }
        },
{
    let schema = match mi.find_schema(schema_name) {
        None => {
            return Err(RequestError::UnknownSchema);
        },
        Some(s) => s,
    };
    let entity = match schema.find_entity(table_name) {
        None => {
            return Err(RequestError::UnknownEntity);
        },
        Some(e) => e,
    };
    let values = split_csv(pk_params);
    match DynamicQuery::create_from_pk(schema_name, table_name, entity, values) {
        Ok(q) => Ok(q),
        Err(v) => Err(RequestError::Invalid(v)),
    }
}

/// Answer a multi-row fetch: resolve schema and entity, decode the JSON
/// filter map and the comma-separated order list, and build the by-filter
/// query.  The filter pairs reach the builder in the order the decoder
/// hands them out, which the decoder does not fix; whatever that order, the
/// result is the builder's outcome on exactly the map's entries.
pub fn table_query_by_params(
    mi: &MetaInfo,
    schema_name: &str,
    table_name: &str,
    q: &str,
    order: Option<&str>,
    limit: Option<u32>,
    offset: Option<u32>,
) -> (r: Result<DynamicQuery, RequestError>)
    requires
        mi@.wf(),
    ensures
        !assoc_has(mi@.schemas, schema_name@) ==> (r matches Err(e) && e@
            == RequestErrorV::UnknownSchema),
        assoc_has(mi@.schemas, schema_name@) && !assoc_has(
            assoc_get(mi@.schemas, schema_name@).entities,
            table_name@,
        ) ==> (r matches Err(e) && e@ == RequestErrorV::UnknownEntity),
        assoc_has(mi@.schemas, schema_name@) && assoc_has(
            assoc_get(mi@.schemas, schema_name@).entities,
            table_name@,
        ) ==> match json_object_of(q@) {
            None => r matches Err(e) && e@ == RequestErrorV::MalformedFilter,
            Some(m) => exists|pairs: Seq<(Seq<char>, Seq<char>)>|
                {
                    let e = assoc_get(assoc_get(mi@.schemas, schema_name@).entities, table_name@);
                    let order_cols = match order {
                        Some(o) => spec_split(o@, ','),
                        None => Seq::<Seq<char>>::empty(),
                    };
                    let outcome = spec_create_from_params(
                        schema_name@,
                        table_name@,
                        e,
                        pairs,
                        order_cols,
                        limit,
                        offset,
                    );
                    #[trigger] pairs_match_map(pairs, m) && match r {
                        Ok(qq) => outcome == Ok::<DynamicQueryV, ValidationErrorV>(qq@),
                        Err(err) => err@ matches RequestErrorV::Invalid(v) && outcome == Err::<
                            DynamicQueryV,
                            ValidationErrorV,
                        >(v),
                    }
                },
        },
{
    let schema = match mi.find_schema(schema_name) {
        None => {
            return Err(RequestError::UnknownSchema);
        },
        Some(s) => s,
    };
    let entity = match schema.find_entity(table_name) {
        None => {
            return Err(RequestError::UnknownEntity);
        },
        Some(e) => e,
    };
    let pairs = match parse_filter_map(q) {
        None => {
            return Err(RequestError::MalformedFilter);
        },
        Some(v) => v,
    };
    let order_cols: Vec<String> = match order {
        Some(o) => split_csv(o),
        None => Vec::new(),
    };
    proof {
        match order {
            Some(o) => {},
            None => {
                assert(str_views(order_cols@) =~= Seq::<Seq<char>>::empty());
            },
        }
    }
    let ghost pairsv = pair_views(pairs@);
    match DynamicQuery::create_from_params(
        schema_name,
        table_name,
        entity,
        pairs,
        order_cols,
        limit,
        offset,
    ) {
        Ok(q2) => {
            proof {
                assert(pairs_match_map(pairsv, json_object_of(q@)->Some_0));
            }
            Ok(q2)
        },
        Err(v) => {
            proof {
                assert(pairs_match_map(pairsv, json_object_of(q@)->Some_0));
            }
            Err(RequestError::Invalid(v))
        },
    }
}

} // verus!

//! Input schemas that clients can read: unions of types are written as `anyOf`.
use vstd::prelude::*;

use crate::json;
use crate::json::{json_of, jsons, members_of, Json};

verus! {

/// Whether a schema keyword holds a schema.
pub open spec fn holds_schema(key: Seq<char>) -> bool {
    ||| key == "not"@
    ||| key == "if"@
    ||| key == "then"@
    ||| key == "else"@
    ||| key == "contains"@
    ||| key == "additionalProperties"@
    ||| key == "propertyNames"@
    ||| key == "additionalItems"@
}

/// Whether a schema keyword holds a list of schemas.
pub open spec fn holds_schema_list(key: Seq<char>) -> bool {
    ||| key == "allOf"@
    ||| key == "anyOf"@
    ||| key == "oneOf"@
    ||| key == "prefixItems"@
}

/// Whether a schema keyword holds schemas by name.
pub open spec fn holds_schema_table(key: Seq<char>) -> bool {
    ||| key == "properties"@
    ||| key == "patternProperties"@
    ||| key == "$defs"@
    ||| key == "definitions"@
}

/// The members of a schema with a union of types made an `anyOf`: one branch for
/// each type, which has that type and otherwise all that the schema has.
pub open spec fn split_union(members: Map<Seq<char>, Json>) -> Map<Seq<char>, Json> {
    if members.contains_key("type"@) {
        match members["type"@] {
            Json::List(types) if types.len() >= 2 => members.remove("type"@).insert(
                "anyOf"@,
                Json::List(types.map_values(|t: Json| Json::Object(members.insert("type"@, t)))),
            ),
            _ => members,
        }
    } else {
        members
    }
}

/// A schema with a union of types made an `anyOf`. What is no object has none.
pub open spec fn split_node(schema: Json) -> Json {
    match schema {
        Json::Object(members) => Json::Object(split_union(members)),
        _ => schema,
    }
}

/// A schema with every union of types in it, and in its subschemas, made an
/// `anyOf`.
pub open spec fn portable(schema: Json) -> Json
    decreases schema, 1int,
{
    split_node(portable_below(schema))
}

/// A schema with its subschemas made portable.
pub open spec fn portable_below(schema: Json) -> Json
    decreases schema, 0int,
{
    match schema {
        Json::Object(members) => Json::Object(
            Map::new(
                |key: Seq<char>| members.contains_key(key),
                |key: Seq<char>|
                    if members.contains_key(key) {
                        portable_member(key, members[key])
                    } else {
                        Json::Null
                    },
            ),
        ),
        _ => schema,
    }
}

/// A member of a schema with its subschemas made portable: by its keyword it
/// holds one, or a list of them, or several by name, or none. `items` holds one
/// or a list.
pub open spec fn portable_member(key: Seq<char>, value: Json) -> Json
    decreases value, 2int,
{
    match value {
        Json::List(values) if holds_schema_list(key) || key == "items"@ => Json::List(
            Seq::new(
                values.len(),
                |i: int|
                    if 0 <= i < values.len() {
                        portable(values[i])
                    } else {
                        Json::Null
                    },
            ),
        ),
        Json::Object(values) if holds_schema_table(key) => Json::Object(
            Map::new(
                |name: Seq<char>| values.contains_key(name),
                |name: Seq<char>|
                    if values.contains_key(name) {
                        portable(values[name])
                    } else {
                        Json::Null
                    },
            ),
        ),
        _ => if holds_schema(key) || key == "items"@ {
            portable(value)
        } else {
            value
        },
    }
}

/// A schema of `schemars`.
#[verifier::external_type_specification]
#[verifier::external_body]
pub struct ExSchema(rmcp::schemars::Schema);

/// The JSON value that a schema is.
pub uninterp spec fn schema_json(schema: rmcp::schemars::Schema) -> Json;

/// `schemars::Schema::as_object_mut`: the members of a schema that is an object,
/// to be changed in place.
#[verifier::external_body]
fn object_mut(schema: &mut rmcp::schemars::Schema) -> (r: Option<
    &mut serde_json::Map<String, serde_json::Value>,
>)
    ensures
        match r {
            Some(m) => schema_json(*old(schema)) == Json::Object(members_of(*m)) && schema_json(
                *final(schema),
            ) == Json::Object(members_of(*final(m))),
            None => !(schema_json(*old(schema)) is Object) && *final(schema) == *old(schema),
        },
{
    schema.as_object_mut()
}

/// `schemars::transform::transform_subschemas` with `portable_schema`: makes
/// every direct subschema portable, where a subschema is what a schema keyword
/// holds as one, in a list or by name, and leaves everything else as it is.
#[verifier::external_body]
fn transform_subschemas(schema: &mut rmcp::schemars::Schema)
    ensures
        schema_json(*final(schema)) == portable_below(schema_json(*old(schema))),
{
    rmcp::schemars::transform::transform_subschemas(
        &mut |s: &mut rmcp::schemars::Schema| portable_schema(s),
        schema,
    )
}

/// Makes a union of types in the members of a schema an `anyOf`.
pub fn split_types(object: &mut serde_json::Map<String, serde_json::Value>)
    ensures
        members_of(*final(object)) == split_union(members_of(*old(object))),
{
    let ghost members = members_of(*object);
    let mut branches: Vec<serde_json::Value> = Vec::new();
    {
        let value = match json::get(object, "type") {
            Some(value) => value,
            None => return ,
        };
        let types = match json::as_list(value) {
            Some(types) => types,
            None => return ,
        };
        let ghost all = jsons(types@);
        if types.len() < 2 {
            return ;
        }
        let mut i: usize = 0;
        while i < types.len()
            invariant
                i <= types@.len() == all.len(),
                all == jsons(types@),
                members == members_of(*object),
                branches@.len() == i,
                jsons(branches@) =~= all.map_values(
                    |t: Json| Json::Object(members.insert("type"@, t)),
                ).take(i as int),
            decreases types@.len() - i,
        {
            let mut branch = json::copy_object(object);
            json::insert(&mut branch, "type", json::copy(&types[i]));
            assert(all[i as int] == json_of(types@[i as int]));
            let branch = json::object_value(branch);
            let ghost before = jsons(branches@);
            branches.push(branch);
            assert(jsons(branches@) =~= before.push(json_of(branch)));
            i += 1;
        }
        assert(jsons(branches@) =~= all.map_values(
            |t: Json| Json::Object(members.insert("type"@, t)),
        ));
    }
    json::remove(object, "type");
    json::insert(object, "anyOf", json::list_value(branches));
}

/// Makes every union of types in a schema, and in its subschemas, an `anyOf`.
pub fn portable_schema(schema: &mut rmcp::schemars::Schema)
    ensures
        schema_json(*final(schema)) == portable(schema_json(*old(schema))),
{
    transform_subschemas(schema);
    match object_mut(schema) {
        Some(object) => split_types(object),
        None => {},
    }
}

/// Whether a schema is a union of types.
pub open spec fn is_union(schema: Json) -> bool {
    match schema {
        Json::Object(members) => members.contains_key("type"@) && members["type"@] is List
            && members["type"@]->List_0.len() >= 2,
        _ => false,
    }
}

/// Whether no schema among `schema` and its subschemas is a union of types.
pub open spec fn has_no_union(schema: Json) -> bool
    decreases schema, 0int,
{
    match schema {
        Json::Object(members) => !is_union(schema) && forall|key: Seq<char>| #[trigger]
            members.contains_key(key) ==> member_has_no_union(key, members[key]),
        _ => true,
    }
}

/// Whether no subschema that a member holds is a union of types.
pub open spec fn member_has_no_union(key: Seq<char>, value: Json) -> bool
    decreases value, 1int,
{
    match value {
        Json::List(values) if holds_schema_list(key) || key == "items"@ => forall|i: int|
            0 <= i < values.len() ==> has_no_union(#[trigger] values[i]),
        Json::Object(values) if holds_schema_table(key) => forall|name: Seq<char>| #[trigger]
            values.contains_key(name) ==> has_no_union(values[name]),
        _ => holds_schema(key) || key == "items"@ ==> has_no_union(value),
    }
}

/// Whether, in a schema and its subschemas, a list of types lists no lists.
pub open spec fn lists_plain_types(schema: Json) -> bool
    decreases schema, 0int,
{
    match schema {
        Json::Object(members) => {
            &&& members.contains_key("type"@) && members["type"@] is List ==> forall|i: int|
                0 <= i < members["type"@]->List_0.len() ==> !(
                #[trigger] members["type"@]->List_0[i] is List)
            &&& forall|key: Seq<char>| #[trigger]
                members.contains_key(key) ==> member_lists_plain_types(key, members[key])
        },
        _ => true,
    }
}

/// Whether, in the subschemas that a member holds, a list of types lists no
/// lists.
pub open spec fn member_lists_plain_types(key: Seq<char>, value: Json) -> bool
    decreases value, 1int,
{
    match value {
        Json::List(values) if holds_schema_list(key) || key == "items"@ => forall|i: int|
            0 <= i < values.len() ==> lists_plain_types(#[trigger] values[i]),
        Json::Object(values) if holds_schema_table(key) => forall|name: Seq<char>| #[trigger]
            values.contains_key(name) ==> lists_plain_types(values[name]),
        _ => holds_schema(key) || key == "items"@ ==> lists_plain_types(value),
    }
}

/// `type` is no keyword that holds schemas, nor is it `anyOf`.
proof fn lemma_keywords()
    ensures
        !holds_schema("type"@),
        !holds_schema_list("type"@),
        !holds_schema_table("type"@),
        "type"@ != "items"@,
        "type"@ != "anyOf"@,
{
    reveal_strlit("type");
    reveal_strlit("not");
    reveal_strlit("if");
    reveal_strlit("then");
    reveal_strlit("else");
    reveal_strlit("contains");
    reveal_strlit("additionalProperties");
    reveal_strlit("propertyNames");
    reveal_strlit("additionalItems");
    reveal_strlit("allOf");
    reveal_strlit("anyOf");
    reveal_strlit("oneOf");
    reveal_strlit("prefixItems");
    reveal_strlit("properties");
    reveal_strlit("patternProperties");
    reveal_strlit("$defs");
    reveal_strlit("definitions");
    reveal_strlit("items");
    let t = "type"@;
    assert(t.len() == 4);
    assert(t[0] == 't' && t[1] == 'y');
    assert("then"@[1] == 'h');
    assert("else"@[0] == 'e');
}

/// `anyOf` holds nothing but a list of schemas.
proof fn lemma_any_of()
    ensures
        !holds_schema("anyOf"@),
        !holds_schema_table("anyOf"@),
        "anyOf"@ != "items"@,
{
    reveal_strlit("anyOf");
    reveal_strlit("not");
    reveal_strlit("if");
    reveal_strlit("then");
    reveal_strlit("else");
    reveal_strlit("contains");
    reveal_strlit("additionalProperties");
    reveal_strlit("propertyNames");
    reveal_strlit("additionalItems");
    reveal_strlit("properties");
    reveal_strlit("patternProperties");
    reveal_strlit("$defs");
    reveal_strlit("definitions");
    reveal_strlit("items");
    let t = "anyOf"@;
    assert(t.len() == 5);
    assert(t[0] == 'a');
    assert("$defs"@[0] == '$');
    assert("items"@[0] == 'i');
}

/// A schema that was made portable holds no union of types, neither itself nor in
/// its subschemas, provided that no list of types lists a list.
pub proof fn law_portable_schema_has_no_union(schema: Json)
    requires
        lists_plain_types(schema),
    ensures
        has_no_union(portable(schema)),
    decreases schema, 0int,
{
    if let Json::Object(members) = schema {
        lemma_keywords();
        let below = portable_below(schema);
        let p = below->Object_0;
        assert forall|key: Seq<char>| #[trigger] p.contains_key(key) implies member_has_no_union(
            key,
            p[key],
        ) by {
            assert(members.contains_key(key));
            assert(p[key] == portable_member(key, members[key]));
            lemma_portable_member(key, members[key]);
        }
        if is_union(below) {
            assert(members.contains_key("type"@));
            assert(p["type"@] == members["type"@]);
            let types = p["type"@]->List_0;
            let after = split_union(p);
            let branches = after["anyOf"@]->List_0;
            assert forall|i: int| 0 <= i < branches.len() implies has_no_union(
                #[trigger] branches[i],
            ) by {
                let branch = p.insert("type"@, types[i]);
                assert(branches[i] == Json::Object(branch));
                assert(!(types[i] is List));
                assert forall|key: Seq<char>| #[trigger]
                    branch.contains_key(key) implies member_has_no_union(key, branch[key]) by {
                    if key != "type"@ {
                        assert(p.contains_key(key));
                    }
                }
            }
            assert forall|key: Seq<char>| #[trigger]
                after.contains_key(key) implies member_has_no_union(key, after[key]) by {
                if key != "anyOf"@ {
                    assert(p.contains_key(key));
                }
            }
            assert(portable(schema) == Json::Object(after));
        } else {
            assert(portable(schema) == below);
        }
    }
}

/// A member that was made portable holds no union of types.
proof fn lemma_portable_member(key: Seq<char>, value: Json)
    requires
        member_lists_plain_types(key, value),
    ensures
        member_has_no_union(key, portable_member(key, value)),
    decreases value, 1int,
{
    match value {
        Json::List(values) if holds_schema_list(key) || key == "items"@ => {
            let after = portable_member(key, value)->List_0;
            assert forall|i: int| 0 <= i < after.len() implies has_no_union(#[trigger] after[i]) by {
                assert(after[i] == portable(values[i]));
                law_portable_schema_has_no_union(values[i]);
            }
        },
        Json::Object(values) if holds_schema_table(key) => {
            let after = portable_member(key, value)->Object_0;
            assert forall|name: Seq<char>| #[trigger] after.contains_key(name) implies has_no_union(
                after[name],
            ) by {
                assert(values.contains_key(name));
                law_portable_schema_has_no_union(values[name]);
            }
        },
        _ => {
            if holds_schema(key) || key == "items"@ {
                law_portable_schema_has_no_union(value);
            }
        },
    }
}

/// A schema without unions of types is left as it is.
pub proof fn law_scalar_schema_is_unchanged(schema: Json)
    requires
        has_no_union(schema),
    ensures
        portable(schema) == schema,
    decreases schema, 0int,
{
    if let Json::Object(members) = schema {
        let below = portable_below(schema);
        let p = below->Object_0;
        assert forall|key: Seq<char>| #[trigger] p.contains_key(key) implies p[key]
            == members[key] by {
            assert(members.contains_key(key));
            lemma_scalar_member(key, members[key]);
        }
        assert(p =~= members);
    }
}

/// A member without unions of types is left as it is.
proof fn lemma_scalar_member(key: Seq<char>, value: Json)
    requires
        member_has_no_union(key, value),
    ensures
        portable_member(key, value) == value,
    decreases value, 1int,
{
    match value {
        Json::List(values) if holds_schema_list(key) || key == "items"@ => {
            let after = portable_member(key, value)->List_0;
            assert forall|i: int| 0 <= i < after.len() implies #[trigger] after[i]
                == values[i] by {
                law_scalar_schema_is_unchanged(values[i]);
            }
            assert(after =~= values);
        },
        Json::Object(values) if holds_schema_table(key) => {
            let after = portable_member(key, value)->Object_0;
            assert forall|name: Seq<char>| #[trigger] after.contains_key(name) implies after[name]
                == values[name] by {
                assert(values.contains_key(name));
                law_scalar_schema_is_unchanged(values[name]);
            }
            assert(after =~= values);
        },
        _ => {
            if holds_schema(key) || key == "items"@ {
                law_scalar_schema_is_unchanged(value);
            }
        },
    }
}

/// Making a schema portable twice is making it portable once, provided that no
/// list of types lists a list.
pub proof fn law_portable_is_stable(schema: Json)
    requires
        lists_plain_types(schema),
    ensures
        portable(portable(schema)) == portable(schema),
{
    law_portable_schema_has_no_union(schema);
    law_scalar_schema_is_unchanged(portable(schema));
}

/// Whether a value has the type that a schema asks for: one of the types, where
/// it lists several.
pub open spec fn type_met(
    is_type: spec_fn(Json, Json) -> bool,
    members: Map<Seq<char>, Json>,
    value: Json,
) -> bool {
    members.contains_key("type"@) ==> match members["type"@] {
        Json::List(types) => exists|i: int|
            0 <= i < types.len() && is_type(#[trigger] types[i], value),
        one => is_type(one, value),
    }
}

/// Whether a value meets one of the schemas that a schema lists as `anyOf`.
pub open spec fn any_met(
    valid: spec_fn(Json, Json) -> bool,
    members: Map<Seq<char>, Json>,
    value: Json,
) -> bool {
    members.contains_key("anyOf"@) ==> match members["anyOf"@] {
        Json::List(branches) => exists|i: int|
            0 <= i < branches.len() && valid(#[trigger] branches[i], value),
        _ => true,
    }
}

/// The members of a schema but for `type` and `anyOf`.
pub open spec fn other_members(members: Map<Seq<char>, Json>) -> Map<Seq<char>, Json> {
    members.remove("type"@).remove("anyOf"@)
}

/// Whether `valid` judges a value as JSON Schema does: it meets a schema if it
/// has its type, meets its `anyOf`, and meets the rest of it.
pub open spec fn judges(
    valid: spec_fn(Json, Json) -> bool,
    is_type: spec_fn(Json, Json) -> bool,
    rest: spec_fn(Map<Seq<char>, Json>, Json) -> bool,
) -> bool {
    forall|members: Map<Seq<char>, Json>, value: Json| #[trigger]
        valid(Json::Object(members), value) == (type_met(is_type, members, value) && any_met(
            valid,
            members,
            value,
        ) && rest(other_members(members), value))
}

/// Whether two schemas are met by the same values.
pub open spec fn means_same(valid: spec_fn(Json, Json) -> bool, a: Json, b: Json) -> bool {
    forall|value: Json| #[trigger] valid(a, value) == valid(b, value)
}

/// Whether two members under one keyword are the same, but for subschemas that
/// are met by the same values.
pub open spec fn member_means_same(
    valid: spec_fn(Json, Json) -> bool,
    key: Seq<char>,
    a: Json,
    b: Json,
) -> bool {
    match (a, b) {
        (Json::List(x), Json::List(y)) if holds_schema_list(key) || key == "items"@ => x.len()
            == y.len() && forall|i: int|
            0 <= i < x.len() ==> means_same(valid, #[trigger] x[i], y[i]),
        (Json::Object(x), Json::Object(y)) if holds_schema_table(key) => x.dom() == y.dom()
            && forall|name: Seq<char>| #[trigger]
            x.contains_key(name) ==> means_same(valid, x[name], y[name]),
        _ => if holds_schema(key) || key == "items"@ {
            means_same(valid, a, b)
        } else {
            a == b
        },
    }
}

/// Whether the rest of a schema judges by what its subschemas are met by, and not
/// by how they are written.
pub open spec fn judges_by_meaning(
    valid: spec_fn(Json, Json) -> bool,
    rest: spec_fn(Map<Seq<char>, Json>, Json) -> bool,
) -> bool {
    forall|a: Map<Seq<char>, Json>, b: Map<Seq<char>, Json>, value: Json|
        a.dom() == b.dom() && (forall|key: Seq<char>| #[trigger]
            a.contains_key(key) ==> member_means_same(valid, key, a[key], b[key])) ==> #[trigger]
        rest(a, value) == #[trigger] rest(b, value)
}

/// A union of types and the `anyOf` that it is made are met by the same values,
/// also where the schema had an `anyOf` before, provided that the list of types
/// lists no list.
pub proof fn law_split_union_keeps_the_meaning(
    valid: spec_fn(Json, Json) -> bool,
    is_type: spec_fn(Json, Json) -> bool,
    rest: spec_fn(Map<Seq<char>, Json>, Json) -> bool,
    members: Map<Seq<char>, Json>,
    value: Json,
)
    requires
        judges(valid, is_type, rest),
        members.contains_key("type"@) && members["type"@] is List ==> forall|i: int|
            0 <= i < members["type"@]->List_0.len() ==> !(
            #[trigger] members["type"@]->List_0[i] is List),
    ensures
        valid(Json::Object(split_union(members)), value) == valid(Json::Object(members), value),
{
    if is_union(Json::Object(members)) {
        lemma_keywords();
        let types = members["type"@]->List_0;
        let after = split_union(members);
        let branches = after["anyOf"@]->List_0;
        let others = other_members(members);
        assert(other_members(after) =~= others);
        assert(valid(Json::Object(after), value) == (any_met(valid, after, value) && rest(
            others,
            value,
        )));
        assert forall|i: int| 0 <= i < types.len() implies valid(#[trigger] branches[i], value)
            == (is_type(types[i], value) && any_met(valid, members, value) && rest(
            others,
            value,
        )) by {
            let branch = members.insert("type"@, types[i]);
            assert(branches[i] == Json::Object(branch));
            assert(other_members(branch) =~= others);
            assert(!(types[i] is List));
            assert(any_met(valid, branch, value) == any_met(valid, members, value));
            assert(valid(Json::Object(branch), value) == (type_met(is_type, branch, value)
                && any_met(valid, branch, value) && rest(others, value)));
        }
        if valid(Json::Object(after), value) {
            let i = choose|i: int|
                0 <= i < branches.len() && valid(#[trigger] branches[i], value);
            assert(is_type(types[i], value));
        }
        if valid(Json::Object(members), value) {
            let i = choose|i: int| 0 <= i < types.len() && is_type(#[trigger] types[i], value);
            assert(valid(branches[i], value));
        }
    }
}

/// A schema and the portable one that it is made are met by the same values,
/// provided that no list of types lists a list, and that every schema is judged
/// by itself and by what its subschemas are met by.
pub proof fn law_portable_keeps_the_meaning(
    valid: spec_fn(Json, Json) -> bool,
    is_type: spec_fn(Json, Json) -> bool,
    rest: spec_fn(Map<Seq<char>, Json>, Json) -> bool,
    schema: Json,
)
    requires
        judges(valid, is_type, rest),
        judges_by_meaning(valid, rest),
        lists_plain_types(schema),
    ensures
        forall|value: Json| #[trigger] valid(portable(schema), value) == valid(schema, value),
    decreases schema, 0int,
{
    if let Json::Object(members) = schema {
        lemma_keywords();
        let p = portable_below(schema)->Object_0;
        let a = other_members(members);
        let b = other_members(p);
        assert forall|key: Seq<char>| #[trigger] members.contains_key(key) implies p[key]
            == portable_member(key, members[key]) && member_means_same(
            valid,
            key,
            members[key],
            p[key],
        ) by {
            lemma_portable_member_keeps_the_meaning(valid, is_type, rest, key, members[key]);
        }
        assert(a.dom() =~= b.dom());
        assert forall|key: Seq<char>| #[trigger] a.contains_key(key) implies member_means_same(
            valid,
            key,
            a[key],
            b[key],
        ) by {
            assert(members.contains_key(key));
        }
        assert(members.contains_key("type"@) ==> p["type"@] == members["type"@]);
        assert forall|value: Json| #[trigger]
            valid(portable(schema), value) == valid(schema, value) by {
            assert(rest(a, value) == rest(b, value));
            assert(type_met(is_type, p, value) == type_met(is_type, members, value));
            lemma_any_met(valid, members, p, value);
            assert(valid(Json::Object(p), value) == valid(Json::Object(members), value));
            law_split_union_keeps_the_meaning(valid, is_type, rest, p, value);
        }
    }
}

/// Lists of schemas under `anyOf` that are met by the same values are met alike.
proof fn lemma_any_met(
    valid: spec_fn(Json, Json) -> bool,
    a: Map<Seq<char>, Json>,
    b: Map<Seq<char>, Json>,
    value: Json,
)
    requires
        a.contains_key("anyOf"@) == b.contains_key("anyOf"@),
        a.contains_key("anyOf"@) ==> member_means_same(valid, "anyOf"@, a["anyOf"@], b["anyOf"@]),
    ensures
        any_met(valid, a, value) == any_met(valid, b, value),
{
    lemma_any_of();
    if a.contains_key("anyOf"@) {
        match (a["anyOf"@], b["anyOf"@]) {
            (Json::List(x), Json::List(y)) => {
                assert forall|i: int| 0 <= i < x.len() implies valid(#[trigger] x[i], value)
                    == valid(y[i], value) by {
                    assert(means_same(valid, x[i], y[i]));
                }
                if any_met(valid, a, value) {
                    let i = choose|i: int| 0 <= i < x.len() && valid(#[trigger] x[i], value);
                    assert(valid(y[i], value));
                }
                if any_met(valid, b, value) {
                    let i = choose|i: int| 0 <= i < y.len() && valid(#[trigger] y[i], value);
                    assert(valid(x[i], value));
                }
            },
            _ => {},
        }
    }
}

/// A member and the portable one that it is made are the same, but for subschemas
/// that are met by the same values.
proof fn lemma_portable_member_keeps_the_meaning(
    valid: spec_fn(Json, Json) -> bool,
    is_type: spec_fn(Json, Json) -> bool,
    rest: spec_fn(Map<Seq<char>, Json>, Json) -> bool,
    key: Seq<char>,
    value: Json,
)
    requires
        judges(valid, is_type, rest),
        judges_by_meaning(valid, rest),
        member_lists_plain_types(key, value),
    ensures
        member_means_same(valid, key, value, portable_member(key, value)),
    decreases value, 1int,
{
    match value {
        Json::List(values) if holds_schema_list(key) || key == "items"@ => {
            let after = portable_member(key, value)->List_0;
            assert forall|i: int| 0 <= i < values.len() implies means_same(
                valid,
                #[trigger] values[i],
                after[i],
            ) by {
                assert(after[i] == portable(values[i]));
                law_portable_keeps_the_meaning(valid, is_type, rest, values[i]);
            }
        },
        Json::Object(values) if holds_schema_table(key) => {
            let after = portable_member(key, value)->Object_0;
            assert(values.dom() =~= after.dom());
            assert forall|name: Seq<char>| #[trigger] values.contains_key(name) implies means_same(
                valid,
                values[name],
                after[name],
            ) by {
                assert(after[name] == portable(values[name]));
                law_portable_keeps_the_meaning(valid, is_type, rest, values[name]);
            }
        },
        _ => {
            if holds_schema(key) || key == "items"@ {
                law_portable_keeps_the_meaning(valid, is_type, rest, value);
            }
        },
    }
}

/// A union of two or more types becomes an `anyOf` with one branch for each type,
/// in order, which has that type and otherwise all members of the schema; the
/// schema itself keeps all of them but its type. A schema that is no union is left
/// as it is.
pub proof fn law_a_union_becomes_branches(
    members: Map<Seq<char>, Json>,
    types: Seq<Json>,
    i: int,
    key: Seq<char>,
)
    ensures
        members.contains_key("type"@) && members["type"@] == Json::List(types) && types.len() >= 2
            && 0 <= i < types.len() ==> {
            let after = split_union(members);
            &&& !after.contains_key("type"@)
            &&& after.contains_key("anyOf"@)
            &&& key != "type"@ && key != "anyOf"@ ==> (after.contains_key(key)
                <==> members.contains_key(key)) && (members.contains_key(key) ==> after[key]
                == members[key])
            &&& after["anyOf"@] matches Json::List(branches) && branches.len() == types.len() && (
            branches[i] matches Json::Object(branch) && branch.contains_key("type"@)
                && branch["type"@] == types[i] && (key != "type"@ ==> (branch.contains_key(key)
                <==> members.contains_key(key)) && (members.contains_key(key) ==> branch[key]
                == members[key])))
        },
        !(members.contains_key("type"@) && members["type"@] is List
            && members["type"@]->List_0.len() >= 2) ==> split_union(members) == members,
{
    lemma_keywords();
}

/// The keywords that hold one schema, those that hold a list of schemas, and those
/// that hold schemas by name.
pub proof fn law_which_keywords_hold_schemas(key: Seq<char>)
    ensures
        holds_schema(key) <==> key == "not"@ || key == "if"@ || key == "then"@ || key == "else"@
            || key == "contains"@ || key == "additionalProperties"@ || key == "propertyNames"@ || key
            == "additionalItems"@,
        holds_schema_list(key) <==> key == "allOf"@ || key == "anyOf"@ || key == "oneOf"@ || key
            == "prefixItems"@,
        holds_schema_table(key) <==> key == "properties"@ || key == "patternProperties"@ || key
            == "$defs"@ || key == "definitions"@,
{
}

/// Making a schema portable makes each schema portable that one of its members
/// holds, alone, in a list or by name, keeps every other member, and then splits
/// the schema itself.
pub proof fn law_subschemas_are_made_portable(
    members: Map<Seq<char>, Json>,
    key: Seq<char>,
    i: int,
    name: Seq<char>,
)
    requires
        members.contains_key(key),
    ensures
        portable(Json::Object(members)) == split_node(portable_below(Json::Object(members))),
        portable_below(Json::Object(members)) matches Json::Object(below) && {
            &&& below.dom() == members.dom()
            &&& match members[key] {
                Json::List(values) => {
                    &&& holds_schema_list(key) || key == "items"@ ==> (
                    below[key] matches Json::List(after) && after.len() == values.len() && (0 <= i
                        < values.len() ==> after[i] == portable(values[i])))
                    &&& !holds_schema_list(key) && key != "items"@ && !holds_schema(key)
                        ==> below[key] == members[key]
                },
                Json::Object(values) => {
                    &&& holds_schema_table(key) ==> (below[key] matches Json::Object(after)
                        && after.dom() == values.dom() && (values.contains_key(name) ==> after[name]
                        == portable(values[name])))
                    &&& !holds_schema_table(key) && (holds_schema(key) || key == "items"@)
                        ==> below[key] == portable(members[key])
                    &&& !holds_schema_table(key) && !holds_schema(key) && key != "items"@
                        ==> below[key] == members[key]
                },
                _ => below[key] == members[key],
            }
        },
{
    let below = portable_below(Json::Object(members))->Object_0;
    assert(below.dom() =~= members.dom());
    assert(below[key] == portable_member(key, members[key]));
    if let Json::Object(values) = members[key] {
        if holds_schema_table(key) {
            assert(below[key]->Object_0.dom() =~= values.dom());
        }
    }
}

}

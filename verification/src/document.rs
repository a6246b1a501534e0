//! DID documents: what an operation makes of them, and what is shown of them.

use vstd::prelude::*;
use vstd::string::*;
use crate::json;
use crate::json::{Json, JsonObject, JsonView};
use crate::models;
use crate::models::PlcOperation;
use crate::text;

verus! {

/// The members that every document has.
pub open spec fn base_members(did: Seq<char>) -> Seq<(Seq<char>, JsonView)> {
    let none = Seq::<(Seq<char>, JsonView)>::empty();
    let context = JsonView::Array(seq![JsonView::Text("https://www.w3.org/ns/did/v1"@)]);
    json::with_member(
        json::with_member(none, "@context"@, context),
        "id"@,
        JsonView::Text(did),
    )
}

/// The document of a DID of which nothing else is known.
pub open spec fn base_document(did: Seq<char>) -> JsonView {
    JsonView::Object(base_members(did))
}

/// A verification method of `did` with that key.
pub open spec fn key_method(id: Seq<char>, did: Seq<char>, key: Seq<char>) -> JsonView {
    let none = Seq::<(Seq<char>, JsonView)>::empty();
    let a = json::with_member(none, "id"@, JsonView::Text(id));
    let b = json::with_member(a, "type"@, JsonView::Text("EcdsaSecp256k1VerificationKey2019"@));
    let c = json::with_member(b, "controller"@, JsonView::Text(did));
    JsonView::Object(json::with_member(c, "publicKeyMultibase"@, JsonView::Text(key)))
}

/// A service of that type at that endpoint.
pub open spec fn service_at(id: Seq<char>, kind: JsonView, endpoint: JsonView) -> JsonView {
    let none = Seq::<(Seq<char>, JsonView)>::empty();
    let a = json::with_member(none, "id"@, JsonView::Text(id));
    let b = json::with_member(a, "type"@, kind);
    JsonView::Object(json::with_member(b, "serviceEndpoint"@, endpoint))
}

/// A verification method for each member that holds a key, in order.
pub open spec fn methods_of(did: Seq<char>, members: Seq<(Seq<char>, JsonView)>) -> Seq<JsonView>
    decreases members.len(),
{
    if members.len() == 0 {
        seq![]
    } else {
        let before = methods_of(did, members.drop_last());
        match members.last().1 {
            JsonView::Text(key) => before.push(key_method("#"@ + members.last().0, did, key)),
            _ => before,
        }
    }
}

/// What an operation says of its verification methods, as an array; an empty
/// one where it says nothing of them, or not in an object.
pub open spec fn method_array(did: Seq<char>, methods: Option<JsonView>) -> JsonView {
    match methods {
        Some(JsonView::Object(members)) => JsonView::Array(methods_of(did, members)),
        _ => JsonView::Array(seq![]),
    }
}

/// The member of that name, or `text` where there is none.
pub open spec fn member_or(
    members: Seq<(Seq<char>, JsonView)>,
    name: Seq<char>,
    text: Seq<char>,
) -> JsonView {
    match json::member(members, name) {
        Some(v) => v,
        None => JsonView::Text(text),
    }
}

/// A service for each member that is an object, in order.
pub open spec fn services_of(members: Seq<(Seq<char>, JsonView)>) -> Seq<JsonView>
    decreases members.len(),
{
    if members.len() == 0 {
        seq![]
    } else {
        let before = services_of(members.drop_last());
        match members.last().1 {
            JsonView::Object(parts) => before.push(
                service_at(
                    "#"@ + members.last().0,
                    member_or(parts, "type"@, "Unknown"@),
                    member_or(parts, "endpoint"@, ""@),
                ),
            ),
            _ => before,
        }
    }
}

/// What an operation says of its services, as an array; an empty one where it
/// says nothing of them, or not in an object.
pub open spec fn service_array(services: Option<JsonView>) -> JsonView {
    match services {
        Some(JsonView::Object(members)) => JsonView::Array(services_of(members)),
        _ => JsonView::Array(seq![]),
    }
}

/// The document that an operation gives a DID.
pub open spec fn did_document(did: Seq<char>, operation: PlcOperation) -> JsonView {
    let named = models::with_optional(
        base_members(did),
        "alsoKnownAs"@,
        models::optional_array(operation.also_known_as),
    );
    if operation.op_type@ == "create"@ {
        match (
            operation.signing_key,
            operation.recovery_key,
            operation.handle,
            operation.service,
        ) {
            (Some(signing_key), Some(_), Some(handle), Some(service)) => {
                let a = json::with_member(
                    named,
                    "alsoKnownAs"@,
                    JsonView::Array(seq![JsonView::Text(handle@)]),
                );
                let b = json::with_member(
                    a,
                    "verificationMethod"@,
                    JsonView::Array(seq![key_method("#atproto"@, did, signing_key@)]),
                );
                let at = service_at(
                    "#atproto_pds"@,
                    JsonView::Text("AtprotoPersonalDataServer"@),
                    JsonView::Text(service@),
                );
                JsonView::Object(json::with_member(b, "service"@, JsonView::Array(seq![at])))
            },
            _ => JsonView::Object(named),
        }
    } else {
        let a = json::with_member(
            named,
            "verificationMethod"@,
            method_array(did, models::optional_json(operation.verification_methods)),
        );
        JsonView::Object(
            json::with_member(
                a,
                "service"@,
                service_array(models::optional_json(operation.services)),
            ),
        )
    }
}

/// An array of one value.
fn array_of(value: Json) -> (r: Json)
    ensures
        r@ == JsonView::Array(seq![value@]),
{
    let mut items: Vec<Json> = Vec::new();
    items.push(value);
    let r = Json::Array(items);
    assert(r@->Array_0 =~= seq![value@]);
    r
}

/// What stands in an array of JSON values.
fn array_from(items: Vec<Json>) -> (r: Json)
    ensures
        r@ == JsonView::Array(json::views(items@)),
{
    let r = Json::Array(items);
    assert(r@->Array_0 =~= json::views(items@));
    r
}

/// The members that every document has.
fn base_object(did: &str) -> (r: JsonObject)
    ensures
        r@ == base_members(did@),
{
    JsonObject::new().with(
        "@context",
        array_of(Json::text("https://www.w3.org/ns/did/v1")),
    ).with("id", Json::text(did))
}

/// The document of a DID of which nothing else is known.
pub fn make_base_document(did: &str) -> (r: Json)
    ensures
        r@ == base_document(did@),
{
    Json::Object(base_object(did))
}

fn make_key_method(id: &str, did: &str, key: &str) -> (r: Json)
    ensures
        r@ == key_method(id@, did@, key@),
{
    Json::Object(
        JsonObject::new().with("id", Json::text(id)).with(
            "type",
            Json::text("EcdsaSecp256k1VerificationKey2019"),
        ).with("controller", Json::text(did)).with("publicKeyMultibase", Json::text(key)),
    )
}

fn make_service(id: &str, kind: Json, endpoint: Json) -> (r: Json)
    ensures
        r@ == service_at(id@, kind@, endpoint@),
{
    Json::Object(
        JsonObject::new().with("id", Json::text(id)).with("type", kind).with(
            "serviceEndpoint",
            endpoint,
        ),
    )
}

fn make_method_array(did: &str, methods: &Option<Json>) -> (r: Json)
    ensures
        r@ == method_array(did@, models::optional_json(*methods)),
{
    let mut out: Vec<Json> = Vec::new();
    proof {
        assert(json::views(out@) =~= seq![]);
    }
    if let Some(Json::Object(object)) = methods {
        let ghost members = object@;
        let mut i: usize = 0;
        assert(members.take(0) =~= seq![]);
        while i < object.len()
            invariant
                members == object@,
                i <= members.len(),
                json::views(out@) == methods_of(did@, members.take(i as int)),
            decreases members.len() - i,
        {
            assert(members.take(i + 1).drop_last() =~= members.take(i as int));
            assert(members.take(i + 1).last() == members[i as int]);
            if let Some(key) = object.value_at(i).as_text() {
                let id = "#".to_owned().concat(object.name_at(i).as_str());
                let method = make_key_method(id.as_str(), did, key.as_str());
                let ghost had = out@;
                out.push(method);
                assert(json::views(out@) =~= json::views(had).push(method@));
            }
            i = i + 1;
        }
        assert(members.take(members.len() as int) =~= members);
    }
    array_from(out)
}

fn make_service_array(services: &Option<Json>) -> (r: Json)
    ensures
        r@ == service_array(models::optional_json(*services)),
{
    let mut out: Vec<Json> = Vec::new();
    proof {
        assert(json::views(out@) =~= seq![]);
    }
    if let Some(Json::Object(object)) = services {
        let ghost members = object@;
        let mut i: usize = 0;
        assert(members.take(0) =~= seq![]);
        while i < object.len()
            invariant
                members == object@,
                i <= members.len(),
                json::views(out@) == services_of(members.take(i as int)),
            decreases members.len() - i,
        {
            assert(members.take(i + 1).drop_last() =~= members.take(i as int));
            assert(members.take(i + 1).last() == members[i as int]);
            if let Json::Object(parts) = object.value_at(i) {
                let kind = match parts.get("type") {
                    Some(v) => v.clone(),
                    None => Json::text("Unknown"),
                };
                let endpoint = match parts.get("endpoint") {
                    Some(v) => v.clone(),
                    None => Json::text(""),
                };
                let id = "#".to_owned().concat(object.name_at(i).as_str());
                let service = make_service(id.as_str(), kind, endpoint);
                let ghost had = out@;
                out.push(service);
                assert(json::views(out@) =~= json::views(had).push(service@));
            }
            i = i + 1;
        }
        assert(members.take(members.len() as int) =~= members);
    }
    array_from(out)
}

/// The document that an operation gives a DID.
pub fn make_document(did: &str, operation: &PlcOperation) -> (r: Json)
    ensures
        r@ == did_document(did@, *operation),
{
    let base = base_object(did);
    let named = match &operation.also_known_as {
        Some(names) => base.with("alsoKnownAs", models::array_of_texts(names)),
        None => base,
    };
    if operation.is_legacy_create() {
        match (
            &operation.signing_key,
            &operation.recovery_key,
            &operation.handle,
            &operation.service,
        ) {
            (Some(signing_key), Some(_), Some(handle), Some(service)) => {
                let at = make_service(
                    "#atproto_pds",
                    Json::text("AtprotoPersonalDataServer"),
                    Json::text(service.as_str()),
                );
                Json::Object(
                    named.with("alsoKnownAs", array_of(Json::text(handle.as_str()))).with(
                        "verificationMethod",
                        array_of(make_key_method("#atproto", did, signing_key.as_str())),
                    ).with("service", array_of(at)),
                )
            },
            _ => Json::Object(named),
        }
    } else {
        let methods = make_method_array(did, &operation.verification_methods);
        let services = make_service_array(&operation.services);
        Json::Object(named.with("verificationMethod", methods).with("service", services))
    }
}

/// The handle that a document names: its first alias, where that is a text.
pub open spec fn handle(document: JsonView) -> Option<Seq<char>> {
    match json::field(document, "alsoKnownAs"@) {
        Some(JsonView::Array(items)) => if items.len() > 0 {
            match items[0] {
                JsonView::Text(t) => Some(t),
                _ => None,
            }
        } else {
            None
        },
        _ => None,
    }
}

/// Whether a service is the personal data server.
pub open spec fn is_pds(service: JsonView) -> bool {
    json::field(service, "id"@) == Some(JsonView::Text("#bsky_pds"@))
}

/// The first personal data server among the services.
pub open spec fn first_pds(services: Seq<JsonView>) -> Option<JsonView>
    decreases services.len(),
{
    if services.len() == 0 {
        None
    } else if is_pds(services[0]) {
        Some(services[0])
    } else {
        first_pds(services.drop_first())
    }
}

/// Where a document says that its personal data server is.
pub open spec fn pds_endpoint(document: JsonView) -> Option<Seq<char>> {
    match json::field(document, "service"@) {
        Some(JsonView::Array(services)) => match first_pds(services) {
            Some(pds) => match json::field(pds, "serviceEndpoint"@) {
                Some(JsonView::Text(t)) => Some(t),
                _ => None,
            },
            None => None,
        },
        _ => None,
    }
}

/// The text, or the other where there is none.
pub open spec fn text_or(text: Option<Seq<char>>, other: Seq<char>) -> Seq<char> {
    match text {
        Some(t) => t,
        None => other,
    }
}

/// The handle that a document names, or `other`.
pub fn handle_or(document: &Json, other: &str) -> (r: String)
    ensures
        r@ == text_or(handle(document@), other@),
{
    if let Some(aliases) = document.get("alsoKnownAs") {
        if let Some(items) = aliases.as_array() {
            if items.len() > 0 {
                assert(json::views(items@)[0] == items@[0]@);
                if let Some(t) = items[0].as_text() {
                    return t.clone();
                }
            }
        }
    }
    other.to_owned()
}

/// The first personal data server among the services.
fn find_pds(services: &Vec<Json>) -> (r: Option<&Json>)
    ensures
        match first_pds(json::views(services@)) {
            Some(v) => r matches Some(j) && j@ == v,
            None => r is None,
        },
{
    let ghost all = json::views(services@);
    let mut i: usize = 0;
    assert(all.skip(0) =~= all);
    while i < services.len()
        invariant
            all == json::views(services@),
            i <= services@.len(),
            first_pds(all) == first_pds(all.skip(i as int)),
        decreases services@.len() - i,
    {
        assert(all.skip(i as int)[0] == services@[i as int]@);
        assert(all.skip(i as int).drop_first() =~= all.skip(i + 1));
        if let Some(id) = services[i].get("id") {
            if let Some(t) = id.as_text() {
                if text::str_eq(t.as_str(), "#bsky_pds") {
                    return Some(&services[i]);
                }
            }
        }
        i = i + 1;
    }
    None
}

/// Where a document says that its personal data server is, or `other`.
pub fn pds_endpoint_or(document: &Json, other: &str) -> (r: String)
    ensures
        r@ == text_or(pds_endpoint(document@), other@),
{
    if let Some(services) = document.get("service") {
        if let Some(items) = services.as_array() {
            if let Some(pds) = find_pds(items) {
                if let Some(endpoint) = pds.get("serviceEndpoint") {
                    if let Some(t) = endpoint.as_text() {
                        return t.clone();
                    }
                }
            }
        }
    }
    other.to_owned()
}

proof fn names_differ()
    ensures
        "@context"@ != "id"@,
        "@context"@ != "alsoKnownAs"@,
        "@context"@ != "verificationMethod"@,
        "@context"@ != "service"@,
        "id"@ != "alsoKnownAs"@,
        "id"@ != "verificationMethod"@,
        "id"@ != "service"@,
        "alsoKnownAs"@ != "verificationMethod"@,
        "alsoKnownAs"@ != "service"@,
        "verificationMethod"@ != "service"@,
{
    reveal_strlit("@context");
    reveal_strlit("id");
    reveal_strlit("alsoKnownAs");
    reveal_strlit("verificationMethod");
    reveal_strlit("service");
    assert("@context"@.len() == 8);
    assert("id"@.len() == 2);
    assert("alsoKnownAs"@.len() == 11);
    assert("verificationMethod"@.len() == 18);
    assert("service"@.len() == 7);
}

/// Whatever the operation, the document is that of the DID.
pub proof fn law_document_names_its_did(did: Seq<char>, operation: PlcOperation)
    ensures
        json::field(did_document(did, operation), "id"@) == Some(JsonView::Text(did)),
        json::field(did_document(did, operation), "@context"@) == Some(
            JsonView::Array(seq![JsonView::Text("https://www.w3.org/ns/did/v1"@)]),
        ),
        json::field(base_document(did), "id"@) == Some(JsonView::Text(did)),
{
    names_differ();
    let none = Seq::<(Seq<char>, JsonView)>::empty();
    let context = JsonView::Array(seq![JsonView::Text("https://www.w3.org/ns/did/v1"@)]);
    let first = json::with_member(none, "@context"@, context);
    json::law_member_reads_back(none, "@context"@, context, "id"@);
    json::law_member_reads_back(first, "id"@, JsonView::Text(did), "@context"@);
    assert forall|members: Seq<(Seq<char>, JsonView)>, name: Seq<char>, value: JsonView|
        name == "alsoKnownAs"@ || name == "verificationMethod"@ || name == "service"@ implies (
    json::member(#[trigger] json::with_member(members, name, value), "id"@) == json::member(
        members,
        "id"@,
    ) && json::member(json::with_member(members, name, value), "@context"@) == json::member(
        members,
        "@context"@,
    )) by {
        json::law_member_reads_back(members, name, value, "id"@);
        json::law_member_reads_back(members, name, value, "@context"@);
    }
}

/// An operation that is not of the old form gives a document whose
/// verification methods and services are arrays, whatever it says of them.
pub proof fn law_document_has_arrays(did: Seq<char>, operation: PlcOperation)
    requires
        operation.op_type@ != "create"@,
    ensures
        json::field(did_document(did, operation), "verificationMethod"@) == Some(
            method_array(did, models::optional_json(operation.verification_methods)),
        ),
        json::field(did_document(did, operation), "service"@) == Some(
            service_array(models::optional_json(operation.services)),
        ),
        method_array(did, models::optional_json(operation.verification_methods)) is Array,
        service_array(models::optional_json(operation.services)) is Array,
{
    names_differ();
    let named = models::with_optional(
        base_members(did),
        "alsoKnownAs"@,
        models::optional_array(operation.also_known_as),
    );
    let methods = method_array(did, models::optional_json(operation.verification_methods));
    let services = service_array(models::optional_json(operation.services));
    let a = json::with_member(named, "verificationMethod"@, methods);
    json::law_member_reads_back(named, "verificationMethod"@, methods, "service"@);
    json::law_member_reads_back(a, "service"@, services, "verificationMethod"@);
}

/// A member that was set is found again, and the others are as they were.
proof fn lemma_reads_back()
    ensures
        forall|
            members: Seq<(Seq<char>, JsonView)>,
            name: Seq<char>,
            value: JsonView,
            looked_for: Seq<char>,
        | #[trigger] json::member(json::with_member(members, name, value), looked_for)
            == if looked_for == name {
            Some(value)
        } else {
            json::member(members, looked_for)
        },
        forall|name: Seq<char>| #[trigger] json::member(
            Seq::<(Seq<char>, JsonView)>::empty(),
            name,
        ) is None,
{
    assert forall|
        members: Seq<(Seq<char>, JsonView)>,
        name: Seq<char>,
        value: JsonView,
        looked_for: Seq<char>,
    | #[trigger] json::member(json::with_member(members, name, value), looked_for) == if looked_for
        == name {
        Some(value)
    } else {
        json::member(members, looked_for)
    } by {
        json::law_member_reads_back(members, name, value, looked_for);
    }
}

proof fn part_names_differ()
    ensures
        "id"@ != "type"@,
        "id"@ != "controller"@,
        "id"@ != "publicKeyMultibase"@,
        "id"@ != "serviceEndpoint"@,
        "type"@ != "controller"@,
        "type"@ != "publicKeyMultibase"@,
        "type"@ != "serviceEndpoint"@,
        "controller"@ != "publicKeyMultibase"@,
{
    reveal_strlit("id");
    reveal_strlit("type");
    reveal_strlit("controller");
    reveal_strlit("publicKeyMultibase");
    reveal_strlit("serviceEndpoint");
    assert("id"@.len() == 2);
    assert("type"@.len() == 4);
    assert("controller"@.len() == 10);
    assert("publicKeyMultibase"@.len() == 18);
    assert("serviceEndpoint"@.len() == 15);
}

/// `service` is a service that has that identifier, type and endpoint, and
/// nothing else.
spec fn is_service(
    service: JsonView,
    id: Seq<char>,
    kind: JsonView,
    endpoint: JsonView,
) -> bool {
    &&& json::field(service, "id"@) == Some(JsonView::Text(id))
    &&& json::field(service, "type"@) == Some(kind)
    &&& json::field(service, "serviceEndpoint"@) == Some(endpoint)
    &&& forall|name: Seq<char>|
        name != "id"@ && name != "type"@ && name != "serviceEndpoint"@ ==> #[trigger] json::field(
            service,
            name,
        ) is None
}

/// `method` is a verification method of `did` that has that identifier and key,
/// and nothing else but its type.
spec fn is_method(
    method: JsonView,
    id: Seq<char>,
    did: Seq<char>,
    key: Seq<char>,
) -> bool {
    &&& json::field(method, "id"@) == Some(JsonView::Text(id))
    &&& json::field(method, "type"@) == Some(
        JsonView::Text("EcdsaSecp256k1VerificationKey2019"@),
    )
    &&& json::field(method, "controller"@) == Some(JsonView::Text(did))
    &&& json::field(method, "publicKeyMultibase"@) == Some(JsonView::Text(key))
    &&& forall|name: Seq<char>|
        name != "id"@ && name != "type"@ && name != "controller"@ && name != "publicKeyMultibase"@
            ==> #[trigger] json::field(method, name) is None
}

proof fn lemma_is_service(id: Seq<char>, kind: JsonView, endpoint: JsonView)
    ensures
        is_service(service_at(id, kind, endpoint), id, kind, endpoint),
{
    part_names_differ();
    lemma_reads_back();
}

proof fn lemma_is_method(id: Seq<char>, did: Seq<char>, key: Seq<char>)
    ensures
        is_method(key_method(id, did, key), id, did, key),
{
    part_names_differ();
    lemma_reads_back();
}

/// `item` is the service of a member of an operation's services: its identifier
/// is the member's name behind a number sign; its type and its endpoint are those
/// of the member, or `Unknown` and nothing where it has none.
spec fn serves_member(item: JsonView, member: (Seq<char>, JsonView)) -> bool {
    is_service(
        item,
        "#"@ + member.0,
        match json::field(member.1, "type"@) {
            Some(kind) => kind,
            None => JsonView::Text("Unknown"@),
        },
        match json::field(member.1, "endpoint"@) {
            Some(endpoint) => endpoint,
            None => JsonView::Text(""@),
        },
    )
}

/// `item` is the verification method of a member of an operation's methods: its
/// identifier is the member's name behind a number sign, and its key the
/// member's text.
spec fn holds_key_of_member(
    item: JsonView,
    did: Seq<char>,
    member: (Seq<char>, JsonView),
) -> bool {
    is_method(item, "#"@ + member.0, did, member.1->Text_0)
}

proof fn lemma_services_one_by_one(members: Seq<(Seq<char>, JsonView)>)
    ensures
        ({
            let objects = members.filter(|m: (Seq<char>, JsonView)| m.1 is Object);
            &&& services_of(members).len() == objects.len()
            &&& forall|i: int|
                0 <= i < objects.len() ==> serves_member(
                    #[trigger] services_of(members)[i],
                    objects[i],
                )
        }),
    decreases members.len(),
{
    reveal(Seq::filter);
    let is_object = |m: (Seq<char>, JsonView)| m.1 is Object;
    if members.len() > 0 {
        let front = members.drop_last();
        lemma_services_one_by_one(front);
        let last = members.last();
        if let JsonView::Object(parts) = last.1 {
            lemma_is_service(
                "#"@ + last.0,
                member_or(parts, "type"@, "Unknown"@),
                member_or(parts, "endpoint"@, ""@),
            );
            let before = services_of(front);
            let objects = members.filter(is_object);
            assert(objects == front.filter(is_object).push(last));
            assert forall|i: int| 0 <= i < objects.len() implies serves_member(
                #[trigger] services_of(members)[i],
                objects[i],
            ) by {
                if i < before.len() {
                    assert(services_of(members)[i] == before[i]);
                    assert(objects[i] == front.filter(is_object)[i]);
                }
            }
        }
    }
}

proof fn lemma_methods_one_by_one(did: Seq<char>, members: Seq<(Seq<char>, JsonView)>)
    ensures
        ({
            let texts = members.filter(|m: (Seq<char>, JsonView)| m.1 is Text);
            &&& methods_of(did, members).len() == texts.len()
            &&& forall|i: int|
                0 <= i < texts.len() ==> holds_key_of_member(
                    #[trigger] methods_of(did, members)[i],
                    did,
                    texts[i],
                )
        }),
    decreases members.len(),
{
    reveal(Seq::filter);
    let is_text = |m: (Seq<char>, JsonView)| m.1 is Text;
    if members.len() > 0 {
        let front = members.drop_last();
        lemma_methods_one_by_one(did, front);
        let last = members.last();
        if let JsonView::Text(key) = last.1 {
            lemma_is_method("#"@ + last.0, did, key);
            let before = methods_of(did, front);
            let texts = members.filter(is_text);
            assert(texts == front.filter(is_text).push(last));
            assert forall|i: int| 0 <= i < texts.len() implies holds_key_of_member(
                #[trigger] methods_of(did, members)[i],
                did,
                texts[i],
            ) by {
                if i < before.len() {
                    assert(methods_of(did, members)[i] == before[i]);
                    assert(texts[i] == front.filter(is_text)[i]);
                }
            }
        }
    }
}

proof fn lemma_filter_keeps_all<T>(items: Seq<T>, keep: spec_fn(T) -> bool)
    requires
        forall|i: int| 0 <= i < items.len() ==> keep(#[trigger] items[i]),
    ensures
        items.filter(keep) == items,
    decreases items.len(),
{
    reveal(Seq::filter);
    if items.len() > 0 {
        let front = items.drop_last();
        assert forall|i: int| 0 <= i < front.len() implies keep(#[trigger] front[i]) by {
            assert(front[i] == items[i]);
        }
        lemma_filter_keeps_all(front, keep);
        assert(keep(items[items.len() - 1]));
        assert(items =~= front.push(items.last()));
    }
}

/// What a document says of the services of an operation that is not of the old
/// form: each member of them that is an object is there, in the order of the
/// members, under its name, with its type and its endpoint; nothing else is. So
/// where all members are objects, there are as many services as members, be it
/// one or many.
pub proof fn law_document_lists_the_services(did: Seq<char>, operation: PlcOperation)
    requires
        operation.op_type@ != "create"@,
    ensures
        json::field(did_document(did, operation), "service"@) is Some,
        json::field(did_document(did, operation), "service"@)->0 is Array,
        ({
            let items = json::field(did_document(did, operation), "service"@)->0->Array_0;
            if operation.services is Some && operation.services->0@ is Object {
                let members = operation.services->0@->Object_0;
                let objects = members.filter(|m: (Seq<char>, JsonView)| m.1 is Object);
                &&& items.len() == objects.len()
                &&& (forall|i: int| 0 <= i < members.len() ==> (#[trigger] members[i]).1 is Object)
                    ==> objects == members
                &&& forall|i: int|
                    0 <= i < items.len() ==> {
                        let item = #[trigger] items[i];
                        &&& json::field(item, "id"@) == Some(JsonView::Text("#"@ + objects[i].0))
                        &&& json::field(item, "type"@) == match json::field(
                            objects[i].1,
                            "type"@,
                        ) {
                            Some(kind) => Some(kind),
                            None => Some(JsonView::Text("Unknown"@)),
                        }
                        &&& json::field(item, "serviceEndpoint"@) == match json::field(
                            objects[i].1,
                            "endpoint"@,
                        ) {
                            Some(endpoint) => Some(endpoint),
                            None => Some(JsonView::Text(""@)),
                        }
                        &&& forall|name: Seq<char>|
                            name != "id"@ && name != "type"@ && name != "serviceEndpoint"@
                                ==> #[trigger] json::field(item, name) is None
                    }
            } else {
                items.len() == 0
            }
        }),
{
    law_document_has_arrays(did, operation);
    if operation.services is Some && operation.services->0@ is Object {
        let members = operation.services->0@->Object_0;
        lemma_services_one_by_one(members);
        let objects = members.filter(|m: (Seq<char>, JsonView)| m.1 is Object);
        let items = services_of(members);
        assert forall|i: int| 0 <= i < items.len() implies serves_member(
            #[trigger] items[i],
            objects[i],
        ) && objects[i].1 is Object by {
            members.lemma_filter_pred(|m: (Seq<char>, JsonView)| m.1 is Object, i);
        }
        if forall|i: int| 0 <= i < members.len() ==> (#[trigger] members[i]).1 is Object {
            lemma_filter_keeps_all(members, |m: (Seq<char>, JsonView)| m.1 is Object);
        }
    }
}

/// What a document says of the verification methods of an operation that is not
/// of the old form: each member of them that is a text is there, in the order of
/// the members, under its name, with its text for a key and with the DID for who
/// controls it; nothing else is. So where all members are texts, there are as
/// many methods as members, be it one or many.
pub proof fn law_document_lists_the_methods(did: Seq<char>, operation: PlcOperation)
    requires
        operation.op_type@ != "create"@,
    ensures
        json::field(did_document(did, operation), "verificationMethod"@) is Some,
        json::field(did_document(did, operation), "verificationMethod"@)->0 is Array,
        ({
            let items = json::field(
                did_document(did, operation),
                "verificationMethod"@,
            )->0->Array_0;
            if operation.verification_methods is Some && operation.verification_methods->0@
                is Object {
                let members = operation.verification_methods->0@->Object_0;
                let texts = members.filter(|m: (Seq<char>, JsonView)| m.1 is Text);
                &&& items.len() == texts.len()
                &&& (forall|i: int| 0 <= i < members.len() ==> (#[trigger] members[i]).1 is Text)
                    ==> texts == members
                &&& forall|i: int|
                    0 <= i < items.len() ==> {
                        let item = #[trigger] items[i];
                        &&& json::field(item, "id"@) == Some(JsonView::Text("#"@ + texts[i].0))
                        &&& json::field(item, "type"@) == Some(
                            JsonView::Text("EcdsaSecp256k1VerificationKey2019"@),
                        )
                        &&& json::field(item, "controller"@) == Some(JsonView::Text(did))
                        &&& json::field(item, "publicKeyMultibase"@) == Some(texts[i].1)
                        &&& forall|name: Seq<char>|
                            name != "id"@ && name != "type"@ && name != "controller"@ && name
                                != "publicKeyMultibase"@ ==> #[trigger] json::field(item, name)
                                is None
                    }
            } else {
                items.len() == 0
            }
        }),
{
    law_document_has_arrays(did, operation);
    if operation.verification_methods is Some && operation.verification_methods->0@ is Object {
        let members = operation.verification_methods->0@->Object_0;
        lemma_methods_one_by_one(did, members);
        let texts = members.filter(|m: (Seq<char>, JsonView)| m.1 is Text);
        let items = methods_of(did, members);
        assert forall|i: int| 0 <= i < items.len() implies holds_key_of_member(
            #[trigger] items[i],
            did,
            texts[i],
        ) && texts[i].1 is Text by {
            members.lemma_filter_pred(|m: (Seq<char>, JsonView)| m.1 is Text, i);
        }
        if forall|i: int| 0 <= i < members.len() ==> (#[trigger] members[i]).1 is Text {
            lemma_filter_keeps_all(members, |m: (Seq<char>, JsonView)| m.1 is Text);
        }
    }
}

/// An operation of the old form that has its two keys, its handle and its service
/// gives a document with that one alias, one verification method with the signing
/// key, and one service at that endpoint. Without one of these it gives neither
/// methods nor services.
pub proof fn law_document_of_the_old_form(did: Seq<char>, operation: PlcOperation)
    requires
        operation.op_type@ == "create"@,
    ensures
        ({
            let document = did_document(did, operation);
            let complete = operation.signing_key is Some && operation.recovery_key is Some
                && operation.handle is Some && operation.service is Some;
            if complete {
                &&& json::field(document, "alsoKnownAs"@) == Some(
                    JsonView::Array(seq![JsonView::Text(operation.handle->0@)]),
                )
                &&& json::field(document, "verificationMethod"@) matches Some(JsonView::Array(items))
                &&& items.len() == 1
                &&& json::field(items[0], "id"@) == Some(JsonView::Text("#atproto"@))
                &&& json::field(items[0], "type"@) == Some(
                    JsonView::Text("EcdsaSecp256k1VerificationKey2019"@),
                )
                &&& json::field(items[0], "controller"@) == Some(JsonView::Text(did))
                &&& json::field(items[0], "publicKeyMultibase"@) == Some(
                    JsonView::Text(operation.signing_key->0@),
                )
                &&& json::field(document, "service"@) matches Some(JsonView::Array(services))
                &&& services.len() == 1
                &&& json::field(services[0], "id"@) == Some(JsonView::Text("#atproto_pds"@))
                &&& json::field(services[0], "type"@) == Some(
                    JsonView::Text("AtprotoPersonalDataServer"@),
                )
                &&& json::field(services[0], "serviceEndpoint"@) == Some(
                    JsonView::Text(operation.service->0@),
                )
            } else {
                &&& json::field(document, "verificationMethod"@) is None
                &&& json::field(document, "service"@) is None
            }
        }),
{
    names_differ();
    lemma_reads_back();
    if operation.signing_key is Some && operation.service is Some {
        lemma_is_method("#atproto"@, did, operation.signing_key->0@);
        lemma_is_service(
            "#atproto_pds"@,
            JsonView::Text("AtprotoPersonalDataServer"@),
            JsonView::Text(operation.service->0@),
        );
    }
}

/// The aliases of the document are those of the operation, all of them in their
/// order, and none where it says nothing of them; but for an operation of the old
/// form that is complete. A document has no members but those that are known.
pub proof fn law_document_has_the_aliases(
    did: Seq<char>,
    operation: PlcOperation,
    other: Seq<char>,
)
    ensures
        ({
            let document = did_document(did, operation);
            let complete = operation.op_type@ == "create"@ && operation.signing_key is Some
                && operation.recovery_key is Some && operation.handle is Some
                && operation.service is Some;
            &&& !complete ==> match operation.also_known_as {
                Some(names) => {
                    &&& json::field(document, "alsoKnownAs"@) matches Some(JsonView::Array(items))
                    &&& items.len() == names@.len()
                    &&& forall|i: int|
                        0 <= i < items.len() ==> (#[trigger] items[i]) == JsonView::Text(names@[i]@)
                },
                None => json::field(document, "alsoKnownAs"@) is None,
            }
            &&& other != "@context"@ && other != "id"@ && other != "alsoKnownAs"@ && other
                != "verificationMethod"@ && other != "service"@ ==> json::field(document, other)
                is None
            &&& other != "@context"@ && other != "id"@ ==> json::field(base_document(did), other)
                is None
            &&& json::field(base_document(did), "@context"@) == Some(
                JsonView::Array(seq![JsonView::Text("https://www.w3.org/ns/did/v1"@)]),
            )
        }),
{
    names_differ();
    lemma_reads_back();
}

/// The handle of a document is its first alias, if and only if that is a text.
pub proof fn law_handle_is_the_first_alias(document: JsonView, name: Seq<char>)
    ensures
        handle(document) == Some(name) <==> (json::field(document, "alsoKnownAs"@) matches Some(
            JsonView::Array(items),
        ) && items.len() > 0 && items[0] == JsonView::Text(name)),
{
}

/// Where a document says that its personal data server is: at the endpoint of the
/// first of its services with the identifier `#bsky_pds`, where that is a text.
/// Without such a service, and without services, it does not say so.
pub proof fn law_pds_is_the_first_of_its_name(
    document: JsonView,
    services: Seq<JsonView>,
    at: int,
)
    ensures
        json::field(document, "service"@) == Some(JsonView::Array(services)) && 0 <= at
            < services.len() && json::field(services[at], "id"@) == Some(
            JsonView::Text("#bsky_pds"@),
        ) && (forall|i: int|
            0 <= i < at ==> json::field(#[trigger] services[i], "id"@) != Some(
                JsonView::Text("#bsky_pds"@),
            )) ==> pds_endpoint(document) == match json::field(
            services[at],
            "serviceEndpoint"@,
        ) {
            Some(JsonView::Text(endpoint)) => Some(endpoint),
            _ => None,
        },
        json::field(document, "service"@) == Some(JsonView::Array(services)) && (forall|i: int|
            0 <= i < services.len() ==> json::field(#[trigger] services[i], "id"@) != Some(
                JsonView::Text("#bsky_pds"@),
            )) ==> pds_endpoint(document) is None,
        !(json::field(document, "service"@) matches Some(JsonView::Array(_))) ==> pds_endpoint(
            document,
        ) is None,
{
    lemma_first_pds(services);
    if let Some(pds) = first_pds(services) {
        let k = choose|k: int|
            0 <= k < services.len() && services[k] == pds && is_pds(services[k]) && (forall|i: int|
                0 <= i < k ==> !is_pds(#[trigger] services[i]));
        assert(is_pds(services[k]));
        if 0 <= at < k {
            assert(!is_pds(services[at]));
        }
    }
}

proof fn lemma_first_pds(services: Seq<JsonView>)
    ensures
        match first_pds(services) {
            Some(pds) => exists|at: int|
                0 <= at < services.len() && services[at] == pds && is_pds(services[at]) && (forall|
                    i: int,
                | 0 <= i < at ==> !is_pds(#[trigger] services[i])),
            None => forall|i: int| 0 <= i < services.len() ==> !is_pds(#[trigger] services[i]),
        },
    decreases services.len(),
{
    if services.len() > 0 {
        if is_pds(services[0]) {
            assert(services[0] == services[0] && is_pds(services[0]));
        } else {
            let rest = services.drop_first();
            lemma_first_pds(rest);
            if let Some(pds) = first_pds(rest) {
                let at = choose|at: int|
                    0 <= at < rest.len() && rest[at] == pds && is_pds(rest[at]) && (forall|i: int|
                        0 <= i < at ==> !is_pds(#[trigger] rest[i]));
                assert(services[at + 1] == pds && is_pds(services[at + 1]));
                assert forall|i: int| 0 <= i < at + 1 implies !is_pds(#[trigger] services[i]) by {
                    if i > 0 {
                        assert(services[i] == rest[i - 1]);
                    }
                }
            } else {
                assert forall|i: int| 0 <= i < services.len() implies !is_pds(
                    #[trigger] services[i],
                ) by {
                    if i > 0 {
                        assert(services[i] == rest[i - 1]);
                    }
                }
            }
        }
    }
}

/// The handle of the document is the first alias of the operation; in a
/// complete operation of the old form it is the handle that it gives.
pub proof fn law_document_handle(did: Seq<char>, operation: PlcOperation)
    ensures
        ({
            let complete = operation.op_type@ == "create"@ && operation.signing_key is Some
                && operation.recovery_key is Some && operation.handle is Some
                && operation.service is Some;
            handle(did_document(did, operation)) == if complete {
                Some(operation.handle->0@)
            } else {
                match operation.also_known_as {
                    Some(names) => if names@.len() > 0 {
                        Some(names@[0]@)
                    } else {
                        None
                    },
                    None => None,
                }
            }
        }),
{
    names_differ();
    let base = base_members(did);
    let none = Seq::<(Seq<char>, JsonView)>::empty();
    let context = JsonView::Array(seq![JsonView::Text("https://www.w3.org/ns/did/v1"@)]);
    let first = json::with_member(none, "@context"@, context);
    json::law_member_reads_back(none, "@context"@, context, "alsoKnownAs"@);
    json::law_member_reads_back(first, "id"@, JsonView::Text(did), "alsoKnownAs"@);
    assert(json::member(base, "alsoKnownAs"@) is None);
    let listed = models::optional_array(operation.also_known_as);
    let named = models::with_optional(base, "alsoKnownAs"@, listed);
    if let Some(value) = listed {
        json::law_member_reads_back(base, "alsoKnownAs"@, value, "id"@);
        let names = operation.also_known_as->0@;
        if names.len() > 0 {
            assert(value->Array_0[0] == JsonView::Text(names[0]@));
        }
    }
    assert forall|members: Seq<(Seq<char>, JsonView)>, name: Seq<char>, value: JsonView|
        name == "verificationMethod"@ || name == "service"@ implies json::member(
        #[trigger] json::with_member(members, name, value),
        "alsoKnownAs"@,
    ) == json::member(members, "alsoKnownAs"@) by {
        json::law_member_reads_back(members, name, value, "alsoKnownAs"@);
    }
    if operation.handle is Some {
        json::law_member_reads_back(
            named,
            "alsoKnownAs"@,
            JsonView::Array(seq![JsonView::Text(operation.handle->0@)]),
            "id"@,
        );
    }
}

/// The members can stand in an object that is read back at that depth.
spec fn members_survive(members: Seq<(Seq<char>, JsonView)>, depth: nat) -> bool {
    &&& json::in_order(members)
    &&& forall|i: int|
        0 <= i < members.len() ==> (#[trigger] members[i]).0 != "$serde_json::private::RawValue"@
            && json::survives(members[i].1, depth)
}

proof fn lemma_with_member_survives(
    members: Seq<(Seq<char>, JsonView)>,
    name: Seq<char>,
    value: JsonView,
    depth: nat,
)
    requires
        members_survive(members, depth),
        name != "$serde_json::private::RawValue"@,
        json::survives(value, depth),
    ensures
        members_survive(json::with_member(members, name, value), depth),
    decreases members.len(),
{
    json::lemma_with_member_in_order(members, name, value);
    let after = json::with_member(members, name, value);
    if members.len() > 0 && members[0].0 != name && !text::text_lt(name, members[0].0) {
        let rest = members.drop_first();
        assert forall|i: int, j: int| 0 <= i < j < rest.len() implies text::text_lt(
            (#[trigger] rest[i]).0,
            (#[trigger] rest[j]).0,
        ) by {
            assert(rest[i] == members[i + 1] && rest[j] == members[j + 1]);
        }
        assert forall|i: int| 0 <= i < rest.len() implies (#[trigger] rest[i]).0
            != "$serde_json::private::RawValue"@ && json::survives(rest[i].1, depth) by {
            assert(rest[i] == members[i + 1]);
        }
        lemma_with_member_survives(rest, name, value, depth);
        let tail = json::with_member(rest, name, value);
        assert forall|i: int| 0 <= i < after.len() implies (#[trigger] after[i]).0
            != "$serde_json::private::RawValue"@ && json::survives(after[i].1, depth) by {
            if i > 0 {
                assert(after[i] == tail[i - 1]);
            } else {
                assert(after[0] == members[0]);
            }
        }
    } else {
        assert forall|i: int| 0 <= i < after.len() implies (#[trigger] after[i]).0
            != "$serde_json::private::RawValue"@ && json::survives(after[i].1, depth) by {
            if members.len() > 0 && members[0].0 == name {
                if i > 0 {
                    assert(after[i] == members[i]);
                }
            } else if i > 0 {
                assert(after[i] == members[i - 1]);
            }
        }
    }
}

proof fn names_are_plain()
    ensures
        "@context"@ != "$serde_json::private::RawValue"@,
        "id"@ != "$serde_json::private::RawValue"@,
        "alsoKnownAs"@ != "$serde_json::private::RawValue"@,
        "verificationMethod"@ != "$serde_json::private::RawValue"@,
        "service"@ != "$serde_json::private::RawValue"@,
        "type"@ != "$serde_json::private::RawValue"@,
        "controller"@ != "$serde_json::private::RawValue"@,
        "publicKeyMultibase"@ != "$serde_json::private::RawValue"@,
        "serviceEndpoint"@ != "$serde_json::private::RawValue"@,
{
    reveal_strlit("@context");
    reveal_strlit("id");
    reveal_strlit("alsoKnownAs");
    reveal_strlit("verificationMethod");
    reveal_strlit("service");
    reveal_strlit("type");
    reveal_strlit("controller");
    reveal_strlit("publicKeyMultibase");
    reveal_strlit("serviceEndpoint");
    reveal_strlit("$serde_json::private::RawValue");
    assert("$serde_json::private::RawValue"@.len() == 30);
    assert("@context"@.len() == 8);
    assert("id"@.len() == 2);
    assert("alsoKnownAs"@.len() == 11);
    assert("verificationMethod"@.len() == 18);
    assert("service"@.len() == 7);
    assert("type"@.len() == 4);
    assert("controller"@.len() == 10);
    assert("publicKeyMultibase"@.len() == 18);
    assert("serviceEndpoint"@.len() == 15);
}

proof fn lemma_key_method_survives(id: Seq<char>, did: Seq<char>, key: Seq<char>)
    ensures
        json::survives(key_method(id, did, key), 125),
{
    names_are_plain();
    let none = Seq::<(Seq<char>, JsonView)>::empty();
    let kind = JsonView::Text("EcdsaSecp256k1VerificationKey2019"@);
    let a = json::with_member(none, "id"@, JsonView::Text(id));
    let b = json::with_member(a, "type"@, kind);
    let c = json::with_member(b, "controller"@, JsonView::Text(did));
    lemma_with_member_survives(none, "id"@, JsonView::Text(id), 124);
    lemma_with_member_survives(a, "type"@, kind, 124);
    lemma_with_member_survives(b, "controller"@, JsonView::Text(did), 124);
    lemma_with_member_survives(c, "publicKeyMultibase"@, JsonView::Text(key), 124);
}

proof fn lemma_service_survives(id: Seq<char>, kind: JsonView, endpoint: JsonView)
    requires
        json::survives(kind, 124),
        json::survives(endpoint, 124),
    ensures
        json::survives(service_at(id, kind, endpoint), 125),
{
    names_are_plain();
    let none = Seq::<(Seq<char>, JsonView)>::empty();
    let a = json::with_member(none, "id"@, JsonView::Text(id));
    let b = json::with_member(a, "type"@, kind);
    lemma_with_member_survives(none, "id"@, JsonView::Text(id), 124);
    lemma_with_member_survives(a, "type"@, kind, 124);
    lemma_with_member_survives(b, "serviceEndpoint"@, endpoint, 124);
}

proof fn lemma_methods_survive(did: Seq<char>, members: Seq<(Seq<char>, JsonView)>)
    ensures
        forall|i: int|
            0 <= i < methods_of(did, members).len() ==> json::survives(
                #[trigger] methods_of(did, members)[i],
                125,
            ),
    decreases members.len(),
{
    if members.len() > 0 {
        let before = methods_of(did, members.drop_last());
        let after = methods_of(did, members);
        lemma_methods_survive(did, members.drop_last());
        if let JsonView::Text(key) = members.last().1 {
            lemma_key_method_survives("#"@ + members.last().0, did, key);
        }
        assert forall|i: int| 0 <= i < after.len() implies json::survives(
            #[trigger] after[i],
            125,
        ) by {
            if i < before.len() {
                assert(after[i] == before[i]);
            }
        }
    }
}

proof fn lemma_member_survives(
    members: Seq<(Seq<char>, JsonView)>,
    name: Seq<char>,
    other: Seq<char>,
    depth: nat,
)
    requires
        forall|i: int|
            0 <= i < members.len() ==> json::survives((#[trigger] members[i]).1, depth),
    ensures
        json::survives(member_or(members, name, other), depth),
    decreases members.len(),
{
    if members.len() > 0 && members[0].0 != name {
        let rest = members.drop_first();
        assert forall|i: int| 0 <= i < rest.len() implies json::survives(
            (#[trigger] rest[i]).1,
            depth,
        ) by {
            assert(rest[i] == members[i + 1]);
        }
        lemma_member_survives(rest, name, other, depth);
    }
}

proof fn lemma_services_survive(members: Seq<(Seq<char>, JsonView)>)
    requires
        forall|i: int| 0 <= i < members.len() ==> json::survives((#[trigger] members[i]).1, 125),
    ensures
        forall|i: int|
            0 <= i < services_of(members).len() ==> json::survives(
                #[trigger] services_of(members)[i],
                125,
            ),
    decreases members.len(),
{
    if members.len() > 0 {
        let front = members.drop_last();
        assert forall|i: int| 0 <= i < front.len() implies json::survives(
            (#[trigger] front[i]).1,
            125,
        ) by {
            assert(front[i] == members[i]);
        }
        lemma_services_survive(front);
        if let JsonView::Object(parts) = members.last().1 {
            assert(json::survives(members[members.len() - 1].1, 125));
            lemma_member_survives(parts, "type"@, "Unknown"@, 124);
            lemma_member_survives(parts, "endpoint"@, ""@, 124);
            lemma_service_survives(
                "#"@ + members.last().0,
                member_or(parts, "type"@, "Unknown"@),
                member_or(parts, "endpoint"@, ""@),
            );
        }
        let before = services_of(front);
        let after = services_of(members);
        assert forall|i: int| 0 <= i < after.len() implies json::survives(
            #[trigger] after[i],
            125,
        ) by {
            if i < before.len() {
                assert(after[i] == before[i]);
            }
        }
    }
}

proof fn lemma_one_text_survives(text: Seq<char>)
    ensures
        json::survives(JsonView::Array(seq![JsonView::Text(text)]), 126),
{
    assert(json::survives(JsonView::Text(text), 125));
}

proof fn lemma_base_survives(did: Seq<char>)
    ensures
        members_survive(base_members(did), 126),
        json::reads_back(base_document(did)),
{
    names_are_plain();
    let none = Seq::<(Seq<char>, JsonView)>::empty();
    let context = JsonView::Array(seq![JsonView::Text("https://www.w3.org/ns/did/v1"@)]);
    let first = json::with_member(none, "@context"@, context);
    lemma_one_text_survives("https://www.w3.org/ns/did/v1"@);
    lemma_with_member_survives(none, "@context"@, context, 126);
    lemma_with_member_survives(first, "id"@, JsonView::Text(did), 126);
}

/// The document of a DID of which nothing else is known is read back unchanged
/// from its own text.
pub proof fn law_base_document_reads_back(did: Seq<char>)
    ensures
        json::reads_back(base_document(did)),
{
    lemma_base_survives(did);
}

/// The document that an operation gives a DID is read back unchanged from its
/// own text, where the services of the operation are: they are nested no
/// deeper than 126 levels and have no numbers but integers.
pub proof fn law_document_reads_back(did: Seq<char>, operation: PlcOperation)
    requires
        operation.services matches Some(services) ==> json::survives(services@, 126),
    ensures
        json::reads_back(did_document(did, operation)),
{
    names_are_plain();
    lemma_base_survives(did);
    let base = base_members(did);
    let listed = models::optional_array(operation.also_known_as);
    let named = models::with_optional(base, "alsoKnownAs"@, listed);
    if let Some(value) = listed {
        assert(json::survives(value, 126)) by {
            let items = value->Array_0;
            assert forall|i: int| 0 <= i < items.len() implies json::survives(
                #[trigger] items[i],
                125,
            ) by {
                assert(items[i] is Text);
            }
        }
        lemma_with_member_survives(base, "alsoKnownAs"@, value, 126);
    }
    assert(members_survive(named, 126));
    if operation.op_type@ == "create"@ {
        match (
            operation.signing_key,
            operation.recovery_key,
            operation.handle,
            operation.service,
        ) {
            (Some(signing_key), Some(_), Some(handle), Some(service)) => {
                let alias = JsonView::Array(seq![JsonView::Text(handle@)]);
                let method = key_method("#atproto"@, did, signing_key@);
                let methods = JsonView::Array(seq![method]);
                let at = service_at(
                    "#atproto_pds"@,
                    JsonView::Text("AtprotoPersonalDataServer"@),
                    JsonView::Text(service@),
                );
                let a = json::with_member(named, "alsoKnownAs"@, alias);
                let b = json::with_member(a, "verificationMethod"@, methods);
                lemma_key_method_survives("#atproto"@, did, signing_key@);
                lemma_service_survives(
                    "#atproto_pds"@,
                    JsonView::Text("AtprotoPersonalDataServer"@),
                    JsonView::Text(service@),
                );
                lemma_one_text_survives(handle@);
                lemma_with_member_survives(named, "alsoKnownAs"@, alias, 126);
                lemma_with_member_survives(a, "verificationMethod"@, methods, 126);
                lemma_with_member_survives(b, "service"@, JsonView::Array(seq![at]), 126);
            },
            _ => {},
        }
    } else {
        let given = models::optional_json(operation.verification_methods);
        let methods = method_array(did, given);
        if let Some(JsonView::Object(members)) = given {
            lemma_methods_survive(did, members);
        }
        let offered = models::optional_json(operation.services);
        let services = service_array(offered);
        if let Some(JsonView::Object(members)) = offered {
            assert(json::survives(offered->0, 126));
            lemma_services_survive(members);
        }
        let a = json::with_member(named, "verificationMethod"@, methods);
        lemma_with_member_survives(named, "verificationMethod"@, methods, 126);
        lemma_with_member_survives(a, "service"@, services, 126);
    }
}

} // verus!

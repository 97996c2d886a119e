//! The equivalent-domains settings resource.
//!
//! Clients treat the domains of one group as the same site when they match
//! saved logins to a page. Each user may define groups and opt out of the
//! predefined ("global") ones. Nothing is stored yet: reading yields the
//! empty settings, and writing accepts a well-formed payload and keeps none of it.
use vstd::prelude::*;
use crate::auth::Claims;
use crate::error::AppError;
use crate::json::{JsonModel, JsonValue, empty_array_model, empty_object_model};

verus! {

/// The wire name of the opted-out global groups.
pub open spec fn excluded_key() -> Seq<char> {
    "excludedGlobalEquivalentDomains"@
}

/// The wire name of the user's own groups.
pub open spec fn equivalent_key() -> Seq<char> {
    "equivalentDomains"@
}

/// Member `i` of `members` exists and is named `key`.
pub open spec fn has_key(members: Seq<(Seq<char>, JsonModel)>, key: Seq<char>, i: int) -> bool {
    0 <= i < members.len() && members[i].0 == key
}

/// At most one member is named `key`.
pub open spec fn key_unique(members: Seq<(Seq<char>, JsonModel)>, key: Seq<char>) -> bool {
    forall|i: int, j: int| has_key(members, key, i) && has_key(members, key, j) ==> i == j
}

/// The value of the member named `key`, if there is one.
pub open spec fn member(members: Seq<(Seq<char>, JsonModel)>, key: Seq<char>) -> Option<JsonModel> {
    if exists|i: int| has_key(members, key, i) {
        Some(members[choose|i: int| has_key(members, key, i)].1)
    } else {
        None
    }
}

/// An integer that fits in an `i32`.
pub open spec fn is_id(m: JsonModel) -> bool {
    m matches JsonModel::Int(n) && i32::MIN <= n <= i32::MAX
}

/// An array of integers that fit in an `i32`.
pub open spec fn is_id_list(m: JsonModel) -> bool {
    m matches JsonModel::Array(items) && forall|i: int| 0 <= i < items.len() ==> is_id(#[trigger] items[i])
}

/// The integers of an id list.
pub open spec fn id_list_of(m: JsonModel) -> Seq<i32> {
    Seq::new(m->Array_0.len(), |i: int| m->Array_0[i]->Int_0 as i32)
}

/// An array of strings.
pub open spec fn is_group(m: JsonModel) -> bool {
    m matches JsonModel::Array(items) && forall|i: int| 0 <= i < items.len() ==> #[trigger] items[i] is Str
}

/// The strings of a group.
pub open spec fn group_of(m: JsonModel) -> Seq<Seq<char>> {
    Seq::new(m->Array_0.len(), |i: int| m->Array_0[i]->Str_0)
}

/// An array of groups.
pub open spec fn is_group_list(m: JsonModel) -> bool {
    m matches JsonModel::Array(items) && forall|i: int| 0 <= i < items.len() ==> is_group(#[trigger] items[i])
}

/// The groups of a group list.
pub open spec fn group_list_of(m: JsonModel) -> Seq<Seq<Seq<char>>> {
    Seq::new(m->Array_0.len(), |i: int| group_of(m->Array_0[i]))
}

/// A value that the opted-out field accepts: `null` or an id list.
pub open spec fn is_excluded_field(m: JsonModel) -> bool {
    m is Null || is_id_list(m)
}

/// A value that the own-groups field accepts: `null` or a group list.
pub open spec fn is_equivalent_field(m: JsonModel) -> bool {
    m is Null || is_group_list(m)
}

/// What an optional field holds: nothing where it is absent or `null`.
pub open spec fn excluded_of(m: Option<JsonModel>) -> Option<Seq<i32>> {
    match m {
        Some(v) => if v is Null { None } else { Some(id_list_of(v)) },
        None => None,
    }
}

/// What an optional field holds: nothing where it is absent or `null`.
pub open spec fn equivalent_of(m: Option<JsonModel>) -> Option<Seq<Seq<Seq<char>>>> {
    match m {
        Some(v) => if v is Null { None } else { Some(group_list_of(v)) },
        None => None,
    }
}

/// A body that the write operations take: an object in which each of the two
/// known fields occurs at most once and, where it occurs, is `null` or of its
/// type. Other members are ignored.
pub open spec fn is_valid_payload(m: JsonModel) -> bool {
    &&& m is Object
    &&& key_unique(m->Object_0, excluded_key())
    &&& key_unique(m->Object_0, equivalent_key())
    &&& forall|i: int| has_key(m->Object_0, excluded_key(), i) ==> is_excluded_field(#[trigger] m->Object_0[i].1)
    &&& forall|i: int| has_key(m->Object_0, equivalent_key(), i) ==> is_equivalent_field(#[trigger] m->Object_0[i].1)
}

/// The settings that a valid body carries.
pub open spec fn payload_of(m: JsonModel) -> EquivDomainModel {
    EquivDomainModel {
        excluded_global_equivalent_domains: excluded_of(member(m->Object_0, excluded_key())),
        equivalent_domains: equivalent_of(member(m->Object_0, equivalent_key())),
    }
}

/// The meaning of [`EquivDomainData`].
pub struct EquivDomainModel {
    pub excluded_global_equivalent_domains: Option<Seq<i32>>,
    pub equivalent_domains: Option<Seq<Seq<Seq<char>>>>,
}

/// A user's equivalent-domain settings as the write operations receive them.
/// Either field may be absent.
#[derive(Debug, Clone, PartialEq, Eq)]
pub struct EquivDomainData {
    /// Ids of the predefined groups that the user opted out of.
    pub excluded_global_equivalent_domains: Option<Vec<i32>>,
    /// The user's own groups, each a list of domains.
    pub equivalent_domains: Option<Vec<Vec<String>>>,
}

/// The texts of a list of strings.
pub open spec fn strings_view(v: Seq<String>) -> Seq<Seq<char>> {
    v.map_values(|s: String| s@)
}

/// The texts of a list of groups.
pub open spec fn groups_view(v: Seq<Vec<String>>) -> Seq<Seq<Seq<char>>> {
    v.map_values(|g: Vec<String>| strings_view(g@))
}

impl View for EquivDomainData {
    type V = EquivDomainModel;

    open spec fn view(&self) -> EquivDomainModel {
        EquivDomainModel {
            excluded_global_equivalent_domains: match self.excluded_global_equivalent_domains {
                Some(v) => Some(v@),
                None => None,
            },
            equivalent_domains: match self.equivalent_domains {
                Some(groups) => Some(groups_view(groups@)),
                None => None,
            },
        }
    }
}

fn bad_request(text: &str) -> (r: AppError)
    ensures
        r is BadRequest,
{
    AppError::BadRequest(text.to_owned())
}

fn decode_ids(v: &JsonValue) -> (r: Result<Option<Vec<i32>>, AppError>)
    ensures
        r is Ok <==> is_excluded_field(v@),
        r matches Ok(ids) ==> (match ids {
            Some(ids) => v@ is Array && ids@ == id_list_of(v@),
            None => v@ is Null,
        }),
        r matches Err(e) ==> e is BadRequest,
{
    match v {
        JsonValue::Null => Ok(None),
        JsonValue::Array(items) => {
            assert(forall|k: int| 0 <= k < items.len() ==> v@->Array_0[k] == #[trigger] items@[k]@);
            let mut ids: Vec<i32> = Vec::new();
            let mut i: usize = 0;
            while i < items.len()
                invariant
                    v@ is Array,
                    v@->Array_0.len() == items.len(),
                    forall|k: int| 0 <= k < items.len() ==> v@->Array_0[k] == #[trigger] items@[k]@,
                    i <= items.len(),
                    ids@.len() == i,
                    forall|k: int| 0 <= k < i ==> is_id(#[trigger] items@[k]@),
                    forall|k: int| 0 <= k < i ==> ids@[k] == #[trigger] items@[k]@->Int_0 as i32,
                decreases items.len() - i,
            {
                match &items[i] {
                    JsonValue::Int(n) => {
                        if *n < -2147483648i128 || *n > 2147483647i128 {
                            assert(items@[i as int]@ == JsonModel::Int(*n as int));
                            assert(!is_id(v@->Array_0[i as int]));
                            return Err(bad_request("excludedGlobalEquivalentDomains: id out of range"));
                        }
                        ids.push(*n as i32);
                    },
                    _ => {
                        assert(!(items@[i as int]@ is Int));
                        assert(!is_id(v@->Array_0[i as int]));
                        return Err(bad_request("excludedGlobalEquivalentDomains: expected an integer"));
                    },
                }
                i = i + 1;
            }
            assert forall|k: int| 0 <= k < v@->Array_0.len() implies is_id(#[trigger] v@->Array_0[k]) by {
                assert(v@->Array_0[k] == items@[k]@);
            }
            assert(ids@ =~= id_list_of(v@));
            Ok(Some(ids))
        },
        _ => {
            assert(!(v@ is Null) && !(v@ is Array));
            Err(bad_request("excludedGlobalEquivalentDomains: expected a list of integers"))
        },
    }
}

fn decode_group(v: &JsonValue) -> (r: Option<Vec<String>>)
    ensures
        r is Some <==> is_group(v@),
        r matches Some(g) ==> strings_view(g@) == group_of(v@),
{
    match v {
        JsonValue::Array(items) => {
            assert(forall|k: int| 0 <= k < items.len() ==> v@->Array_0[k] == #[trigger] items@[k]@);
            let mut group: Vec<String> = Vec::new();
            let mut i: usize = 0;
            while i < items.len()
                invariant
                    v@ is Array,
                    v@->Array_0.len() == items.len(),
                    forall|k: int| 0 <= k < items.len() ==> v@->Array_0[k] == #[trigger] items@[k]@,
                    i <= items.len(),
                    group@.len() == i,
                    forall|k: int| 0 <= k < i ==> #[trigger] items@[k]@ is Str,
                    forall|k: int| 0 <= k < i ==> #[trigger] group@[k]@ == items@[k]@->Str_0,
                decreases items.len() - i,
            {
                match &items[i] {
                    JsonValue::Str(domain) => {
                        assert(items@[i as int]@ == JsonModel::Str(domain@));
                        group.push(domain.clone());
                    },
                    _ => {
                        assert(!(items@[i as int]@ is Str));
                        assert(!(v@->Array_0[i as int] is Str));
                        return None;
                    },
                }
                i = i + 1;
            }
            assert forall|k: int| 0 <= k < v@->Array_0.len() implies #[trigger] v@->Array_0[k] is Str by {
                assert(v@->Array_0[k] == items@[k]@);
            }
            assert(strings_view(group@) =~= group_of(v@));
            Some(group)
        },
        _ => None,
    }
}

fn decode_groups(v: &JsonValue) -> (r: Result<Option<Vec<Vec<String>>>, AppError>)
    ensures
        r is Ok <==> is_equivalent_field(v@),
        r matches Ok(groups) ==> (match groups {
            Some(groups) => v@ is Array && groups_view(groups@) == group_list_of(v@),
            None => v@ is Null,
        }),
        r matches Err(e) ==> e is BadRequest,
{
    match v {
        JsonValue::Null => Ok(None),
        JsonValue::Array(items) => {
            assert(forall|k: int| 0 <= k < items.len() ==> v@->Array_0[k] == #[trigger] items@[k]@);
            let mut groups: Vec<Vec<String>> = Vec::new();
            let mut i: usize = 0;
            while i < items.len()
                invariant
                    v@ is Array,
                    v@->Array_0.len() == items.len(),
                    forall|k: int| 0 <= k < items.len() ==> v@->Array_0[k] == #[trigger] items@[k]@,
                    i <= items.len(),
                    groups@.len() == i,
                    forall|k: int| 0 <= k < i ==> is_group(#[trigger] items@[k]@),
                    forall|k: int| 0 <= k < i ==> strings_view(#[trigger] groups@[k]@) == group_of(items@[k]@),
                decreases items.len() - i,
            {
                match decode_group(&items[i]) {
                    Some(group) => groups.push(group),
                    None => {
                        assert(!is_group(v@->Array_0[i as int]));
                        return Err(bad_request("equivalentDomains: expected a list of lists of strings"));
                    },
                }
                i = i + 1;
            }
            assert forall|k: int| 0 <= k < v@->Array_0.len() implies is_group(#[trigger] v@->Array_0[k]) by {
                assert(v@->Array_0[k] == items@[k]@);
            }
            assert(groups_view(groups@) =~= group_list_of(v@));
            Ok(Some(groups))
        },
        _ => {
            assert(!(v@ is Null) && !(v@ is Array));
            Err(bad_request("equivalentDomains: expected a list of lists of strings"))
        },
    }
}

impl EquivDomainData {
    /// Reads the settings out of a request body. A body that is not an
    /// object, that names a known field twice, or that gives a known field a
    /// value of another type is refused; unknown members are ignored.
    pub fn from_json(body: &JsonValue) -> (r: Result<EquivDomainData, AppError>)
        ensures
            r is Ok <==> is_valid_payload(body@),
            r matches Ok(d) ==> d@ == payload_of(body@),
            r matches Err(e) ==> e is BadRequest,
    {
        match body {
            JsonValue::Object(members) => {
                let ghost m = body@->Object_0;
                assert(m.len() == members.len());
                assert(forall|k: int| 0 <= k < members.len() ==> m[k] == (#[trigger] members@[k].0@, members@[k].1@));
                let excluded_name = "excludedGlobalEquivalentDomains".to_owned();
                let equivalent_name = "equivalentDomains".to_owned();
                let mut excluded: Option<Vec<i32>> = None;
                let mut equivalent: Option<Vec<Vec<String>>> = None;
                let mut seen_excluded = false;
                let mut seen_equivalent = false;
                let ghost mut excluded_at: int = 0;
                let ghost mut equivalent_at: int = 0;
                let mut i: usize = 0;
                while i < members.len()
                    invariant
                        m == body@->Object_0,
                        m.len() == members.len(),
                        forall|k: int| 0 <= k < members.len() ==> m[k] == (#[trigger] members@[k].0@, members@[k].1@),
                        excluded_name@ == excluded_key(),
                        equivalent_name@ == equivalent_key(),
                        i <= members.len(),
                        forall|j: int| 0 <= j < i && has_key(m, excluded_key(), j) ==> is_excluded_field(#[trigger] m[j].1),
                        forall|j: int| 0 <= j < i && has_key(m, equivalent_key(), j) ==> is_equivalent_field(#[trigger] m[j].1),
                        seen_excluded ==> 0 <= excluded_at < i && has_key(m, excluded_key(), excluded_at),
                        seen_excluded ==> forall|j: int| 0 <= j < i && #[trigger] has_key(m, excluded_key(), j) ==> j == excluded_at,
                        !seen_excluded ==> forall|j: int| 0 <= j < i ==> !#[trigger] has_key(m, excluded_key(), j),
                        seen_excluded ==> match excluded {
                            Some(ids) => Some(ids@),
                            None => None,
                        } == excluded_of(Some(m[excluded_at].1)),
                        !seen_excluded ==> excluded is None,
                        seen_equivalent ==> 0 <= equivalent_at < i && has_key(m, equivalent_key(), equivalent_at),
                        seen_equivalent ==> forall|j: int| 0 <= j < i && #[trigger] has_key(m, equivalent_key(), j) ==> j == equivalent_at,
                        !seen_equivalent ==> forall|j: int| 0 <= j < i ==> !#[trigger] has_key(m, equivalent_key(), j),
                        seen_equivalent ==> match equivalent {
                            Some(groups) => Some(groups_view(groups@)),
                            None => None,
                        } == equivalent_of(Some(m[equivalent_at].1)),
                        !seen_equivalent ==> equivalent is None,
                    decreases members.len() - i,
                {
                    let name = &members[i].0;
                    let value = &members[i].1;
                    assert(m[i as int] == (name@, value@));
                    if *name == excluded_name {
                        if seen_excluded {
                            assert(has_key(m, excluded_key(), excluded_at) && has_key(m, excluded_key(), i as int));
                            return Err(bad_request("duplicate field `excludedGlobalEquivalentDomains`"));
                        }
                        match decode_ids(value) {
                            Ok(ids) => excluded = ids,
                            Err(e) => {
                                assert(has_key(m, excluded_key(), i as int));
                                return Err(e);
                            },
                        }
                        seen_excluded = true;
                        proof {
                            excluded_at = i as int;
                        }
                    }
                    if *name == equivalent_name {
                        if seen_equivalent {
                            assert(has_key(m, equivalent_key(), equivalent_at) && has_key(m, equivalent_key(), i as int));
                            return Err(bad_request("duplicate field `equivalentDomains`"));
                        }
                        match decode_groups(value) {
                            Ok(groups) => equivalent = groups,
                            Err(e) => {
                                assert(has_key(m, equivalent_key(), i as int));
                                return Err(e);
                            },
                        }
                        seen_equivalent = true;
                        proof {
                            equivalent_at = i as int;
                        }
                    }
                    i = i + 1;
                }
                let r = EquivDomainData { excluded_global_equivalent_domains: excluded, equivalent_domains: equivalent };
                if seen_excluded {
                    assert(has_key(m, excluded_key(), excluded_at));
                }
                if seen_equivalent {
                    assert(has_key(m, equivalent_key(), equivalent_at));
                }
                Ok(r)
            },
            _ => {
                assert(!(body@ is Object));
                Err(bad_request("expected an object"))
            },
        }
    }
}

/// The body of a read: no groups of the user's, no global groups, and the
/// discriminator `"domains"`.
pub open spec fn domains_envelope() -> JsonModel {
    JsonModel::Object(
        seq![
            ("equivalentDomains"@, empty_array_model()),
            ("globalEquivalentDomains"@, empty_array_model()),
            ("object"@, JsonModel::Str("domains"@)),
        ],
    )
}

/// The meaning of an operation's result.
pub open spec fn result_view(r: Result<JsonValue, AppError>) -> Result<JsonModel, AppError> {
    match r {
        Ok(v) => Ok(v@),
        Err(e) => Err(e),
    }
}

/// What a read returns to a caller: the empty settings, whoever asks.
pub open spec fn domains_result(claims: Claims) -> Result<JsonModel, AppError> {
    Ok(domains_envelope())
}

/// What a create-or-replace returns: `{}`, for every payload.
pub open spec fn create_or_replace_result(claims: Claims, payload: EquivDomainModel) -> Result<JsonModel, AppError> {
    Ok(empty_object_model())
}

/// Reads the caller's equivalent-domain settings. Nothing is stored, so
/// every caller gets the empty settings; this never fails.
pub fn get_domains(claims: Claims) -> (r: Result<JsonValue, AppError>)
    ensures
        result_view(r) == domains_result(claims),
{
    let kind = JsonValue::Str("domains".to_owned());
    assert(kind@ == JsonModel::Str("domains"@));
    let members: Vec<(String, JsonValue)> = vec![
        ("equivalentDomains".to_owned(), JsonValue::empty_array()),
        ("globalEquivalentDomains".to_owned(), JsonValue::empty_array()),
        ("object".to_owned(), kind),
    ];
    let body = JsonValue::Object(members);
    assert(body@->Object_0 =~= domains_envelope()->Object_0);
    Ok(body)
}

/// Creates or replaces the caller's settings with `payload`. The payload is
/// accepted and not kept; the answer is `{}`.
pub fn post_domains(claims: Claims, payload: EquivDomainData) -> (r: Result<JsonValue, AppError>)
    ensures
        result_view(r) == create_or_replace_result(claims, payload@),
{
    Ok(JsonValue::empty_object())
}

/// Updates the caller's settings with `payload`: the same operation as
/// [`post_domains`], kept apart so that the two may differ later.
pub fn put_domains(claims: Claims, payload: EquivDomainData) -> (r: Result<JsonValue, AppError>)
    ensures
        result_view(r) == create_or_replace_result(claims, payload@),
{
    post_domains(claims, payload)
}

/// Posting the same settings twice gives the same answer both times: the
/// answer is a function of the caller and the payload alone, and no call
/// leaves anything behind that a later one would see.
pub proof fn lemma_create_or_replace_idempotent(claims: Claims, first: EquivDomainData, second: EquivDomainData)
    requires
        first@ == second@,
    ensures
        create_or_replace_result(claims, first@) == create_or_replace_result(claims, second@),
        create_or_replace_result(claims, first@) is Ok,
{
}

/// A body in which a known field holds something other than `null` or a list
/// (a plain string, say) is refused, so no operation receives it.
pub proof fn lemma_mistyped_field_refused(body: JsonModel, key: Seq<char>, i: int)
    requires
        body is Object,
        key == excluded_key() || key == equivalent_key(),
        has_key(body->Object_0, key, i),
        !(body->Object_0[i].1 is Null),
        !(body->Object_0[i].1 is Array),
    ensures
        !is_valid_payload(body),
{
}

} // verus!

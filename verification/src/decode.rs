//! The two typed decoders: a search payload of page records, and an ads
//! payload of groups of opaque records, flattened group by group.

use vstd::prelude::*;

use crate::error::TotemError;
use crate::json::obj_lookup;
use crate::json::view_fields;
use crate::json::view_items;
use crate::json::JVal;
use crate::json::JsonValue;
use crate::json::lemma_view_fields_index;
use crate::json::lemma_view_items_index;
use crate::json::obj_get;

verus! {

/// One decoded page entry. Every field is optional: the upstream service may
/// omit any of them, and absence is not an error.
#[derive(Debug, Clone, PartialEq)]
pub struct FacebookPage {
    pub page_id: Option<String>,
    pub page_name: Option<String>,
    pub page_profile_picture_uri: Option<String>,
    pub page_uri: Option<String>,
}

/// Mathematical model of a page entry.
pub struct PageV {
    pub page_id: Option<Seq<char>>,
    pub page_name: Option<Seq<char>>,
    pub page_profile_picture_uri: Option<Seq<char>>,
    pub page_uri: Option<Seq<char>>,
}

/// The model of an optional string.
pub open spec fn view_opt_string(o: Option<String>) -> Option<Seq<char>> {
    match o {
        Option::None => Option::None,
        Option::Some(s) => Option::Some(s@),
    }
}

impl View for FacebookPage {
    type V = PageV;

    open spec fn view(&self) -> PageV {
        PageV {
            page_id: view_opt_string(self.page_id),
            page_name: view_opt_string(self.page_name),
            page_profile_picture_uri: view_opt_string(self.page_profile_picture_uri),
            page_uri: view_opt_string(self.page_uri),
        }
    }
}

/// The models of a sequence of page entries, element by element.
pub open spec fn view_pages(pages: Seq<FacebookPage>) -> Seq<PageV>
    decreases pages,
{
    if pages.len() == 0 {
        Seq::empty()
    } else {
        seq![pages[0]@] + view_pages(pages.drop_first())
    }
}

pub broadcast proof fn lemma_view_pages_index(pages: Seq<FacebookPage>)
    ensures
        (#[trigger] view_pages(pages)).len() == pages.len(),
        forall|i: int| 0 <= i < pages.len() ==> view_pages(pages)[i] == pages[i]@,
    decreases pages,
{
    if pages.len() > 0 {
        lemma_view_pages_index(pages.drop_first());
        assert forall|i: int| 0 <= i < pages.len() implies view_pages(pages)[i] == pages[i]@ by {
            if i > 0 {
                assert(view_pages(pages)[i] == view_pages(pages.drop_first())[i - 1]);
                assert(pages.drop_first()[i - 1] == pages[i]);
            }
        }
    }
}

/// The search payload: the ordered page entries under `pageResults`.
#[derive(Debug, PartialEq)]
pub struct FacebookPageSearchPayload {
    pub page_results: Vec<FacebookPage>,
}

/// A decoded search response.
#[derive(Debug, PartialEq)]
pub struct FacebookPageSearchResponse {
    pub payload: FacebookPageSearchPayload,
}

/// The ads payload: the ordered groups of opaque records under `results`.
#[derive(Debug, PartialEq)]
pub struct FacebookAdsPayload {
    pub results: Vec<Vec<JsonValue>>,
}

/// A decoded ads response.
#[derive(Debug, PartialEq)]
pub struct FacebookAdsResponse {
    pub payload: FacebookAdsPayload,
}

/// The models of a sequence of record groups, group by group.
pub open spec fn view_groups(groups: Seq<Vec<JsonValue>>) -> Seq<Seq<JVal>>
    decreases groups,
{
    if groups.len() == 0 {
        Seq::empty()
    } else {
        seq![view_items(groups[0]@)] + view_groups(groups.drop_first())
    }
}

pub broadcast proof fn lemma_view_groups_index(groups: Seq<Vec<JsonValue>>)
    ensures
        (#[trigger] view_groups(groups)).len() == groups.len(),
        forall|i: int| 0 <= i < groups.len() ==> view_groups(groups)[i] == view_items(groups[i]@),
    decreases groups,
{
    if groups.len() > 0 {
        lemma_view_groups_index(groups.drop_first());
        assert forall|i: int|
            0 <= i < groups.len() implies view_groups(groups)[i] == view_items(groups[i]@) by {
            if i > 0 {
                assert(view_groups(groups)[i] == view_groups(groups.drop_first())[i - 1]);
                assert(groups.drop_first()[i - 1] == groups[i]);
            }
        }
    }
}

/// How one optional page field decodes: absent or null become absent, a
/// string becomes present, and anything else is an error (the outer `None`).
pub open spec fn page_field_of(fields: Seq<(Seq<char>, JVal)>, key: Seq<char>) -> Option<
    Option<Seq<char>>,
> {
    match obj_lookup(fields, key) {
        Option::None => Option::Some(Option::None),
        Option::Some(JVal::Null) => Option::Some(Option::None),
        Option::Some(JVal::Str(s)) => Option::Some(Option::Some(s)),
        Option::Some(_) => Option::None,
    }
}

/// How a page entry decodes from a JSON value: the value must be an object,
/// and each of the four known fields must be absent, null or a string.
pub open spec fn page_of_json(v: JVal) -> Option<PageV> {
    match v {
        JVal::Obj(fields) => {
            match (
                page_field_of(fields, "pageID"@),
                page_field_of(fields, "pageName"@),
                page_field_of(fields, "pageProfilePictureURI"@),
                page_field_of(fields, "pageURI"@),
            ) {
                (
                    Option::Some(id),
                    Option::Some(name),
                    Option::Some(picture),
                    Option::Some(uri),
                ) => Option::Some(
                    PageV {
                        page_id: id,
                        page_name: name,
                        page_profile_picture_uri: picture,
                        page_uri: uri,
                    },
                ),
                _ => Option::None,
            }
        },
        _ => Option::None,
    }
}

/// How a list of page entries decodes: every entry must decode.
pub open spec fn pages_of_items(items: Seq<JVal>) -> Option<Seq<PageV>>
    decreases items,
{
    if items.len() == 0 {
        Option::Some(Seq::empty())
    } else {
        match (pages_of_items(items.drop_last()), page_of_json(items.last())) {
            (Option::Some(rest), Option::Some(p)) => Option::Some(rest.push(p)),
            _ => Option::None,
        }
    }
}

/// How a search response decodes: an object with an object `payload` holding
/// an array `pageResults` whose entries all decode as pages. A present but
/// empty array decodes to the empty sequence; only absence or a wrong shape
/// is an error.
pub open spec fn search_pages_of(v: JVal) -> Option<Seq<PageV>> {
    match v {
        JVal::Obj(top) => match obj_lookup(top, "payload"@) {
            Option::Some(JVal::Obj(pl)) => match obj_lookup(pl, "pageResults"@) {
                Option::Some(JVal::Arr(items)) => pages_of_items(items),
                _ => Option::None,
            },
            _ => Option::None,
        },
        _ => Option::None,
    }
}

/// How a list of record groups decodes: every entry must itself be an array;
/// its elements stay opaque.
pub open spec fn groups_of_items(items: Seq<JVal>) -> Option<Seq<Seq<JVal>>>
    decreases items,
{
    if items.len() == 0 {
        Option::Some(Seq::empty())
    } else {
        match (groups_of_items(items.drop_last()), items.last()) {
            (Option::Some(rest), JVal::Arr(g)) => Option::Some(rest.push(g)),
            _ => Option::None,
        }
    }
}

/// How an ads response decodes: an object with an object `payload` holding an
/// array `results` whose entries are all arrays of opaque records.
pub open spec fn ads_groups_of(v: JVal) -> Option<Seq<Seq<JVal>>> {
    match v {
        JVal::Obj(top) => match obj_lookup(top, "payload"@) {
            Option::Some(JVal::Obj(pl)) => match obj_lookup(pl, "results"@) {
                Option::Some(JVal::Arr(items)) => groups_of_items(items),
                _ => Option::None,
            },
            _ => Option::None,
        },
        _ => Option::None,
    }
}

/// Decodes one optional page field out of an object's field list.
fn page_field(fields: &Vec<(String, JsonValue)>, key: &str) -> (r: Result<
    Option<String>,
    TotemError,
>)
    ensures
        match r {
            Ok(o) => page_field_of(view_fields(fields@), key@) == Option::Some(view_opt_string(o)),
            Err(e) => page_field_of(view_fields(fields@), key@) is None && e
                == TotemError::DecodeError,
        },
{
    match obj_get(fields, key) {
        Option::None => Ok(Option::None),
        Option::Some(JsonValue::Null) => Ok(Option::None),
        Option::Some(JsonValue::Str(s)) => Ok(Option::Some(s.clone())),
        Option::Some(_) => Err(TotemError::DecodeError),
    }
}

/// Decodes one page entry from a JSON value.
pub fn page_from_json(v: &JsonValue) -> (r: Result<FacebookPage, TotemError>)
    ensures
        match r {
            Ok(p) => page_of_json(v@) == Option::Some(p@),
            Err(e) => page_of_json(v@) is None && e == TotemError::DecodeError,
        },
{
    match v {
        JsonValue::Obj(fields) => {
            let page_id = match page_field(fields, "pageID") {
                Ok(o) => o,
                Err(e) => {
                    return Err(e);
                },
            };
            let page_name = match page_field(fields, "pageName") {
                Ok(o) => o,
                Err(e) => {
                    return Err(e);
                },
            };
            let page_profile_picture_uri = match page_field(fields, "pageProfilePictureURI") {
                Ok(o) => o,
                Err(e) => {
                    return Err(e);
                },
            };
            let page_uri = match page_field(fields, "pageURI") {
                Ok(o) => o,
                Err(e) => {
                    return Err(e);
                },
            };
            Ok(FacebookPage { page_id, page_name, page_profile_picture_uri, page_uri })
        },
        _ => Err(TotemError::DecodeError),
    }
}

proof fn lemma_pages_of_push(items: Seq<JVal>, x: JVal, ps: Seq<PageV>, p: PageV)
    requires
        pages_of_items(items) == Option::Some(ps),
        page_of_json(x) == Option::Some(p),
    ensures
        pages_of_items(items.push(x)) == Option::Some(ps.push(p)),
{
    assert(items.push(x).drop_last() =~= items);
    assert(items.push(x).last() == x);
}

proof fn lemma_pages_of_err(items: Seq<JVal>, i: int)
    requires
        0 <= i < items.len(),
        page_of_json(items[i]) is None,
    ensures
        pages_of_items(items) is None,
    decreases items.len(),
{
    if i < items.len() - 1 {
        assert(items.drop_last()[i] == items[i]);
        lemma_pages_of_err(items.drop_last(), i);
    }
}

proof fn lemma_groups_of_push(items: Seq<JVal>, g: Seq<JVal>, gs: Seq<Seq<JVal>>)
    requires
        groups_of_items(items) == Option::Some(gs),
    ensures
        groups_of_items(items.push(JVal::Arr(g))) == Option::Some(gs.push(g)),
{
    assert(items.push(JVal::Arr(g)).drop_last() =~= items);
    assert(items.push(JVal::Arr(g)).last() == JVal::Arr(g));
}

proof fn lemma_groups_of_err(items: Seq<JVal>, i: int)
    requires
        0 <= i < items.len(),
        !(items[i] is Arr),
    ensures
        groups_of_items(items) is None,
    decreases items.len(),
{
    if i < items.len() - 1 {
        assert(items.drop_last()[i] == items[i]);
        lemma_groups_of_err(items.drop_last(), i);
    }
}

/// Decodes a search response from a parsed JSON value.
#[verifier::loop_isolation(false)]
pub fn decode_search(v: &JsonValue) -> (r: Result<FacebookPageSearchResponse, TotemError>)
    ensures
        match r {
            Ok(resp) => search_pages_of(v@) == Option::Some(
                view_pages(resp.payload.page_results@),
            ),
            Err(e) => search_pages_of(v@) is None && e == TotemError::DecodeError,
        },
{
    let top = match v {
        JsonValue::Obj(fields) => fields,
        _ => {
            return Err(TotemError::DecodeError);
        },
    };
    let payload = match obj_get(top, "payload") {
        Option::Some(p) => p,
        Option::None => {
            return Err(TotemError::DecodeError);
        },
    };
    let pl = match payload {
        JsonValue::Obj(pf) => pf,
        _ => {
            return Err(TotemError::DecodeError);
        },
    };
    let results = match obj_get(pl, "pageResults") {
        Option::Some(r) => r,
        Option::None => {
            return Err(TotemError::DecodeError);
        },
    };
    let items = match results {
        JsonValue::Arr(items) => items,
        _ => {
            return Err(TotemError::DecodeError);
        },
    };
    proof {
        lemma_view_items_index(items@);
    }
    let n = items.len();
    let mut pages: Vec<FacebookPage> = Vec::new();
    let mut i: usize = 0;
    proof {
        assert(view_items(items@).take(0) =~= Seq::<JVal>::empty());
    }
    while i < n
        invariant
            n == items@.len(),
            i <= n,
            view_items(items@).len() == n,
            forall|j: int| 0 <= j < n ==> view_items(items@)[j] == items@[j]@,
            pages_of_items(view_items(items@).take(i as int)) == Option::Some(
                view_pages(pages@),
            ),
        decreases n - i,
    {
        let page = match page_from_json(&items[i]) {
            Ok(p) => p,
            Err(_) => {
                proof {
                    lemma_pages_of_err(view_items(items@), i as int);
                }
                return Err(TotemError::DecodeError);
            },
        };
        let ghost prev = pages@;
        proof {
            lemma_view_pages_index(prev);
            lemma_pages_of_push(
                view_items(items@).take(i as int),
                view_items(items@)[i as int],
                view_pages(prev),
                page@,
            );
            assert(view_items(items@).take(i + 1) =~= view_items(items@).take(i as int).push(
                view_items(items@)[i as int],
            ));
        }
        pages.push(page);
        proof {
            lemma_view_pages_index(pages@);
            assert(view_pages(pages@) =~= view_pages(prev).push(page@));
        }
        i = i + 1;
    }
    proof {
        assert(view_items(items@).take(n as int) =~= view_items(items@));
    }
    Ok(FacebookPageSearchResponse { payload: FacebookPageSearchPayload { page_results: pages } })
}

/// Decodes an ads response from a parsed JSON value, keeping the groups.
#[verifier::loop_isolation(false)]
pub fn decode_ads(v: &JsonValue) -> (r: Result<FacebookAdsResponse, TotemError>)
    ensures
        match r {
            Ok(resp) => ads_groups_of(v@) == Option::Some(view_groups(resp.payload.results@)),
            Err(e) => ads_groups_of(v@) is None && e == TotemError::DecodeError,
        },
{
    let top = match v {
        JsonValue::Obj(fields) => fields,
        _ => {
            return Err(TotemError::DecodeError);
        },
    };
    let payload = match obj_get(top, "payload") {
        Option::Some(p) => p,
        Option::None => {
            return Err(TotemError::DecodeError);
        },
    };
    let pl = match payload {
        JsonValue::Obj(pf) => pf,
        _ => {
            return Err(TotemError::DecodeError);
        },
    };
    let results = match obj_get(pl, "results") {
        Option::Some(r) => r,
        Option::None => {
            return Err(TotemError::DecodeError);
        },
    };
    let items = match results {
        JsonValue::Arr(items) => items,
        _ => {
            return Err(TotemError::DecodeError);
        },
    };
    proof {
        lemma_view_items_index(items@);
    }
    let n = items.len();
    let mut groups: Vec<Vec<JsonValue>> = Vec::new();
    let mut i: usize = 0;
    proof {
        assert(view_items(items@).take(0) =~= Seq::<JVal>::empty());
    }
    while i < n
        invariant
            i <= n,
            groups_of_items(view_items(items@).take(i as int)) == Option::Some(
                view_groups(groups@),
            ),
        decreases n - i,
    {
        let group = match &items[i] {
            JsonValue::Arr(g) => g,
            _ => {
                proof {
                    lemma_groups_of_err(view_items(items@), i as int);
                }
                return Err(TotemError::DecodeError);
            },
        };
        let m = group.len();
        let mut copied: Vec<JsonValue> = Vec::new();
        let mut j: usize = 0;
        while j < m
            invariant
                j <= m,
                m == group@.len(),
                copied@.len() == j,
                forall|k: int| 0 <= k < j ==> copied@[k]@ == group@[k]@,
            decreases m - j,
        {
            let item = group[j].duplicate();
            copied.push(item);
            j = j + 1;
        }
        proof {
            lemma_view_items_index(copied@);
            lemma_view_items_index(group@);
            assert(view_items(copied@) =~= view_items(group@));
        }
        let ghost prev = groups@;
        proof {
            lemma_view_groups_index(prev);
            lemma_groups_of_push(
                view_items(items@).take(i as int),
                view_items(group@),
                view_groups(prev),
            );
            assert(view_items(items@)[i as int] == JVal::Arr(view_items(group@)));
            assert(view_items(items@).take(i + 1) =~= view_items(items@).take(i as int).push(
                view_items(items@)[i as int],
            ));
        }
        groups.push(copied);
        proof {
            lemma_view_groups_index(groups@);
            assert(view_groups(groups@) =~= view_groups(prev).push(view_items(copied@)));
        }
        i = i + 1;
    }
    proof {
        assert(view_items(items@).take(n as int) =~= view_items(items@));
    }
    Ok(FacebookAdsResponse { payload: FacebookAdsPayload { results: groups } })
}

/// Flattens record groups into one list, outer order first, inner order kept.
#[verifier::loop_isolation(false)]
pub fn flatten_ads(results: &Vec<Vec<JsonValue>>) -> (r: Vec<JsonValue>)
    ensures
        view_items(r@) == view_groups(results@).flatten(),
{
    broadcast use Seq::lemma_flatten_push;

    proof {
        lemma_view_groups_index(results@);
    }
    let n = results.len();
    let mut out: Vec<JsonValue> = Vec::new();
    let mut i: usize = 0;
    proof {
        assert(view_groups(results@).take(0) =~= Seq::<Seq<JVal>>::empty());
        assert(Seq::<Seq<JVal>>::empty().flatten() =~= Seq::<JVal>::empty());
        assert(view_items(out@) =~= Seq::<JVal>::empty());
    }
    while i < n
        invariant
            i <= n,
            view_items(out@) == view_groups(results@).take(i as int).flatten(),
        decreases n - i,
    {
        let group = &results[i];
        let m = group.len();
        let mut j: usize = 0;
        proof {
            lemma_view_items_index(group@);
            assert(view_items(group@).take(0) =~= Seq::<JVal>::empty());
            assert(view_items(out@) + view_items(group@).take(0) =~= view_items(out@));
        }
        while j < m
            invariant
                j <= m,
                m == group@.len(),
                group@ == results@[i as int]@,
                view_items(out@) == view_groups(results@).take(i as int).flatten() + view_items(
                    group@,
                ).take(j as int),
            decreases m - j,
        {
            let item = group[j].duplicate();
            let ghost prev = out@;
            out.push(item);
            proof {
                lemma_view_items_index(prev);
                lemma_view_items_index(out@);
                assert(view_items(out@) =~= view_items(prev).push(view_items(group@)[j as int]));
                assert(view_items(group@).take(j + 1) =~= view_items(group@).take(j as int).push(
                    view_items(group@)[j as int],
                ));
                assert(view_items(out@) =~= view_groups(results@).take(i as int).flatten()
                    + view_items(group@).take(j + 1));
            }
            j = j + 1;
        }
        proof {
            assert(view_items(group@).take(m as int) =~= view_items(group@));
            assert(view_groups(results@).take(i + 1) =~= view_groups(results@).take(
                i as int,
            ).push(view_items(group@)));
            assert(view_groups(results@).take(i + 1).flatten() =~= view_groups(results@).take(
                i as int,
            ).flatten() + view_items(group@));
        }
        i = i + 1;
    }
    proof {
        assert(view_groups(results@).take(n as int) =~= view_groups(results@));
    }
    out
}

/// Decodes a search response from raw response text: the anti-hijacking
/// prefix is stripped, the remainder parsed as JSON, and the page entries
/// under `payload.pageResults` returned in order. Malformed text, a missing
/// field, or a wrongly shaped one is a decode error.
pub fn parse_facebook_search_response(text: &str) -> (r: Result<Vec<FacebookPage>, TotemError>)
    ensures
        match r {
            Ok(pages) => {
                &&& crate::json::json_of(crate::normalize::strip_spec(text@)) matches Option::Some(
                    m,
                ) && search_pages_of(m) == Option::Some(view_pages(pages@))
            },
            Err(e) => {
                &&& e == TotemError::DecodeError
                &&& match crate::json::json_of(crate::normalize::strip_spec(text@)) {
                    Option::None => true,
                    Option::Some(m) => search_pages_of(m) is None,
                }
            },
        },
{
    let cleaned = crate::normalize::normalize_response(text);
    match crate::json::parse_json(cleaned.as_str()) {
        Option::None => Err(TotemError::DecodeError),
        Option::Some(v) => match decode_search(&v) {
            Ok(resp) => Ok(resp.payload.page_results),
            Err(e) => Err(e),
        },
    }
}

/// Decodes an ads response from raw response text: the anti-hijacking prefix
/// is stripped, the remainder parsed as JSON, and the record groups under
/// `payload.results` flattened into one list, group order first, order
/// within each group kept.
pub fn parse_facebook_ads_response(text: &str) -> (r: Result<Vec<JsonValue>, TotemError>)
    ensures
        match r {
            Ok(ads) => {
                &&& crate::json::json_of(crate::normalize::strip_spec(text@)) matches Option::Some(
                    m,
                ) && ads_groups_of(m) matches Option::Some(groups) && view_items(ads@)
                    == groups.flatten()
            },
            Err(e) => {
                &&& e == TotemError::DecodeError
                &&& match crate::json::json_of(crate::normalize::strip_spec(text@)) {
                    Option::None => true,
                    Option::Some(m) => ads_groups_of(m) is None,
                }
            },
        },
{
    let cleaned = crate::normalize::normalize_response(text);
    match crate::json::parse_json(cleaned.as_str()) {
        Option::None => Err(TotemError::DecodeError),
        Option::Some(v) => match decode_ads(&v) {
            Ok(resp) => Ok(flatten_ads(&resp.payload.results)),
            Err(e) => Err(e),
        },
    }
}

/// For a page list in which every entry decodes, decoding yields a sequence
/// of the same length, in the same order, entry for entry.
pub proof fn lemma_search_preserves_pages(items: Seq<JVal>)
    requires
        forall|i: int| 0 <= i < items.len() ==> (#[trigger] page_of_json(items[i])) is Some,
    ensures
        pages_of_items(items) is Some,
        pages_of_items(items).unwrap().len() == items.len(),
        forall|i: int|
            0 <= i < items.len() ==> pages_of_items(items).unwrap()[i] == page_of_json(
                items[i],
            ).unwrap(),
    decreases items.len(),
{
    if items.len() > 0 {
        assert forall|i: int|
            0 <= i < items.drop_last().len() implies (#[trigger] page_of_json(
            items.drop_last()[i],
        )) is Some by {
            assert(items.drop_last()[i] == items[i]);
        }
        lemma_search_preserves_pages(items.drop_last());
        assert(page_of_json(items.last()) is Some);
        assert forall|i: int|
            0 <= i < items.len() implies pages_of_items(items).unwrap()[i] == page_of_json(
            items[i],
        ).unwrap() by {
            if i < items.len() - 1 {
                assert(items.drop_last()[i] == items[i]);
            } else {
                assert(items[i] == items.last());
            }
        }
    }
}

/// For an ads payload of three groups, the flattened sequence has length
/// `a + b + c` and keeps group order first, index order within each group.
pub proof fn lemma_ads_flatten_three_groups(a: Seq<JVal>, b: Seq<JVal>, c: Seq<JVal>)
    ensures
        seq![a, b, c].flatten() == a + b + c,
        seq![a, b, c].flatten().len() == a.len() + b.len() + c.len(),
        forall|i: int| 0 <= i < a.len() ==> seq![a, b, c].flatten()[i] == a[i],
        forall|i: int| 0 <= i < b.len() ==> seq![a, b, c].flatten()[a.len() + i] == b[i],
        forall|i: int|
            0 <= i < c.len() ==> seq![a, b, c].flatten()[a.len() + b.len() + i] == c[i],
{
    let gs = seq![a, b, c];
    assert(gs.drop_first() =~= seq![b, c]);
    assert(seq![b, c].drop_first() =~= seq![c]);
    assert(seq![c].drop_first() =~= Seq::<Seq<JVal>>::empty());
    assert(Seq::<Seq<JVal>>::empty().flatten() =~= Seq::<JVal>::empty());
    assert(seq![c].flatten() =~= c);
    assert(seq![b, c].flatten() =~= b + c);
    assert(gs.flatten() =~= a + b + c);
}

} // verus!

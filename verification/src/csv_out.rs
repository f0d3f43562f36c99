//! The tabular exporter: a record sequence becomes CSV text. Columns come
//! from the first record's fields, in order; every value is coerced to a
//! string cell; records that are not objects are skipped. The encoding of
//! one line is delegated to the `csv` crate behind an exact contract.

use vstd::prelude::*;
use vstd::string::StringExecFns;

use crate::decode::view_pages;
use crate::decode::FacebookPage;
use crate::decode::PageV;
use crate::json::json_text_of;
use crate::json::json_to_string;
use crate::json::lemma_view_fields_index;
use crate::json::lemma_view_items_index;
use crate::json::obj_get;
use crate::json::obj_lookup;
use crate::json::view_fields;
use crate::json::view_items;
use crate::json::JVal;
use crate::json::JsonValue;

verus! {

/// A field must be quoted when it holds the delimiter, the quote character
/// or a line break; a carriage return counts as one, since a reader would
/// take it for a record terminator.
pub open spec fn csv_needs_quotes(f: Seq<char>) -> bool {
    f.contains(',') || f.contains('"') || f.contains('\n') || f.contains('\r')
}

/// A field's body with every double quote doubled.
pub open spec fn csv_escape(f: Seq<char>) -> Seq<char>
    decreases f.len(),
{
    if f.len() == 0 {
        Seq::empty()
    } else if f[0] == '"' {
        seq!['"', '"'] + csv_escape(f.drop_first())
    } else {
        seq![f[0]] + csv_escape(f.drop_first())
    }
}

/// One encoded field: quoted and escaped where needed, verbatim otherwise.
pub open spec fn csv_field_enc(f: Seq<char>) -> Seq<char> {
    if csv_needs_quotes(f) {
        seq!['"'] + csv_escape(f) + seq!['"']
    } else {
        f
    }
}

/// The encoded fields of one record, joined by the delimiter.
pub open spec fn csv_joined(fields: Seq<Seq<char>>) -> Seq<char>
    decreases fields.len(),
{
    if fields.len() == 0 {
        Seq::empty()
    } else if fields.len() == 1 {
        csv_field_enc(fields[0])
    } else {
        csv_field_enc(fields[0]) + seq![','] + csv_joined(fields.drop_first())
    }
}

/// One CSV line: the joined fields and a terminator. A record whose encoding
/// is empty (no fields, or a single empty one) is written as an explicitly
/// quoted empty field, so that the line stays distinguishable from a blank.
pub open spec fn csv_line_spec(fields: Seq<Seq<char>>) -> Seq<char> {
    let joined = csv_joined(fields);
    if joined.len() == 0 {
        seq!['"', '"', '\n']
    } else {
        joined + seq!['\n']
    }
}

/// How one value is coerced to a cell: strings and numbers verbatim, booleans
/// as words, null as the empty string, and anything structured re-encoded as
/// its JSON text.
pub open spec fn cell_of(v: JVal) -> Seq<char> {
    match v {
        JVal::Str(s) => s,
        JVal::Num(s) => s,
        JVal::Bool(b) => if b {
            seq!['t', 'r', 'u', 'e']
        } else {
            seq!['f', 'a', 'l', 's', 'e']
        },
        JVal::Null => Seq::empty(),
        _ => json_text_of(v),
    }
}

/// The cell for one column of one record: an absent field is an empty cell.
pub open spec fn cell_of_lookup(fields: Seq<(Seq<char>, JVal)>, key: Seq<char>) -> Seq<char> {
    match obj_lookup(fields, key) {
        Option::None => Seq::empty(),
        Option::Some(v) => cell_of(v),
    }
}

/// The column names: the first record's keys, in that record's field order.
pub open spec fn headers_of(fields: Seq<(Seq<char>, JVal)>) -> Seq<Seq<char>> {
    fields.map_values(|p: (Seq<char>, JVal)| p.0)
}

/// One record's row: one cell per column.
pub open spec fn row_of(headers: Seq<Seq<char>>, fields: Seq<(Seq<char>, JVal)>) -> Seq<
    Seq<char>,
> {
    headers.map_values(|h: Seq<char>| cell_of_lookup(fields, h))
}

/// The data rows: one line per object record, records that are not objects
/// skipped.
pub open spec fn rows_text(headers: Seq<Seq<char>>, records: Seq<JVal>) -> Seq<char>
    decreases records.len(),
{
    if records.len() == 0 {
        Seq::empty()
    } else {
        rows_text(headers, records.drop_last()) + (match records.last() {
            JVal::Obj(g) => csv_line_spec(row_of(headers, g)),
            _ => Seq::empty(),
        })
    }
}

/// The whole exported text: nothing for an empty sequence or a first record
/// that is not an object; otherwise a header line from the first record's
/// keys followed by the data rows.
pub open spec fn csv_text_of(records: Seq<JVal>) -> Seq<char> {
    if records.len() == 0 {
        Seq::empty()
    } else {
        match records[0] {
            JVal::Obj(ff) => csv_line_spec(headers_of(ff)) + rows_text(headers_of(ff), records),
            _ => Seq::empty(),
        }
    }
}

/// The views of a vector of strings, element by element.
pub open spec fn view_strings(ss: Seq<String>) -> Seq<Seq<char>>
    decreases ss,
{
    if ss.len() == 0 {
        Seq::empty()
    } else {
        seq![ss[0]@] + view_strings(ss.drop_first())
    }
}

pub broadcast proof fn lemma_view_strings_index(ss: Seq<String>)
    ensures
        (#[trigger] view_strings(ss)).len() == ss.len(),
        forall|i: int| 0 <= i < ss.len() ==> view_strings(ss)[i] == ss[i]@,
    decreases ss,
{
    if ss.len() > 0 {
        lemma_view_strings_index(ss.drop_first());
        assert forall|i: int| 0 <= i < ss.len() implies view_strings(ss)[i] == ss[i]@ by {
            if i > 0 {
                assert(view_strings(ss)[i] == view_strings(ss.drop_first())[i - 1]);
                assert(ss.drop_first()[i - 1] == ss[i]);
            }
        }
    }
}

/// Relies on `csv::Writer` in its default configuration (comma delimiter,
/// double-quote quoting doubled inside quotes, `\n` terminator, quoting only
/// where a field holds a comma, a quote or a line break — a carriage return
/// counts as one — and an all-empty record written as one quoted empty
/// field): writing one record yields one line.
#[verifier::external_body]
fn csv_encode_line(fields: &Vec<String>) -> (r: String)
    ensures
        r@ == csv_line_spec(view_strings(fields@)),
{
    let mut wtr = csv::Writer::from_writer(Vec::new());
    let _ = wtr.write_record(fields.iter());
    match wtr.into_inner() {
        Ok(buf) => String::from_utf8(buf).unwrap_or_default(),
        Err(_) => String::new(),
    }
}

/// The cell string for one value.
fn cell_string(v: &JsonValue) -> (r: String)
    ensures
        r@ == cell_of(v@),
{
    match v {
        JsonValue::Str(s) => s.clone(),
        JsonValue::Num(s) => s.clone(),
        JsonValue::Bool(b) => {
            if *b {
                let r = "true".to_owned();
                proof {
                    reveal_strlit("true");
                    assert(r@ =~= seq!['t', 'r', 'u', 'e']);
                }
                r
            } else {
                let r = "false".to_owned();
                proof {
                    reveal_strlit("false");
                    assert(r@ =~= seq!['f', 'a', 'l', 's', 'e']);
                }
                r
            }
        },
        JsonValue::Null => String::new(),
        _ => json_to_string(v),
    }
}

/// One record's row of cells, one per column.
#[verifier::loop_isolation(false)]
fn record_row(headers: &Vec<String>, fields: &Vec<(String, JsonValue)>) -> (r: Vec<String>)
    ensures
        view_strings(r@) == row_of(view_strings(headers@), view_fields(fields@)),
{
    proof {
        lemma_view_strings_index(headers@);
    }
    let n = headers.len();
    let mut row: Vec<String> = Vec::new();
    let mut i: usize = 0;
    while i < n
        invariant
            i <= n,
            row@.len() == i,
            forall|j: int|
                0 <= j < i ==> row@[j]@ == cell_of_lookup(view_fields(fields@), headers@[j]@),
        decreases n - i,
    {
        let cell = match obj_get(fields, headers[i].as_str()) {
            Option::None => String::new(),
            Option::Some(v) => cell_string(v),
        };
        row.push(cell);
        i = i + 1;
    }
    proof {
        lemma_view_strings_index(row@);
        assert(view_strings(row@) =~= row_of(view_strings(headers@), view_fields(fields@)));
    }
    row
}

/// The CSV text for a sequence of records: the lossy first-record-wins
/// policy. An empty input gives empty text; a first record that is not an
/// object gives empty text; later records missing a column render empty
/// cells, and their extra fields are dropped.
#[verifier::loop_isolation(false)]
pub fn json_to_csv_text(data: &Vec<JsonValue>) -> (r: String)
    ensures
        r@ == csv_text_of(view_items(data@)),
{
    proof {
        lemma_view_items_index(data@);
    }
    let n = data.len();
    if n == 0 {
        return String::new();
    }
    let ff = match &data[0] {
        JsonValue::Obj(ff) => ff,
        _ => {
            return String::new();
        },
    };
    proof {
        lemma_view_fields_index(ff@);
    }
    let m = ff.len();
    let mut headers: Vec<String> = Vec::new();
    let mut k: usize = 0;
    while k < m
        invariant
            k <= m,
            headers@.len() == k,
            forall|j: int| 0 <= j < k ==> headers@[j]@ == ff@[j].0@,
        decreases m - k,
    {
        let key = ff[k].0.clone();
        headers.push(key);
        k = k + 1;
    }
    let ghost hs = headers_of(view_fields(ff@));
    proof {
        lemma_view_strings_index(headers@);
        assert(view_strings(headers@) =~= hs);
    }
    let mut text = csv_encode_line(&headers);
    let mut i: usize = 0;
    proof {
        assert(view_items(data@).take(0) =~= Seq::<JVal>::empty());
        assert(text@ =~= csv_line_spec(hs) + rows_text(hs, view_items(data@).take(0)));
    }
    while i < n
        invariant
            i <= n,
            text@ == csv_line_spec(hs) + rows_text(hs, view_items(data@).take(i as int)),
        decreases n - i,
    {
        proof {
            assert(view_items(data@).take(i + 1).drop_last() =~= view_items(data@).take(i as int));
            assert(view_items(data@).take(i + 1).last() == view_items(data@)[i as int]);
        }
        match &data[i] {
            JsonValue::Obj(g) => {
                let row = record_row(&headers, g);
                let line = csv_encode_line(&row);
                text.append(line.as_str());
            },
            _ => {},
        }
        i = i + 1;
    }
    proof {
        assert(view_items(data@).take(n as int) =~= view_items(data@));
    }
    text
}

/// How one optional page field appears as a record value.
pub open spec fn opt_str_val(o: Option<Seq<char>>) -> JVal {
    match o {
        Option::None => JVal::Null,
        Option::Some(s) => JVal::Str(s),
    }
}

/// The generic record standing for one page entry: the four known field
/// names as keys, an absent field as null.
pub open spec fn page_record_of(p: PageV) -> JVal {
    JVal::Obj(
        seq![
            ("pageID"@, opt_str_val(p.page_id)),
            ("pageName"@, opt_str_val(p.page_name)),
            ("pageProfilePictureURI"@, opt_str_val(p.page_profile_picture_uri)),
            ("pageURI"@, opt_str_val(p.page_uri)),
        ],
    )
}

/// The generic records standing for a sequence of page entries.
pub open spec fn records_of_pages(ps: Seq<PageV>) -> Seq<JVal> {
    ps.map_values(|p: PageV| page_record_of(p))
}

/// One page field as a record value.
fn opt_str_value(o: &Option<String>) -> (r: JsonValue)
    ensures
        r@ == opt_str_val(crate::decode::view_opt_string(*o)),
{
    match o {
        Option::None => JsonValue::Null,
        Option::Some(s) => JsonValue::Str(s.clone()),
    }
}

/// Type erasure for export: page entries become generic object records,
/// under the same four field names.
#[verifier::loop_isolation(false)]
pub fn pages_to_records(pages: &Vec<FacebookPage>) -> (r: Vec<JsonValue>)
    ensures
        view_items(r@) == records_of_pages(view_pages(pages@)),
{
    proof {
        crate::decode::lemma_view_pages_index(pages@);
    }
    let n = pages.len();
    let mut out: Vec<JsonValue> = Vec::new();
    let mut i: usize = 0;
    while i < n
        invariant
            i <= n,
            out@.len() == i,
            forall|j: int| 0 <= j < i ==> out@[j]@ == page_record_of(pages@[j]@),
        decreases n - i,
    {
        let page = &pages[i];
        let mut fields: Vec<(String, JsonValue)> = Vec::new();
        fields.push(("pageID".to_owned(), opt_str_value(&page.page_id)));
        fields.push(("pageName".to_owned(), opt_str_value(&page.page_name)));
        fields.push(("pageProfilePictureURI".to_owned(), opt_str_value(&page.page_profile_picture_uri)));
        fields.push(("pageURI".to_owned(), opt_str_value(&page.page_uri)));
        proof {
            lemma_view_fields_index(fields@);
            assert(view_fields(fields@) =~= seq![
                ("pageID"@, opt_str_val(page@.page_id)),
                ("pageName"@, opt_str_val(page@.page_name)),
                ("pageProfilePictureURI"@, opt_str_val(page@.page_profile_picture_uri)),
                ("pageURI"@, opt_str_val(page@.page_uri)),
            ]);
        }
        out.push(JsonValue::Obj(fields));
        i = i + 1;
    }
    proof {
        lemma_view_items_index(out@);
        assert(view_items(out@) =~= records_of_pages(view_pages(pages@)));
    }
    out
}

/// The CSV text for a sequence of page entries: the same export, after type
/// erasure.
pub fn pages_to_csv_text(pages: &Vec<FacebookPage>) -> (r: String)
    ensures
        r@ == csv_text_of(records_of_pages(view_pages(pages@))),
{
    let records = pages_to_records(pages);
    json_to_csv_text(&records)
}

/// A page entry survives type erasure: decoding the generic record standing
/// for a page yields the page itself.
pub proof fn lemma_page_record_round_trip(p: PageV)
    ensures
        crate::decode::page_of_json(page_record_of(p)) == Option::Some(p),
{
    reveal_strlit("pageID");
    reveal_strlit("pageName");
    reveal_strlit("pageProfilePictureURI");
    reveal_strlit("pageURI");
    // The four keys differ already in length.
    assert(("pageID"@).len() == 6);
    assert(("pageName"@).len() == 8);
    assert(("pageProfilePictureURI"@).len() == 21);
    assert(("pageURI"@).len() == 7);
    let fs = seq![
        ("pageID"@, opt_str_val(p.page_id)),
        ("pageName"@, opt_str_val(p.page_name)),
        ("pageProfilePictureURI"@, opt_str_val(p.page_profile_picture_uri)),
        ("pageURI"@, opt_str_val(p.page_uri)),
    ];
    crate::json::lemma_obj_lookup_hit(fs, "pageID"@, 0);
    crate::json::lemma_obj_lookup_hit(fs, "pageName"@, 1);
    crate::json::lemma_obj_lookup_hit(fs, "pageProfilePictureURI"@, 2);
    crate::json::lemma_obj_lookup_hit(fs, "pageURI"@, 3);
}

/// Exporting an empty record sequence produces no header and no rows.
pub proof fn lemma_export_empty()
    ensures
        csv_text_of(Seq::<JVal>::empty()) == Seq::<char>::empty(),
{
}

/// Every emitted row has exactly one cell per column of the first record,
/// and each cell depends only on that column's field.
pub proof fn lemma_row_matches_headers(headers: Seq<Seq<char>>, fields: Seq<(Seq<char>, JVal)>)
    ensures
        row_of(headers, fields).len() == headers.len(),
        forall|i: int|
            0 <= i < headers.len() ==> row_of(headers, fields)[i] == cell_of_lookup(
                fields,
                headers[i],
            ),
{
}

proof fn lemma_obj_lookup_skip(
    a: Seq<(Seq<char>, JVal)>,
    b: Seq<(Seq<char>, JVal)>,
    k: Seq<char>,
    v: JVal,
    h: Seq<char>,
)
    requires
        h != k,
    ensures
        obj_lookup(a + seq![(k, v)] + b, h) == obj_lookup(a + b, h),
    decreases a.len(),
{
    if a.len() == 0 {
        assert(a + seq![(k, v)] + b =~= seq![(k, v)] + b);
        assert((seq![(k, v)] + b)[0] == (k, v));
        assert((seq![(k, v)] + b).drop_first() =~= b);
        assert(a + b =~= b);
    } else {
        assert((a + seq![(k, v)] + b)[0] == a[0]);
        assert((a + b)[0] == a[0]);
        if a[0].0 != h {
            assert((a + seq![(k, v)] + b).drop_first() =~= a.drop_first() + seq![(k, v)] + b);
            assert((a + b).drop_first() =~= a.drop_first() + b);
            lemma_obj_lookup_skip(a.drop_first(), b, k, v, h);
        }
    }
}

/// A field whose key is not among the columns never reaches the output: a
/// record carrying it renders the same row as the record without it. This is
/// the documented lossy policy for fields the first record did not have.
pub proof fn lemma_extra_field_dropped(
    headers: Seq<Seq<char>>,
    a: Seq<(Seq<char>, JVal)>,
    b: Seq<(Seq<char>, JVal)>,
    k: Seq<char>,
    v: JVal,
)
    requires
        !headers.contains(k),
    ensures
        row_of(headers, a + seq![(k, v)] + b) == row_of(headers, a + b),
{
    assert forall|i: int|
        0 <= i < headers.len() implies row_of(headers, a + seq![(k, v)] + b)[i] == row_of(
        headers,
        a + b,
    )[i] by {
        assert(headers.contains(headers[i]));
        lemma_obj_lookup_skip(a, b, k, v, headers[i]);
    }
    assert(row_of(headers, a + seq![(k, v)] + b) =~= row_of(headers, a + b));
}

} // verus!

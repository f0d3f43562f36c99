//! A standard CSV line parser, at the specification level, and the proof
//! that it inverts the exporter's line encoding: the round-trip law.

use vstd::prelude::*;

use crate::csv_out::cell_of;
use crate::csv_out::csv_escape;
use crate::csv_out::csv_field_enc;
use crate::csv_out::csv_joined;
use crate::csv_out::csv_line_spec;
use crate::csv_out::csv_needs_quotes;
use crate::csv_out::csv_text_of;
use crate::csv_out::headers_of;
use crate::csv_out::row_of;
use crate::csv_out::rows_text;
use crate::json::obj_lookup;
use crate::json::JVal;

verus! {

/// Parses the inside of a quoted field: the content up to the closing quote,
/// a doubled quote standing for a literal one, and whatever follows the
/// closing quote. An unterminated field is malformed.
pub open spec fn parse_quoted(s: Seq<char>) -> Option<(Seq<char>, Seq<char>)>
    decreases s.len(),
{
    if s.len() == 0 {
        Option::None
    } else if s[0] == '"' {
        if s.len() >= 2 && s[1] == '"' {
            match parse_quoted(s.skip(2)) {
                Option::Some(p) => Option::Some((seq!['"'] + p.0, p.1)),
                Option::None => Option::None,
            }
        } else {
            Option::Some((Seq::empty(), s.skip(1)))
        }
    } else {
        match parse_quoted(s.skip(1)) {
            Option::Some(p) => Option::Some((seq![s[0]] + p.0, p.1)),
            Option::None => Option::None,
        }
    }
}

/// Parses an unquoted field: the content up to the next delimiter or the
/// end. A bare quote or terminator inside the field is malformed.
pub open spec fn parse_unquoted(s: Seq<char>) -> Option<(Seq<char>, Seq<char>)>
    decreases s.len(),
{
    if s.len() == 0 || s[0] == ',' {
        Option::Some((Seq::empty(), s))
    } else if s[0] == '"' || s[0] == '\n' {
        Option::None
    } else {
        match parse_unquoted(s.skip(1)) {
            Option::Some(p) => Option::Some((seq![s[0]] + p.0, p.1)),
            Option::None => Option::None,
        }
    }
}

proof fn lemma_parse_quoted_rest(s: Seq<char>)
    requires
        parse_quoted(s) is Some,
    ensures
        parse_quoted(s).unwrap().1.len() < s.len(),
    decreases s.len(),
{
    if s[0] == '"' {
        if s.len() >= 2 && s[1] == '"' {
            lemma_parse_quoted_rest(s.skip(2));
        }
    } else {
        lemma_parse_quoted_rest(s.skip(1));
    }
}

proof fn lemma_parse_unquoted_rest(s: Seq<char>)
    requires
        parse_unquoted(s) is Some,
    ensures
        parse_unquoted(s).unwrap().1.len() <= s.len(),
    decreases s.len(),
{
    if s.len() == 0 || s[0] == ',' {
    } else if s[0] == '"' || s[0] == '\n' {
    } else {
        lemma_parse_unquoted_rest(s.skip(1));
    }
}

/// Parses the body of one line into its fields: one field, then, after each
/// delimiter, another.
pub open spec fn parse_fields(s: Seq<char>) -> Option<Seq<Seq<char>>>
    decreases s.len(),
    via parse_fields_decreases
{
    let parsed = if s.len() > 0 && s[0] == '"' {
        parse_quoted(s.skip(1))
    } else {
        parse_unquoted(s)
    };
    match parsed {
        Option::None => Option::None,
        Option::Some(p) => {
            if p.1.len() == 0 {
                Option::Some(seq![p.0])
            } else if p.1[0] == ',' {
                match parse_fields(p.1.skip(1)) {
                    Option::Some(fs) => Option::Some(seq![p.0] + fs),
                    Option::None => Option::None,
                }
            } else {
                Option::None
            }
        },
    }
}

#[via_fn]
proof fn parse_fields_decreases(s: Seq<char>) {
    if s.len() > 0 && s[0] == '"' {
        if parse_quoted(s.skip(1)) is Some {
            lemma_parse_quoted_rest(s.skip(1));
        }
    } else {
        if parse_unquoted(s) is Some {
            lemma_parse_unquoted_rest(s);
        }
    }
}

/// Parses one CSV line, terminator included.
pub open spec fn parse_csv_line(line: Seq<char>) -> Option<Seq<Seq<char>>> {
    if line.len() == 0 || line.last() != '\n' {
        Option::None
    } else {
        parse_fields(line.drop_last())
    }
}

proof fn lemma_parse_quoted_enc(f: Seq<char>, rest: Seq<char>)
    requires
        rest.len() == 0 || rest[0] != '"',
    ensures
        parse_quoted(csv_escape(f) + seq!['"'] + rest) == Option::Some((f, rest)),
    decreases f.len(),
{
    let s = csv_escape(f) + seq!['"'] + rest;
    if f.len() == 0 {
        assert(csv_escape(f) =~= Seq::<char>::empty());
        assert(s =~= seq!['"'] + rest);
        assert(s[0] == '"');
        if s.len() >= 2 {
            assert(s[1] == rest[0]);
        }
        assert(s.skip(1) =~= rest);
    } else if f[0] == '"' {
        assert(csv_escape(f) == seq!['"', '"'] + csv_escape(f.drop_first()));
        assert(s[0] == '"' && s[1] == '"');
        lemma_parse_quoted_enc(f.drop_first(), rest);
        assert(s.skip(2) =~= csv_escape(f.drop_first()) + seq!['"'] + rest);
        assert(seq!['"'] + f.drop_first() =~= f);
    } else {
        assert(csv_escape(f) == seq![f[0]] + csv_escape(f.drop_first()));
        assert(s[0] == f[0]);
        lemma_parse_quoted_enc(f.drop_first(), rest);
        assert(s.skip(1) =~= csv_escape(f.drop_first()) + seq!['"'] + rest);
        assert(seq![f[0]] + f.drop_first() =~= f);
    }
}

proof fn lemma_no_char_in_drop_first(f: Seq<char>, c: char)
    requires
        !f.contains(c),
        f.len() > 0,
    ensures
        !f.drop_first().contains(c),
{
    if f.drop_first().contains(c) {
        let i = choose|i: int| 0 <= i < f.drop_first().len() && f.drop_first()[i] == c;
        assert(f[i + 1] == c);
    }
}

proof fn lemma_parse_unquoted_plain(f: Seq<char>, rest: Seq<char>)
    requires
        !csv_needs_quotes(f),
        rest.len() == 0 || rest[0] == ',',
    ensures
        parse_unquoted(f + rest) == Option::Some((f, rest)),
    decreases f.len(),
{
    let s = f + rest;
    if f.len() == 0 {
        assert(s =~= rest);
    } else {
        assert(f.contains(f[0]));
        assert(s[0] == f[0]);
        lemma_no_char_in_drop_first(f, ',');
        lemma_no_char_in_drop_first(f, '"');
        lemma_no_char_in_drop_first(f, '\n');
        lemma_no_char_in_drop_first(f, '\r');
        lemma_parse_unquoted_plain(f.drop_first(), rest);
        assert(s.skip(1) =~= f.drop_first() + rest);
        assert(seq![f[0]] + f.drop_first() =~= f);
    }
}

proof fn lemma_parse_joined(fields: Seq<Seq<char>>)
    requires
        fields.len() >= 1,
    ensures
        parse_fields(csv_joined(fields)) == Option::Some(fields),
    decreases fields.len(),
{
    let s = csv_joined(fields);
    let f = fields[0];
    if fields.len() == 1 {
        assert(s == csv_field_enc(f));
        if csv_needs_quotes(f) {
            assert(s =~= seq!['"'] + (csv_escape(f) + seq!['"'] + Seq::<char>::empty()));
            assert(s[0] == '"');
            lemma_parse_quoted_enc(f, Seq::empty());
            assert(s.skip(1) =~= csv_escape(f) + seq!['"'] + Seq::<char>::empty());
        } else {
            assert(s =~= f + Seq::<char>::empty());
            lemma_parse_unquoted_plain(f, Seq::empty());
            if s.len() > 0 {
                assert(f.contains(f[0]));
                assert(s[0] != '"');
            }
        }
        assert(seq![f] =~= fields);
    } else {
        let tail = csv_joined(fields.drop_first());
        let rest = seq![','] + tail;
        assert(s == csv_field_enc(f) + seq![','] + tail);
        assert(rest[0] == ',');
        lemma_parse_joined(fields.drop_first());
        if csv_needs_quotes(f) {
            assert(s =~= seq!['"'] + (csv_escape(f) + seq!['"'] + rest));
            assert(s[0] == '"');
            lemma_parse_quoted_enc(f, rest);
            assert(s.skip(1) =~= csv_escape(f) + seq!['"'] + rest);
        } else {
            assert(s =~= f + rest);
            lemma_parse_unquoted_plain(f, rest);
            if s.len() > 0 && s[0] == '"' {
                assert(f.len() > 0);
                assert(f.contains(f[0]));
                assert(false);
            }
        }
        assert(rest.skip(1) =~= tail);
        assert(seq![f] + fields.drop_first() =~= fields);
    }
}

/// Round-trip at line level: a line encoded from at least one field parses
/// back to exactly those fields.
pub proof fn lemma_csv_line_round_trip(fields: Seq<Seq<char>>)
    requires
        fields.len() >= 1,
    ensures
        parse_csv_line(csv_line_spec(fields)) == Option::Some(fields),
{
    let joined = csv_joined(fields);
    if joined.len() == 0 {
        // A single empty field: the line is an explicitly quoted empty field.
        assert(fields.len() == 1 && fields[0].len() == 0) by {
            if fields.len() == 1 {
                if csv_needs_quotes(fields[0]) {
                    assert(joined.len() >= 2);
                } else {
                    assert(joined == fields[0]);
                }
            } else {
                assert(joined == csv_field_enc(fields[0]) + seq![','] + csv_joined(
                    fields.drop_first(),
                ));
            }
        }
        let line = csv_line_spec(fields);
        assert(line == seq!['"', '"', '\n']);
        assert(line.last() == '\n');
        let body = line.drop_last();
        assert(body =~= seq!['"', '"']);
        assert(body[0] == '"');
        assert(body.skip(1) =~= seq!['"']);
        assert(parse_quoted(seq!['"']) == Option::Some(
            (Seq::<char>::empty(), seq!['"'].skip(1)),
        ));
        assert(seq!['"'].skip(1) =~= Seq::<char>::empty());
        assert(parse_fields(body) == Option::Some(seq![Seq::<char>::empty()]));
        assert(fields[0] =~= Seq::<char>::empty());
        assert(seq![Seq::<char>::empty()] =~~= fields);
    } else {
        let line = joined + seq!['\n'];
        assert(csv_line_spec(fields) == line);
        assert(line.last() == '\n');
        assert(line.drop_last() =~= joined);
        lemma_parse_joined(fields);
    }
}

/// A value is scalar when its cell string carries it whole: a string, a
/// number, a boolean or null.
pub open spec fn scalar(v: JVal) -> bool {
    v is Str || v is Num || v is Bool || v is Null
}

/// Round-trip at record level: exporting one object record whose fields are
/// all scalar, under pairwise distinct keys, yields exactly two lines; each
/// line parses back whole, the first to the field names and the second to
/// the string-coerced values, column for column (null as the empty string,
/// booleans as words, numbers as their decimal text, strings unchanged).
pub proof fn lemma_export_single_record_round_trip(fs: Seq<(Seq<char>, JVal)>)
    requires
        fs.len() >= 1,
        forall|i: int, j: int| 0 <= i < j < fs.len() ==> fs[i].0 != fs[j].0,
        forall|i: int| 0 <= i < fs.len() ==> scalar(#[trigger] fs[i].1),
    ensures
        csv_text_of(seq![JVal::Obj(fs)]) == csv_line_spec(headers_of(fs)) + csv_line_spec(
            row_of(headers_of(fs), fs),
        ),
        parse_csv_line(csv_line_spec(headers_of(fs))) == Option::Some(headers_of(fs)),
        parse_csv_line(csv_line_spec(row_of(headers_of(fs), fs))) == Option::Some(
            row_of(headers_of(fs), fs),
        ),
        forall|i: int|
            0 <= i < fs.len() ==> row_of(headers_of(fs), fs)[i] == cell_of(fs[i].1),
{
    let records = seq![JVal::Obj(fs)];
    let headers = headers_of(fs);
    assert(records.drop_last() =~= Seq::<JVal>::empty());
    assert(records.last() == JVal::Obj(fs));
    assert(rows_text(headers, Seq::<JVal>::empty()) == Seq::<char>::empty());
    assert(rows_text(headers, records) == Seq::<char>::empty() + csv_line_spec(
        row_of(headers, fs),
    ));
    assert(Seq::<char>::empty() + csv_line_spec(row_of(headers, fs)) =~= csv_line_spec(
        row_of(headers, fs),
    ));
    lemma_csv_line_round_trip(headers);
    lemma_csv_line_round_trip(row_of(headers, fs));
    assert forall|i: int|
        0 <= i < fs.len() implies row_of(headers, fs)[i] == cell_of(fs[i].1) by {
        assert(headers[i] == fs[i].0);
        assert forall|j: int| 0 <= j < i implies fs[j].0 != fs[i].0 by {}
        crate::json::lemma_obj_lookup_hit(fs, fs[i].0, i);
        assert(obj_lookup(fs, headers[i]) == Option::Some(fs[i].1));
    }
}

} // verus!

//! The fixed form parameters sent with every request to mimic a browser
//! session.

use vstd::prelude::*;

verus! {

/// The views of a list of key/value pairs, pair by pair.
pub open spec fn view_string_pairs(ps: Seq<(String, String)>) -> Seq<(Seq<char>, Seq<char>)>
    decreases ps,
{
    if ps.len() == 0 {
        Seq::empty()
    } else {
        seq![(ps[0].0@, ps[0].1@)] + view_string_pairs(ps.drop_first())
    }
}

pub broadcast proof fn lemma_view_string_pairs_index(ps: Seq<(String, String)>)
    ensures
        (#[trigger] view_string_pairs(ps)).len() == ps.len(),
        forall|i: int| 0 <= i < ps.len() ==> view_string_pairs(ps)[i] == (ps[i].0@, ps[i].1@),
    decreases ps,
{
    if ps.len() > 0 {
        lemma_view_string_pairs_index(ps.drop_first());
        assert forall|i: int|
            0 <= i < ps.len() implies view_string_pairs(ps)[i] == (ps[i].0@, ps[i].1@) by {
            if i > 0 {
                assert(view_string_pairs(ps)[i] == view_string_pairs(ps.drop_first())[i - 1]);
                assert(ps.drop_first()[i - 1] == ps[i]);
            }
        }
    }
}

/// The fixed session form fields, in the order they are assembled.
pub open spec fn form_data_model() -> Seq<(Seq<char>, Seq<char>)> {
    seq![
        ("__user"@, "0"@),
        ("__a"@, "1"@),
        ("__dyn"@, "\"\""@),
        ("__csr"@, ""@),
        ("__req"@, "1"@),
        ("__beoa"@, "0"@),
        ("__pc"@, "PHASED:DEFAULT"@),
        ("dpr"@, "1"@),
        ("__ccg"@, "UNKNOWN"@),
        ("__rev"@, "\"\""@),
        ("__s"@, "\"\""@),
        ("__hsi"@, "\"\""@),
        ("__comet_req"@, "0"@),
        ("lsd"@, "\"\""@),
        ("jazoest"@, "\"\""@),
        ("__spin_r"@, "\"\""@),
        ("__spin_b"@, "trunk"@),
        ("__spin_t"@, "\"\""@),
    ]
}

/// The fixed form data a request carries, as key/value pairs.
pub fn build_facebook_form_data() -> (r: Vec<(String, String)>)
    ensures
        view_string_pairs(r@) == form_data_model(),
{
    let mut data: Vec<(String, String)> = Vec::new();
    data.push(("__user".to_owned(), "0".to_owned()));
    data.push(("__a".to_owned(), "1".to_owned()));
    data.push(("__dyn".to_owned(), "\"\"".to_owned()));
    data.push(("__csr".to_owned(), "".to_owned()));
    data.push(("__req".to_owned(), "1".to_owned()));
    data.push(("__beoa".to_owned(), "0".to_owned()));
    data.push(("__pc".to_owned(), "PHASED:DEFAULT".to_owned()));
    data.push(("dpr".to_owned(), "1".to_owned()));
    data.push(("__ccg".to_owned(), "UNKNOWN".to_owned()));
    data.push(("__rev".to_owned(), "\"\"".to_owned()));
    data.push(("__s".to_owned(), "\"\"".to_owned()));
    data.push(("__hsi".to_owned(), "\"\"".to_owned()));
    data.push(("__comet_req".to_owned(), "0".to_owned()));
    data.push(("lsd".to_owned(), "\"\"".to_owned()));
    data.push(("jazoest".to_owned(), "\"\"".to_owned()));
    data.push(("__spin_r".to_owned(), "\"\"".to_owned()));
    data.push(("__spin_b".to_owned(), "trunk".to_owned()));
    data.push(("__spin_t".to_owned(), "\"\"".to_owned()));
    proof {
        lemma_view_string_pairs_index(data@);
        assert(view_string_pairs(data@) =~= form_data_model());
    }
    data
}

} // verus!

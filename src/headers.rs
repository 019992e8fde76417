use vstd::prelude::*;

use actix_web::http::header::HeaderMap;

verus! {

#[verifier::external_type_specification]
#[verifier::external_body]
pub struct ExHeaderMap(HeaderMap);

/// For each header name under which the first stored value is text, that text.
pub uninterp spec fn header_texts(m: HeaderMap) -> Map<Seq<char>, Seq<char>>;

/// Relies on `HeaderMap::get`, which returns the first value stored under a
/// name, and on `HeaderValue::to_str`, which reads that value as text
/// exactly when all its bytes are visible ASCII.
#[verifier::external_body]
fn header_text(headers_map: &HeaderMap, name: &str) -> (r: Option<String>)
    ensures
        r is Some <==> header_texts(*headers_map).contains_key(name@),
        r matches Some(t) ==> t@ == header_texts(*headers_map)[name@],
{
    match headers_map.get(name) {
        Some(val) => val.to_str().ok().map(|s| s.to_owned()),
        None => None,
    }
}

/// The text under the first of `names` that has one in `texts`.
pub open spec fn first_text(texts: Map<Seq<char>, Seq<char>>, names: Seq<&str>) -> Option<Seq<char>>
    decreases names.len(),
{
    if names.len() == 0 {
        None
    } else if texts.contains_key(names[0]@) {
        Some(texts[names[0]@])
    } else {
        first_text(texts, names.drop_first())
    }
}

/// The text of the first header among `header_names`, in that order, whose
/// value is text; `None` where there is none.
pub fn get_first_header(headers_map: &HeaderMap, header_names: &[&str]) -> (r: Option<String>)
    ensures
        match r {
            Some(t) => first_text(header_texts(*headers_map), header_names@) == Some(t@),
            None => first_text(header_texts(*headers_map), header_names@) is None,
        },
{
    let ghost texts = header_texts(*headers_map);
    let ghost all = header_names@;
    let mut i: usize = 0;
    assert(all.subrange(0, all.len() as int) =~= all);
    while i < header_names.len()
        invariant
            i <= all.len(),
            all == header_names@,
            texts == header_texts(*headers_map),
            first_text(texts, all) == first_text(texts, all.subrange(i as int, all.len() as int)),
        decreases all.len() - i,
    {
        let name: &str = header_names[i];
        proof {
            let rest = all.subrange(i as int, all.len() as int);
            assert(rest[0] == name);
            assert(rest.drop_first() =~= all.subrange(i + 1, all.len() as int));
            assert(first_text(texts, rest) == if texts.contains_key(name@) {
                Some(texts[name@])
            } else {
                first_text(texts, rest.drop_first())
            });
        }
        if let Some(t) = header_text(headers_map, name) {
            return Some(t);
        }
        i = i + 1;
    }
    proof {
        assert(all.subrange(i as int, all.len() as int).len() == 0);
    }
    None
}

} // verus!

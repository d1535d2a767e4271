//! The JSON form of the saved project lists (`recents.json`, `pinned.json`).
use vstd::prelude::*;
use crate::text::views;

verus! {

#[verifier::external_type_specification]
#[verifier::external_body]
pub struct ExJsonError(serde_json::Error);

/// The elements of the JSON array that `serde_json` reads from `bytes` (none if the
/// bytes are not a JSON array): each string element as its characters, any other
/// element as `None`.
pub uninterp spec fn spec_json_array_items(bytes: Seq<u8>) -> Option<Seq<Option<Seq<char>>>>;

/// The pretty-printed JSON array that `serde_json` writes for a list of strings.
pub uninterp spec fn spec_json_pretty_list(list: Seq<Seq<char>>) -> Seq<u8>;

/// The character views of optional strings.
pub open spec fn option_views(v: Seq<Option<String>>) -> Seq<Option<Seq<char>>> {
    Seq::new(v.len(), |i: int| match v[i] {
        Some(s) => Some(s@),
        None => None,
    })
}

/// Every entry of a list, as a string element.
pub open spec fn as_string_items(list: Seq<Seq<char>>) -> Seq<Option<Seq<char>>> {
    Seq::new(list.len(), |i: int| Some(list[i]))
}

/// Reads a JSON array with `serde_json::from_slice::<Vec<serde_json::Value>>` and
/// tells its string elements from the others.
///
/// The outcome is named by `spec_json_array_items`: the elements, or an error exactly
/// when the name gives none. How JSON text maps to values is not written out.
#[verifier::external_body]
fn parse_array_items(bytes: &[u8]) -> (r: Result<Vec<Option<String>>, serde_json::Error>)
    ensures
        r matches Ok(v) ==> spec_json_array_items(bytes@) == Some(option_views(v@)),
        r is Err ==> spec_json_array_items(bytes@) is None,
{
    serde_json::from_slice::<Vec<serde_json::Value>>(bytes).map(
        |items| items.into_iter().map(|item| match item {
            serde_json::Value::String(s) => Some(s),
            _ => None,
        }).collect(),
    )
}

/// Writes a list of strings as pretty-printed JSON with `serde_json::to_vec_pretty`.
///
/// The text is named by `spec_json_pretty_list`. Serializing a list of strings does not
/// fail (serde_json fails only when a `Serialize` impl fails or a map key is not a
/// string), so the result is always `Ok`; and serde_json reads the array it wrote back
/// as the same strings, in order.
#[verifier::external_body]
fn pretty_string_list(list: &Vec<String>) -> (r: Result<Vec<u8>, serde_json::Error>)
    ensures
        r is Ok,
        r matches Ok(b) ==> b@ == spec_json_pretty_list(views(list@)),
        r matches Ok(b) ==> spec_json_array_items(b@) == Some(as_string_items(views(list@))),
{
    serde_json::to_vec_pretty(list)
}

/// The string elements of an array, in order.
pub open spec fn string_items(items: Seq<Option<Seq<char>>>) -> Seq<Seq<char>>
    decreases items.len(),
{
    if items.len() == 0 {
        Seq::empty()
    } else {
        let rest = string_items(items.drop_last());
        match items.last() {
            Some(s) => rest.push(s),
            None => rest,
        }
    }
}

/// The project list stored in a file's bytes: the string elements of a JSON array, in
/// order, or no projects when the bytes are not a JSON array.
pub open spec fn stored_list(bytes: Seq<u8>) -> Seq<Seq<char>> {
    match spec_json_array_items(bytes) {
        Some(items) => string_items(items),
        None => Seq::empty(),
    }
}

proof fn lemma_string_items_of_list(list: Seq<Seq<char>>)
    ensures
        string_items(as_string_items(list)) == list,
    decreases list.len(),
{
    if list.len() > 0 {
        lemma_string_items_of_list(list.drop_last());
        assert(as_string_items(list).drop_last() =~= as_string_items(list.drop_last()));
        assert(list.drop_last().push(list.last()) =~= list);
    } else {
        assert(list =~= Seq::<Seq<char>>::empty());
    }
}

/// Reads a saved project list: the string elements of a JSON array, skipping other
/// elements; content that is not a JSON array gives an empty list.
pub fn decode_project_list(bytes: &[u8]) -> (r: Vec<String>)
    ensures
        views(r@) == stored_list(bytes@),
{
    let mut out: Vec<String> = Vec::new();
    match parse_array_items(bytes) {
        Ok(items) => {
            let mut i: usize = 0;
            assert(option_views(items@).take(0) =~= Seq::<Option<Seq<char>>>::empty());
            assert(views(out@) =~= Seq::<Seq<char>>::empty());
            while i < items.len()
                invariant
                    i <= items@.len(),
                    spec_json_array_items(bytes@) == Some(option_views(items@)),
                    views(out@) == string_items(option_views(items@).take(i as int)),
                decreases items@.len() - i,
            {
                let ghost before = out@;
                let ghost prefix = option_views(items@).take(i + 1);
                assert(prefix.drop_last() =~= option_views(items@).take(i as int));
                match &items[i] {
                    Some(s) => {
                        out.push(s.clone());
                        assert(views(out@) =~= views(before).push(s@));
                    },
                    None => {},
                }
                i += 1;
            }
            assert(option_views(items@).take(items@.len() as int) =~= option_views(items@));
            out
        },
        Err(_) => {
            assert(views(out@) =~= Seq::<Seq<char>>::empty());
            out
        },
    }
}

/// The bytes to save a project list as: a pretty-printed JSON array of strings, which
/// reads back as the same list.
pub fn encode_project_list(list: &Vec<String>) -> (r: Vec<u8>)
    ensures
        r@ == spec_json_pretty_list(views(list@)),
        stored_list(r@) == views(list@),
{
    proof {
        lemma_string_items_of_list(views(list@));
    }
    match pretty_string_list(list) {
        Ok(bytes) => bytes,
        Err(_) => Vec::new(),
    }
}

} // verus!

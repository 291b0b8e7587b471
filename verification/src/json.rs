//! JSON values, which the `serde_json` crate provides: the parameters of a
//! query, and the objects that its rows become.
use serde_json::{Map as JsonMap, Value};
use vstd::prelude::*;

verus! {

/// The string that a JSON text stands for, if it stands for a string.
pub uninterp spec fn json_string(text: Seq<char>) -> Option<Seq<char>>;

/// Text that stands for itself between the quotes of a JSON string: it holds
/// neither control characters nor what starts an escape or ends the string.
pub open spec fn is_literal(s: Seq<char>) -> bool {
    forall|i: int| 0 <= i < s.len() ==> #[trigger] s[i] >= ' ' && s[i] != '"' && s[i] != '\\'
}

/// Text in quotes.
pub open spec fn quoted(s: Seq<char>) -> Seq<char> {
    seq!['"'] + s + seq!['"']
}

/// JSON text that starts with something else than a string.
pub open spec fn starts_otherwise(text: Seq<char>) -> bool {
    &&& text.len() > 0
    &&& text[0] != '"'
    &&& text[0] != ' '
    &&& text[0] != '\n'
    &&& text[0] != '\t'
    &&& text[0] != '\r'
}

/// Whether `r` is the string of a JSON text that shows at a glance what it is:
/// literal text in quotes stands for the text, and what does not start with a
/// quote stands for no string.
pub open spec fn reads_plainly(text: Seq<char>, r: Option<String>) -> bool {
    &&& forall|s: Seq<char>|
        text == #[trigger] quoted(s) && is_literal(s) ==> (r matches Some(t) && t@ == s)
    &&& starts_otherwise(text) ==> r is None
}

/// `serde_json::from_str`, for a string. Where the text holds escapes or starts
/// with white space, the result has a name only.
#[verifier::external_body]
pub(crate) fn parse_json_string(text: &str) -> (r: Option<String>)
    ensures
        match r {
            Some(s) => json_string(text@) == Some(s@),
            None => json_string(text@) is None,
        },
        reads_plainly(text@, r),
{
    serde_json::from_str::<String>(text).ok()
}

#[verifier::external_type_specification]
#[verifier::external_body]
pub struct ExValue(Value);

#[verifier::external_type_specification]
#[verifier::external_body]
#[verifier::reject_recursive_types(K)]
#[verifier::reject_recursive_types(V)]
pub struct ExJsonMap<K, V>(JsonMap<K, V>);

/// What a JSON object holds: for each name its value.
pub uninterp spec fn object_fields(o: JsonMap<String, Value>) -> Map<Seq<char>, Value>;

/// `Map::new`: an empty object.
#[verifier::external_body]
pub(crate) fn new_object() -> (r: JsonMap<String, Value>)
    ensures
        object_fields(r).dom() == Set::<Seq<char>>::empty(),
{
    JsonMap::new()
}

/// `Map::insert`: the name has the value, whether it had another before or not.
#[verifier::external_body]
pub(crate) fn insert_field(o: &mut JsonMap<String, Value>, name: String, value: Value)
    ensures
        object_fields(*final(o)) == object_fields(*old(o)).insert(name@, value),
{
    o.insert(name, value);
}

} // verus!

//! TOML documents: what is at a key, and the text there.
use crate::text::opt_text;
use vstd::prelude::*;

verus! {

/// A value of a TOML document.
#[verifier::external_type_specification]
#[verifier::external_body]
pub struct ExTomlValue(toml::Value);

/// Why a text is no TOML document.
#[verifier::external_type_specification]
#[verifier::external_body]
pub struct ExTomlError(toml::de::Error);

/// What a TOML value holds: every path of keys that leads to a value inside it,
/// and the text of that value where it is a string. The empty path leads to the
/// value itself.
pub uninterp spec fn toml_entries(value: toml::Value) -> Map<Seq<Seq<char>>, Option<Seq<char>>>;

/// What the document with this text holds; none where the text is no document.
pub uninterp spec fn toml_document(text: Seq<char>) -> Option<
    Map<Seq<Seq<char>>, Option<Seq<char>>>,
>;

/// What is behind one key.
pub open spec fn behind(entries: Map<Seq<Seq<char>>, Option<Seq<char>>>, key: Seq<char>) -> Map<
    Seq<Seq<char>>,
    Option<Seq<char>>,
> {
    Map::new(
        |path: Seq<Seq<char>>| entries.contains_key(seq![key] + path),
        |path: Seq<Seq<char>>| entries[seq![key] + path],
    )
}

/// `toml::from_str` into a `toml::Value`. It succeeds exactly on the texts that
/// are documents, and the value holds what the document does.
#[verifier::external_body]
pub(crate) fn parse_document(text: &str) -> (r: Result<toml::Value, toml::de::Error>)
    ensures
        match r {
            Ok(value) => toml_document(text@) == Some(toml_entries(value)),
            Err(_) => toml_document(text@) is None,
        },
{
    toml::from_str(text)
}

/// `toml::Value::get` with a string key. It gives the value behind the key, and
/// none where the value is no table or the table has no such key.
#[verifier::external_body]
pub(crate) fn member<'a>(value: &'a toml::Value, key: &str) -> (r: Option<&'a toml::Value>)
    ensures
        match r {
            Some(inner) => toml_entries(*value).contains_key(seq![key@]) && toml_entries(*inner)
                == behind(toml_entries(*value), key@),
            None => !toml_entries(*value).contains_key(seq![key@]),
        },
{
    value.get(key)
}

/// `toml::Value::as_str`. It gives the text of a string, and none for every
/// other value.
#[verifier::external_body]
pub(crate) fn text_in(value: &toml::Value) -> (r: Option<String>)
    ensures
        opt_text(r) == toml_entries(*value)[Seq::<Seq<char>>::empty()],
{
    value.as_str().map(str::to_string)
}

} // verus!

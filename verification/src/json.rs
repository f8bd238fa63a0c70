use vstd::prelude::*;

verus! {

/// The string that a JSON document holds at member `outer`, then member
/// `inner`; `None` when the text is not JSON, when a member is missing or is not
/// an object, or when the value found is not a string.
pub uninterp spec fn json_string_at(text: Seq<char>, outer: Seq<char>, inner: Seq<char>) -> Option<Seq<char>>;

/// Looks up the string at `outer.inner` of a JSON document with `serde_json`
/// (`serde_json::from_str::<serde_json::Value>`, `Value::get` twice,
/// `Value::as_str`). The parsed value is opaque, so the document is taken as
/// text and only the string found leaves; its result is named as a function of
/// the three texts.
#[verifier::external_body]
pub(crate) fn json_string(text: &str, outer: &str, inner: &str) -> (r: Option<String>)
    ensures
        match json_string_at(text@, outer@, inner@) {
            Some(s) => r is Some && r->0@ == s,
            None => r is None,
        },
{
    let doc = serde_json::from_str::<serde_json::Value>(text).ok()?;
    doc.get(outer)?.get(inner)?.as_str().map(|s| s.to_string())
}

/// The non-empty string at `outer.inner` of a JSON document, as the profile
/// files of chromium browsers store `profile.name` and `profile.last_used`.
pub open spec fn spec_nested_text(text: Seq<char>, outer: Seq<char>, inner: Seq<char>) -> Option<Seq<char>> {
    match json_string_at(text, outer, inner) {
        Some(s) => if s.len() > 0 {
            Some(s)
        } else {
            None
        },
        None => None,
    }
}

/// The non-empty string at `outer.inner` of a JSON document.
pub fn nested_text(text: &str, outer: &str, inner: &str) -> (r: Option<String>)
    ensures
        match spec_nested_text(text@, outer@, inner@) {
            Some(s) => r is Some && r->0@ == s,
            None => r is None,
        },
{
    let s = json_string(text, outer, inner)?;
    if s.unicode_len() == 0 {
        None
    } else {
        Some(s)
    }
}

} // verus!

use vstd::prelude::*;

verus! {

/// Whether two paths are equal as `std::path::Path` compares them: component
/// by component, so that repeated separators, a trailing separator and inner
/// `.` components make no difference. The separators are those of the target
/// platform the program is built for.
pub uninterp spec fn same_components(a: Seq<char>, b: Seq<char>) -> bool;

/// Compares two paths as `Path` values (`<std::path::Path as PartialEq>::eq`).
/// Equal texts are equal paths.
#[verifier::external_body]
pub(crate) fn path_eq(a: &str, b: &str) -> (r: bool)
    ensures
        r == same_components(a@, b@),
        a@ == b@ ==> r,
{
    std::path::Path::new(a) == std::path::Path::new(b)
}

} // verus!

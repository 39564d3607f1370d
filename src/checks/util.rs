use vstd::prelude::*;

verus! {

/// `orig` with the `replace` characters from `index` on replaced by `replacement`; when fewer
/// than `replace` characters follow `index`, everything after it is dropped.
pub open spec fn rebuilt(orig: Seq<char>, index: int, replace: int, replacement: Seq<char>) -> Seq<
    char,
> {
    orig.subrange(0, index) + replacement + if index + replace <= orig.len() {
        orig.subrange(index + replace, orig.len() as int)
    } else {
        Seq::empty()
    }
}

/// The views of a list of names.
pub open spec fn names_view(v: Seq<String>) -> Seq<Seq<char>> {
    v.map_values(|x: String| x@)
}

/// Builds [`rebuilt`]`(orig, index, replace, replacement)`; positions count characters.
pub fn rebuild_name(orig: &str, index: usize, replace: usize, replacement: &str) -> (r: String)
    requires
        index <= orig@.len(),
    ensures
        r@ == rebuilt(orig@, index as int, replace as int, replacement@),
{
    let len = orig.unicode_len();
    let before = orig.substring_char(0, index).to_owned();
    let joined = before.concat(replacement);
    if replace <= len - index {
        joined.concat(orig.substring_char(index + replace, len))
    } else {
        joined
    }
}

} // verus!

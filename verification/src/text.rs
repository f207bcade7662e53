use vstd::prelude::*;

verus! {

/// The text in lower case, as `str::to_lowercase` makes it.
pub uninterp spec fn lowercase(text: Seq<char>) -> Seq<char>;

/// Whether `text` ends with `tail`.
pub open spec fn is_suffix(text: Seq<char>, tail: Seq<char>) -> bool {
    tail.len() <= text.len() && text.skip(text.len() - tail.len()) == tail
}

/// The text in lower case: `str::to_lowercase`. The result is a function of
/// the text alone; it is named, not described.
#[verifier::external_body]
pub(crate) fn to_lower(text: &str) -> (r: String)
    ensures
        r@ == lowercase(text@),
{
    text.to_lowercase()
}

/// Whether `text` ends with `tail`: `str::ends_with` with a text as the
/// pattern, which is true where the characters of `tail` are the last
/// characters of `text`.
#[verifier::external_body]
pub(crate) fn ends_with(text: &str, tail: &str) -> (r: bool)
    ensures
        r == is_suffix(text@, tail@),
{
    text.ends_with(tail)
}

/// Whether `name` lies in the domain `suffix`, whatever the case of the two:
/// `name` in lower case ends with `suffix` in lower case.
pub open spec fn within(name: Seq<char>, suffix: Seq<char>) -> bool {
    is_suffix(lowercase(name), lowercase(suffix))
}

/// Whether `name` lies in the domain `suffix`, whatever the case of the two.
pub fn is_within(name: &str, suffix: &str) -> (r: bool)
    ensures
        r == within(name@, suffix@),
{
    let low_name = to_lower(name);
    let low_suffix = to_lower(suffix);
    ends_with(low_name.as_str(), low_suffix.as_str())
}

/// Whether two names are the same, whatever their case.
pub open spec fn same_name(a: Seq<char>, b: Seq<char>) -> bool {
    lowercase(a) == lowercase(b)
}

/// Whether two names are the same, whatever their case.
pub fn is_same_name(a: &str, b: &str) -> (r: bool)
    ensures
        r == same_name(a@, b@),
{
    let low_a = to_lower(a);
    let low_b = to_lower(b);
    low_a == low_b
}

} // verus!

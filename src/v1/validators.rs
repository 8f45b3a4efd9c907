use vstd::prelude::*;
use convert_case::{Case, Casing};

verus! {

#[derive(Debug, Copy, Clone, PartialEq, Eq, Structural)]
pub enum VariantNameValidError {
    PascalCase,
    Pattern,
    MultiplesSegments,
}

pub open spec fn is_ascii_letter(c: char) -> bool {
    ('a' <= c && c <= 'z') || ('A' <= c && c <= 'Z')
}

pub open spec fn is_ascii_letter_or_digit(c: char) -> bool {
    is_ascii_letter(c) || ('0' <= c && c <= '9')
}

/// The form of a variant name: an ASCII letter, then ASCII letters and digits.
pub open spec fn variant_name_form(s: Seq<char>) -> bool {
    &&& s.len() > 0
    &&& is_ascii_letter(s[0])
    &&& forall|i: int| 1 <= i < s.len() ==> is_ascii_letter_or_digit(#[trigger] s[i])
}

/// What convert_case makes of a text in Pascal case.
pub uninterp spec fn pascal_case_of(s: Seq<char>) -> Seq<char>;

/// Relies on regex::Regex::new and Regex::is_match: the pattern
/// `^[a-zA-Z][a-zA-Z0-9]*$` compiles, and it matches exactly the texts made of
/// an ASCII letter followed by ASCII letters and digits.
#[verifier::external_body]
fn regex_is_match(pattern: &str, text: &str) -> (r: bool)
    requires
        pattern@ == "^[a-zA-Z][a-zA-Z0-9]*$"@,
    ensures
        r == variant_name_form(text@),
{
    regex::Regex::new(pattern).unwrap().is_match(text)
}

/// Relies on convert_case's `to_case(Case::Pascal)`: the result depends on the
/// text alone.
#[verifier::external_body]
fn to_pascal_case(text: &str) -> (r: String)
    ensures
        r@ == pascal_case_of(text@),
{
    text.to_case(Case::Pascal)
}

/// Whether two texts are equal.
pub fn str_equal(a: &str, b: &str) -> (r: bool)
    ensures
        r == (a@ == b@),
{
    let n = a.unicode_len();
    if n != b.unicode_len() {
        return false;
    }
    let mut i: usize = 0;
    while i < n
        invariant
            n == a@.len(),
            n == b@.len(),
            i <= n,
            a@.subrange(0, i as int) == b@.subrange(0, i as int),
        decreases n - i,
    {
        if a.get_char(i) != b.get_char(i) {
            return false;
        }
        assert(a@.subrange(0, i + 1) == a@.subrange(0, i as int).push(a@[i as int]));
        assert(b@.subrange(0, i + 1) == b@.subrange(0, i as int).push(b@[i as int]));
        i = i + 1;
    }
    assert(a@ == a@.subrange(0, n as int));
    assert(b@ == b@.subrange(0, n as int));
    true
}

/// The verdict on a variant name, given what it looks like in Pascal case.
pub open spec fn variant_name_verdict(name: Seq<char>, pascal: Seq<char>) -> Result<(), VariantNameValidError> {
    if !variant_name_form(name) {
        Err(VariantNameValidError::Pattern)
    } else if pascal != name {
        Err(VariantNameValidError::PascalCase)
    } else {
        Ok(())
    }
}

/// Judges a variant name whose Pascal-case form is `pascal`.
pub fn check_variant_name(name: &str, pascal: &str) -> (r: Result<(), VariantNameValidError>)
    ensures
        r == variant_name_verdict(name@, pascal@),
{
    if !regex_is_match("^[a-zA-Z][a-zA-Z0-9]*$", name) {
        return Err(VariantNameValidError::Pattern);
    }
    if !str_equal(pascal, name) {
        return Err(VariantNameValidError::PascalCase);
    }
    Ok(())
}

/// A variant name is one ASCII letter followed by ASCII letters and digits
/// (`Pattern` otherwise), and is already in Pascal case (`PascalCase`
/// otherwise).
pub fn is_enum_variant_valid(name: &str) -> (r: Result<(), VariantNameValidError>)
    ensures
        r == variant_name_verdict(name@, pascal_case_of(name@)),
{
    let pascal = to_pascal_case(name);
    check_variant_name(name, pascal.as_str())
}

} // verus!

use vstd::prelude::*;

verus! {

/// The lower-case form of a text, as `str::to_lowercase` gives it.
pub uninterp spec fn lower_of(s: Seq<char>) -> Seq<char>;

/// A text without its leading and trailing white space, as `str::trim` gives it.
pub uninterp spec fn trimmed_of(s: Seq<char>) -> Seq<char>;

/// Relies on `str::to_lowercase`: the lower-case form of a text, which
/// depends on its characters alone.
#[verifier::external_body]
fn lowercase(s: &str) -> (r: String)
    ensures
        r@ == lower_of(s@),
{
    s.to_lowercase()
}

/// Relies on `str::trim`: the text with leading and trailing white space
/// removed, which depends on its characters alone.
#[verifier::external_body]
fn trim(s: &str) -> (r: &str)
    ensures
        r@ == trimmed_of(s@),
{
    s.trim()
}

/// The text from which stored content is embedded: the content in lower case,
/// so that stored and query vectors come from comparably normalized text.
pub fn document_embedding_text(content: &str) -> (r: String)
    ensures
        r@ == lower_of(content@),
{
    lowercase(content)
}

/// The text from which a question is embedded: the question trimmed, then in
/// lower case.
pub fn query_embedding_text(question: &str) -> (r: String)
    ensures
        r@ == lower_of(trimmed_of(question@)),
{
    let t = trim(question);
    lowercase(t)
}

} // verus!

use vstd::prelude::*;

verus! {

/// The lowercase form of a piece of text, as `str::to_lowercase` defines it.
pub uninterp spec fn lower_of(s: Seq<char>) -> Seq<char>;

/// The stem of an English word, as the snowball English stemmer defines it.
pub uninterp spec fn stem_en_of(s: Seq<char>) -> Seq<char>;

/// Relies on `str::to_lowercase`: the result is a deterministic function of
/// the input characters alone, and an empty input gives an empty result.
#[verifier::external_body]
pub(crate) fn lowercase_term(s: &str) -> (r: String)
    ensures
        r@ == lower_of(s@),
        s@.len() == 0 ==> r@.len() == 0,
{
    s.to_lowercase()
}

/// Relies on `rust_stemmers::Stemmer::create` and `Stemmer::stem` with the
/// English snowball algorithm: `create` picks a fixed algorithm function, and
/// `stem` runs it on a buffer holding only the word, so the stem is a
/// deterministic function of the word alone.
#[verifier::external_body]
pub(crate) fn stem_term(s: &str) -> (r: String)
    ensures
        r@ == stem_en_of(s@),
{
    rust_stemmers::Stemmer::create(rust_stemmers::Algorithm::English).stem(s).into_owned()
}

} // verus!

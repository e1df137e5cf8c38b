//! URLs.

use vstd::prelude::*;

verus! {

/// What `url::Url::parse` makes of a text: the serialization of the URL, or the message of the
/// error.
pub uninterp spec fn url_of(text: Seq<char>) -> Result<Seq<char>, Seq<char>>;

/// `url::Url::parse`: the URL by its serialization, the error by its message. The rules by which
/// a text is parsed are left to [`url_of`].
#[verifier::external_body]
pub(crate) fn parse_url(text: &String) -> (parsed: Result<String, String>)
    ensures
        match parsed {
            Ok(url) => url_of(text@) == Ok::<Seq<char>, Seq<char>>(url@),
            Err(message) => url_of(text@) == Err::<Seq<char>, Seq<char>>(message@),
        },
{
    match url::Url::parse(text) {
        Ok(url) => Ok(String::from(url)),
        Err(error) => Err(error.to_string()),
    }
}

} // verus!

use vstd::prelude::*;

verus! {

/// The extension of a path, as `std::path::Path::extension` reads it.
pub uninterp spec fn extension_of(path: Seq<char>) -> Option<Seq<char>>;

/// Relies on `std::path::Path::extension`: what follows the last `.` of the file
/// name, `None` where the name has no such dot past its first character.
#[verifier::external_body]
fn path_extension(path: &str) -> (r: Option<String>)
    ensures
        match r {
            None => extension_of(path@) is None,
            Some(e) => extension_of(path@) == Some(e@),
        },
{
    std::path::Path::new(path).extension().and_then(|x| x.to_str()).map(|x| x.to_owned())
}

/// Lower case of a string, as `str::to_lowercase` gives it.
pub uninterp spec fn lowercase_of(s: Seq<char>) -> Seq<char>;

/// Relies on `str::to_lowercase`: the lower-case mapping of each character.
#[verifier::external_body]
fn lowercase(s: &str) -> (r: String)
    ensures
        r@ == lowercase_of(s@),
        s@.len() == 0 ==> r@.len() == 0,
{
    s.to_lowercase()
}

/// The extension of a path in lower case, which picks the formatter for a file.
pub fn get_extension(path: &str) -> (r: Option<String>)
    ensures
        match r {
            None => extension_of(path@) is None,
            Some(e) => extension_of(path@) is Some && e@ == lowercase_of(extension_of(path@)->0),
        },
{
    match path_extension(path) {
        None => None,
        Some(e) => Some(lowercase(e.as_str())),
    }
}

} // verus!

//! Names: of documents, of result directories, of image files.

use crate::range::{first_index, spec_first};
use crate::strings::{decimal, is_whitespace, spec_decimal, spec_is_whitespace};
use vstd::prelude::*;
use vstd::string::*;

verus! {

/// Whether `char::is_alphanumeric` holds of a character: whether Unicode
/// counts it among the letters or the numbers.
pub uninterp spec fn spec_is_alphanumeric(c: char) -> bool;

/// `char::is_alphanumeric`: the answer depends on the character alone, and
/// is the one that `spec_is_alphanumeric` names.
#[verifier::external_body]
fn is_alphanumeric(c: char) -> (b: bool)
    ensures
        b == spec_is_alphanumeric(c),
{
    c.is_alphanumeric()
}

/// `uuid::Uuid::new_v4` followed by the identifier's `to_string`: a random
/// identifier in its hyphenated form, which is 36 characters long. Nothing is
/// claimed of the characters.
#[verifier::external_body]
fn random_name() -> (s: String)
    ensures
        s@.len() == 36,
{
    uuid::Uuid::new_v4().to_string()
}

/// What a character of a document's name becomes in the name of a directory:
/// letters, digits, hyphens and underscores stay, white space goes, and
/// whatever else there is becomes a hyphen.
pub open spec fn spec_sanitize_char(c: char) -> Option<char> {
    if spec_is_alphanumeric(c) || c == '-' || c == '_' {
        Some(c)
    } else if spec_is_whitespace(c) {
        None
    } else {
        Some('-')
    }
}

/// The first `n` characters of a name, made fit for a directory.
pub open spec fn spec_sanitize(s: Seq<char>, n: int) -> Seq<char>
    decreases n,
{
    if n <= 0 {
        Seq::empty()
    } else {
        match spec_sanitize_char(s[n - 1]) {
            Some(c) => spec_sanitize(s, n - 1).push(c),
            None => spec_sanitize(s, n - 1),
        }
    }
}

/// Decides what becomes of a character once it is known whether it is
/// alphanumeric.
pub fn sanitize_char(c: char, alphanumeric: bool) -> (r: Option<char>)
    ensures
        r == (if alphanumeric || c == '-' || c == '_' {
            Some(c)
        } else if spec_is_whitespace(c) {
            None
        } else {
            Some('-')
        }),
{
    if alphanumeric || c == '-' || c == '_' {
        Some(c)
    } else if is_whitespace(c) {
        None
    } else {
        Some('-')
    }
}

/// A document's name made fit for the name of a directory.
pub fn sanitize_doc_name(doc_name: &str) -> (r: String)
    ensures
        r@ == spec_sanitize(doc_name@, doc_name@.len() as int),
{
    let n: usize = doc_name.unicode_len();
    let mut r: String = String::new();
    let mut i: usize = 0;
    while i < n
        invariant
            i <= n,
            n == doc_name@.len(),
            r@ == spec_sanitize(doc_name@, i as int),
        decreases n - i,
    {
        let c: char = doc_name.get_char(i);
        match sanitize_char(c, is_alphanumeric(c)) {
            Some(kept) => {
                r.push(kept);
            },
            None => {},
        }
        i = i + 1;
    }
    r
}

/// Name of the directory that takes a document's results.
pub open spec fn spec_results_dir_name(doc_name: Seq<char>) -> Seq<char> {
    spec_sanitize(doc_name, doc_name.len() as int) + "-results"@
}

pub fn results_dir_name(doc_name: &str) -> (r: String)
    ensures
        r@ == spec_results_dir_name(doc_name@),
{
    let mut r: String = sanitize_doc_name(doc_name);
    r.append("-results");
    r
}

/// A file's name up to its first dot.
pub open spec fn spec_stem(file_name: Seq<char>) -> Seq<char> {
    file_name.subrange(0, spec_first(file_name, '.'))
}

/// The name of a document: its file's name up to the first dot, or
/// `fallback` where the file has no name.
pub fn doc_name_or(file_name: Option<&str>, fallback: String) -> (r: String)
    ensures
        r@ == (match file_name {
            Some(name) => spec_stem(name@),
            None => fallback@,
        }),
{
    match file_name {
        Some(name) => {
            let dot: usize = first_index(name, '.');
            name.substring_char(0, dot).to_owned()
        },
        None => fallback,
    }
}

/// The name of a document: its file's name up to the first dot, or a fresh
/// random identifier of 36 characters where the file has no name.
pub fn doc_name(file_name: Option<&str>) -> (r: String)
    ensures
        match file_name {
            Some(name) => r@ == spec_stem(name@),
            None => r@.len() == 36,
        },
{
    doc_name_or(file_name, random_name())
}

/// Name of the file that takes the crop of an image of a page.
pub open spec fn spec_crop_file_name(page_id: usize, image_no: usize) -> Seq<char> {
    "page_"@ + spec_decimal(page_id as nat) + "_img_"@ + spec_decimal(image_no as nat) + ".png"@
}

pub fn crop_file_name(page_id: usize, image_no: usize) -> (r: String)
    ensures
        r@ == spec_crop_file_name(page_id, image_no),
{
    let mut r: String = String::from_str("page_");
    r.append(decimal(page_id).as_str());
    r.append("_img_");
    r.append(decimal(image_no).as_str());
    r.append(".png");
    r
}

} // verus!

//! From the path of a request to the path of the asset it names.

use vstd::prelude::*;
use vstd::string::*;

verus! {

/// The document served for a directory.
pub open spec fn index_document() -> Seq<char> {
    "index.html"@
}

/// The request path without its first character, which is the leading slash
/// of every origin-form request target.
pub open spec fn without_leading(request_path: Seq<char>) -> Seq<char> {
    if request_path.len() == 0 {
        request_path
    } else {
        request_path.subrange(1, request_path.len() as int)
    }
}

/// Whether a path names a directory: it is empty or ends in a separator.
pub open spec fn names_directory(path: Seq<char>) -> bool {
    path.len() == 0 || path.last() == '/'
}

/// The asset path that a request path stands for: the leading character is
/// dropped, and a directory gets the index document appended.
pub open spec fn spec_asset_path(request_path: Seq<char>) -> Seq<char> {
    let rest = without_leading(request_path);
    if names_directory(rest) {
        rest + index_document()
    } else {
        rest
    }
}

/// A request for a directory names the same asset as a request for the index
/// document in it.
pub proof fn lemma_directory_names_its_index(request_path: Seq<char>)
    requires
        request_path.len() > 0,
        names_directory(without_leading(request_path)),
    ensures
        spec_asset_path(request_path) == spec_asset_path(request_path + index_document()),
{
    reveal_strlit("index.html");
    assert(index_document().last() != '/');
    assert(without_leading(request_path + index_document()) =~= without_leading(request_path)
        + index_document());
}

/// Computes the asset path of a request path.
pub fn asset_path(request_path: &str) -> (path: String)
    ensures
        path@ == spec_asset_path(request_path@),
{
    let n: usize = request_path.unicode_len();
    let rest: &str = if n == 0 {
        request_path
    } else {
        request_path.substring_char(1, n)
    };
    let m: usize = rest.unicode_len();
    let mut path = String::from_str(rest);
    if m == 0 || rest.get_char(m - 1) == '/' {
        path.append("index.html");
    }
    path
}

} // verus!

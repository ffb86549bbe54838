//! Mime type detection based on the file name.

use crate::text::{lowercase, same_text, split, split_text, texts, to_lowercase};
use vstd::prelude::*;
use vstd::std_specs::iter::IteratorSpec;

verus! {

/// The last two items of `items`, each `None` where `items` is too short.
pub open spec fn last_two_of<T>(items: Seq<T>) -> (Option<T>, Option<T>) {
    if items.len() == 0 {
        (None, None)
    } else if items.len() == 1 {
        (None, Some(items[0]))
    } else {
        (Some(items[items.len() - 2]), Some(items[items.len() - 1]))
    }
}

/// Runs through `iter` and gives the last two items that it yields.
pub fn last_two<T, I: Iterator<Item = T>>(iter: I) -> (r: (Option<T>, Option<T>))
    requires
        iter.obeys_prophetic_iter_laws(),
        iter.decrease() is Some,
    ensures
        r == last_two_of(iter.remaining()),
{
    let ghost all = iter.remaining();
    let mut rest = iter;
    let mut a: Option<T> = None;
    let mut b: Option<T> = None;
    let ghost mut seen: int = 0;
    loop
        invariant
            rest.obeys_prophetic_iter_laws(),
            rest.decrease() is Some,
            all == iter.remaining(),
            0 <= seen <= all.len(),
            rest.remaining() == all.skip(seen),
            (a, b) == last_two_of(all.take(seen)),
        decreases rest.decrease()->0,
    {
        let next = rest.next();
        if next.is_some() {
            proof {
                assert(all.skip(seen)[0] == all[seen]);
                assert(all.skip(seen).drop_first() =~= all.skip(seen + 1));
                assert(all.take(seen + 1) =~= all.take(seen).push(all[seen]));
                seen = seen + 1;
            }
            a = b;
            b = next;
        } else {
            proof {
                assert(all.take(seen) =~= all);
            }
            return (a, b);
        }
    }
}

/// The extension of the file that `path` names: what follows the last `.`
/// in what follows the last `/`. A name without `.` has none.
pub open spec fn extension_of(path: Seq<char>) -> Option<Seq<char>> {
    let parts = split(split(path, '/').last(), '.');
    if parts.len() >= 2 {
        Some(parts.last())
    } else {
        None
    }
}

/// The extension of the file that `path` names.
pub fn get_file_extension(path: &str) -> (r: Option<String>)
    ensures
        r matches Some(ext) ==> extension_of(path@) == Some(ext@),
        r is None ==> extension_of(path@) is None,
{
    let names = split_text(path, '/');
    assert(split(path@, '/').len() >= 1);
    let name = &names[names.len() - 1];
    assert(name@ == texts(names@).last());
    let parts = split_text(name.as_str(), '.');
    assert(split(name@, '.').len() >= 1);
    let n = parts.len();
    if n >= 2 {
        assert(parts@[n - 1]@ == texts(parts@).last());
        Some(parts[n - 1].clone())
    } else {
        None
    }
}

/// The mime type for an extension in lower case. Unknown extensions are
/// taken for plain text.
pub open spec fn mime_of(folded: Seq<char>) -> Seq<char> {
    if folded == "png"@ {
        "image/png"@
    } else if folded == "jpg"@ || folded == "jpeg"@ {
        "image/jpeg"@
    } else if folded == "svg"@ {
        "image/svg+xml"@
    } else if folded == "html"@ {
        "text/html"@
    } else {
        "text/plain"@
    }
}

/// The mime type for the file that `path` names: that of its extension,
/// and plain text for a name without one.
pub open spec fn mime_of_path(path: Seq<char>) -> Seq<char> {
    match extension_of(path) {
        Some(ext) => mime_of(lowercase(ext)),
        None => "text/plain"@,
    }
}

/// Mime types by file name.
pub struct MimeType;

impl MimeType {
    /// The mime type for a file extension, whatever the case of its letters.
    pub fn get_for_extension(ext: &str) -> (r: String)
        ensures
            r@ == mime_of(lowercase(ext@)),
    {
        let folded = to_lowercase(ext);
        MimeType::for_folded(folded.as_str())
    }

    /// The mime type for a file extension that is in lower case.
    pub fn for_folded(folded: &str) -> (r: String)
        ensures
            r@ == mime_of(folded@),
    {
        let found = if same_text(folded, "png") {
            "image/png"
        } else if same_text(folded, "jpg") || same_text(folded, "jpeg") {
            "image/jpeg"
        } else if same_text(folded, "svg") {
            "image/svg+xml"
        } else if same_text(folded, "html") {
            "text/html"
        } else {
            "text/plain"
        };
        found.to_owned()
    }

    /// The mime type for a file, by the extension of its name.
    pub fn get_for_path(path: &str) -> (r: String)
        ensures
            r@ == mime_of_path(path@),
    {
        match get_file_extension(path) {
            Some(ext) => MimeType::get_for_extension(ext.as_str()),
            None => "text/plain".to_owned(),
        }
    }
}

} // verus!

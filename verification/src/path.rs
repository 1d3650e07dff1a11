//! Paths as strings, and the three ways a declaration may write one.

use vstd::prelude::*;
use crate::error::{Error, ErrorView};
use crate::text::starts_with_char;

verus! {

/// Whether `path` is absolute, by the rules of the platform that the
/// library is built for.
pub uninterp spec fn path_is_absolute(path: Seq<char>) -> bool;

/// `tail` adjoined to `base`, by the rules of the platform that the library
/// is built for.
pub uninterp spec fn path_join(base: Seq<char>, tail: Seq<char>) -> Seq<char>;

/// `path` without its final component, where it has one, by the rules of
/// the platform that the library is built for.
pub uninterp spec fn path_parent(path: Seq<char>) -> Option<Seq<char>>;

/// The directory above `path`: its parent, which is always a shorter path.
pub open spec fn parent_of(path: Seq<char>) -> Option<Seq<char>> {
    match path_parent(path) {
        Some(up) => if up.len() < path.len() {
            Some(up)
        } else {
            None
        },
        None => None,
    }
}

/// `std::path::Path::is_absolute`: the answer is a function of the path's
/// text, named [`path_is_absolute`].
#[verifier::external_body]
pub(crate) fn is_absolute(path: &str) -> (absolute: bool)
    ensures
        absolute == path_is_absolute(path@),
{
    std::path::Path::new(path).is_absolute()
}

/// `std::path::Path::join`: the joined path is a function of the two texts,
/// named [`path_join`].
#[verifier::external_body]
pub(crate) fn join_path(base: &str, tail: &str) -> (joined: String)
    ensures
        joined@ == path_join(base@, tail@),
{
    std::path::Path::new(base).join(tail).to_string_lossy().into_owned()
}

/// `std::path::Path::parent`: the parent is a function of the path's text,
/// named [`path_parent`]. It is the path without its final component, so it
/// is shorter than the path.
#[verifier::external_body]
pub(crate) fn parent(path: &str) -> (up: Option<String>)
    ensures
        up matches Some(p) ==> path_parent(path@) == Some(p@) && p@.len() < path@.len(),
        up is None ==> path_parent(path@) is None,
{
    std::path::Path::new(path).parent().map(|p| p.to_string_lossy().into_owned())
}

/// Whether a path is written relative to the home directory.
pub open spec fn is_home_relative(text: Seq<char>) -> bool {
    text.len() > 0 && text[0] == '~'
}

/// The part of a home-relative path that is adjoined to the home directory:
/// what follows a leading `~/`, or the whole text where it does not start so.
pub open spec fn home_tail(text: Seq<char>) -> Seq<char> {
    if text.len() >= 2 && text[0] == '~' && text[1] == '/' {
        text.skip(2)
    } else {
        text
    }
}

/// The message of the error for a home-relative path without a home directory.
pub open spec fn no_home_message() -> Seq<char> {
    "Cannot resolve ~ without HOME"@
}

/// Where a path written in a declaration points, before it is made canonical.
///
/// A text that starts with `~` is taken below `home`; an absolute text stands
/// for itself; any other text is taken below `base`. `None` where the
/// directory it needs is not known.
pub open spec fn anchored(
    text: Seq<char>,
    base: Option<Seq<char>>,
    home: Option<Seq<char>>,
) -> Option<Seq<char>> {
    if is_home_relative(text) {
        match home {
            Some(h) => Some(path_join(h, home_tail(text))),
            None => None,
        }
    } else if path_is_absolute(text) {
        Some(text)
    } else {
        match base {
            Some(b) => Some(path_join(b, text)),
            None => None,
        }
    }
}

/// The part of `text` that is adjoined to the home directory.
pub fn strip_home_prefix(text: &str) -> (tail: &str)
    ensures
        tail@ == home_tail(text@),
{
    let n = text.unicode_len();
    if n >= 2 && text.get_char(0) == '~' && text.get_char(1) == '/' {
        let tail = text.substring_char(2, n);
        proof {
            assert(text@.subrange(2, n as int) =~= text@.skip(2));
        }
        tail
    } else {
        text
    }
}

/// The home-relative path `text` below `home`.
pub fn home_path(text: &str, home: Option<&str>) -> (out: Result<String, Error>)
    ensures
        match out {
            Ok(p) => home matches Some(h) && p@ == path_join(h@, home_tail(text@)),
            Err(e) => home is None && e@ == ErrorView::ValidationFailed(no_home_message()),
        },
{
    match home {
        Some(h) => Ok(join_path(h, strip_home_prefix(text))),
        None => Err(Error::ValidationFailed("Cannot resolve ~ without HOME".to_owned())),
    }
}

/// The path that `text` stands for when relative texts are taken below `base`.
pub fn anchor(text: &str, base: &str, home: Option<&str>) -> (out: Result<String, Error>)
    ensures
        match out {
            Ok(p) => anchored(text@, Some(base@), opt_str(home)) == Some(p@),
            Err(e) => anchored(text@, Some(base@), opt_str(home)) is None && e@
                == ErrorView::ValidationFailed(no_home_message()),
        },
{
    if starts_with_char(text, '~') {
        home_path(text, home)
    } else if is_absolute(text) {
        Ok(text.to_owned())
    } else {
        Ok(join_path(base, text))
    }
}

/// The characters of an optional string slice.
pub open spec fn opt_str(s: Option<&str>) -> Option<Seq<char>> {
    match s {
        Some(t) => Some(t@),
        None => None,
    }
}

} // verus!

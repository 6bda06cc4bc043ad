//! Resolution of snapshot file paths.

use crate::text::chars_of;
use vstd::prelude::*;

verus! {

/// File name of the snapshot when no path is given.
pub open spec fn default_snapshot_name() -> Seq<char> {
    "cpu_monitor.json"@
}

/// What joining path `rest` onto directory `base` gives.
pub uninterp spec fn path_join(base: Seq<char>, rest: Seq<char>) -> Seq<char>;

/// Relies on `std::path::Path::join`: the joined path depends on the two
/// paths alone.
#[verifier::external_body]
fn join_path(base: &str, rest: &str) -> (r: String)
    ensures
        r@ == path_join(base@, rest@),
{
    std::path::Path::new(base).join(rest).to_string_lossy().into_owned()
}

/// Whether a path is relative to the home directory (`~/...`).
pub open spec fn is_home_relative(p: Seq<char>) -> bool {
    p.len() >= 2 && p[0] == '~' && p[1] == '/'
}

/// Where a snapshot path points: `~/rest` under the home directory, the empty
/// path to the default file in the documents directory, anything else to
/// itself. `None` where the directory it needs is unknown.
pub open spec fn resolved_path(
    p: Seq<char>,
    home: Option<Seq<char>>,
    documents: Option<Seq<char>>,
) -> Option<Seq<char>> {
    if is_home_relative(p) {
        match home {
            Some(h) => Some(path_join(h, p.skip(2))),
            None => None,
        }
    } else if p.len() == 0 {
        match documents {
            Some(d) => Some(path_join(d, default_snapshot_name())),
            None => None,
        }
    } else {
        Some(p)
    }
}

pub open spec fn opt_view(o: Option<String>) -> Option<Seq<char>> {
    match o {
        Some(s) => Some(s@),
        None => None,
    }
}

/// Resolves `path` given the home and documents directories.
pub fn resolve_path(path: &str, home: Option<String>, documents: Option<String>) -> (r: Option<
    String,
>)
    ensures
        opt_view(r) == resolved_path(path@, opt_view(home), opt_view(documents)),
{
    let cs = chars_of(path);
    if cs.len() >= 2 && cs[0] == '~' && cs[1] == '/' {
        match home {
            Some(h) => {
                let rest = path.substring_char(2, cs.len());
                assert(path@.skip(2) =~= path@.subrange(2, path@.len() as int));
                Some(join_path(h.as_str(), rest))
            },
            None => None,
        }
    } else if cs.len() == 0 {
        match documents {
            Some(d) => Some(join_path(d.as_str(), "cpu_monitor.json")),
            None => None,
        }
    } else {
        Some(path.to_owned())
    }
}

/// The user directory a snapshot path is resolved against.
#[derive(PartialEq, Eq, Structural, Clone, Copy, Debug)]
pub enum PathBase {
    /// `~/...`: the home directory.
    Home,
    /// The empty path: the documents directory.
    Documents,
    /// Any other path stands for itself.
    Itself,
}

pub open spec fn path_base(p: Seq<char>) -> PathBase {
    if is_home_relative(p) {
        PathBase::Home
    } else if p.len() == 0 {
        PathBase::Documents
    } else {
        PathBase::Itself
    }
}

/// Which directory `path` needs, so that only that one is looked up.
pub fn path_base_of(path: &str) -> (r: PathBase)
    ensures
        r == path_base(path@),
{
    let cs = chars_of(path);
    if cs.len() >= 2 && cs[0] == '~' && cs[1] == '/' {
        PathBase::Home
    } else if cs.len() == 0 {
        PathBase::Documents
    } else {
        PathBase::Itself
    }
}

/// Resolution of a snapshot path against the user's directories.
pub trait ParsePath {
    /// The characters of the path.
    spec fn path_text(&self) -> Seq<char>;

    /// The path that this one points to, given the home and documents
    /// directories; `None` where the directory it needs is not given.
    fn parse_path(&self, home: Option<String>, documents: Option<String>) -> (r: Option<String>)
        ensures
            opt_view(r) == resolved_path(self.path_text(), opt_view(home), opt_view(documents)),
    ;
}

impl ParsePath for String {
    open spec fn path_text(&self) -> Seq<char> {
        self@
    }

    fn parse_path(&self, home: Option<String>, documents: Option<String>) -> (r: Option<String>) {
        resolve_path(self.as_str(), home, documents)
    }
}

} // verus!

//! Directory listing with Git status, icons and several output formats.
//!
//! [`LisBuilder`] configures a [`Lis`], which decides how the directory is
//! walked and how each walked path is named; [`entry`] builds and orders the
//! entries, [`git`] gives their Git status letters and [`display`] writes them.
pub mod args;
pub mod display;
pub mod entry;
pub mod git;
pub mod paths;
pub mod text;
pub mod time;

use vstd::prelude::*;
use crate::paths::{path_strip_prefix, paths_equal, same_path, stripped_prefix};

verus! {

/// The configuration of a directory listing.
pub struct Lis {
    /// The directory to list.
    pub path: String,
    /// Whether subdirectories are listed too.
    pub recursive: bool,
    /// Whether hidden entries are listed, `.gitignore` still respected.
    pub all: bool,
    /// Whether all entries are listed, `.gitignore` ignored.
    pub whole_all: bool,
}

/// A builder for a [`Lis`].
pub struct LisBuilder {
    /// Whether subdirectories are listed too.
    pub recursive: bool,
    /// Whether hidden entries are listed, `.gitignore` still respected.
    pub all: bool,
    /// Whether all entries are listed, `.gitignore` ignored.
    pub whole_all: bool,
}

/// How the directory walk is to be set up.
#[derive(Clone, Copy, Debug, PartialEq, Eq, Structural)]
pub struct WalkSettings {
    /// Whether hidden entries are skipped.
    pub hidden: bool,
    /// Whether `.gitignore` files are respected.
    pub git_ignore: bool,
    /// How deep the walk goes; no limit where `None`.
    pub max_depth: Option<usize>,
}

impl LisBuilder {
    /// A builder with every option off.
    pub fn new() -> (b: LisBuilder)
        ensures
            !b.recursive && !b.all && !b.whole_all,
    {
        LisBuilder { recursive: false, all: false, whole_all: false }
    }

    /// Sets whether subdirectories are listed too.
    pub fn recursive(self, recursive: bool) -> (b: LisBuilder)
        ensures
            b.recursive == recursive,
            b.all == self.all,
            b.whole_all == self.whole_all,
    {
        LisBuilder { recursive, ..self }
    }

    /// Sets whether hidden entries are listed while `.gitignore` is respected.
    pub fn all(self, all: bool) -> (b: LisBuilder)
        ensures
            b.all == all,
            b.recursive == self.recursive,
            b.whole_all == self.whole_all,
    {
        LisBuilder { all, ..self }
    }

    /// Sets whether all entries are listed, ignoring `.gitignore`.
    pub fn whole_all(self, whole_all: bool) -> (b: LisBuilder)
        ensures
            b.whole_all == whole_all,
            b.recursive == self.recursive,
            b.all == self.all,
    {
        LisBuilder { whole_all, ..self }
    }

    /// The listing of `path` with the options set so far.
    pub fn build(self, path: &str) -> (l: Lis)
        ensures
            l.path@ == path@,
            l.recursive == self.recursive,
            l.all == self.all,
            l.whole_all == self.whole_all,
    {
        Lis {
            path: path.to_string(),
            recursive: self.recursive,
            all: self.all,
            whole_all: self.whole_all,
        }
    }
}

/// The name under which a walked path is listed, given what `Path` says of
/// it: in a recursive listing its path below the listed directory (`stripped`;
/// the directory's own path where that is empty, the walked file name where
/// it is not below); otherwise its file name, and nothing for the listed
/// directory itself (`is_root`).
pub open spec fn name_for(lis: Lis, stripped: Option<Seq<char>>, is_root: bool, file_name: Seq<char>) -> Option<Seq<char>> {
    if lis.recursive {
        match stripped {
            Some(rest) => Some(if rest.len() == 0 { lis.path@ } else { rest }),
            None => Some(file_name),
        }
    } else if is_root {
        None
    } else {
        Some(file_name)
    }
}

/// The name under which the walked `path` is listed.
pub open spec fn display_name(lis: Lis, path: Seq<char>, file_name: Seq<char>) -> Option<Seq<char>> {
    name_for(lis, stripped_prefix(path, lis.path@), same_path(path, lis.path@), file_name)
}

impl Lis {
    /// The listing of `path` with every option off.
    pub fn new(path: &str) -> (l: Lis)
        ensures
            l.path@ == path@,
            !l.recursive && !l.all && !l.whole_all,
    {
        LisBuilder::new().build(path)
    }

    /// How to walk: hidden entries skipped unless `all` or `whole_all`,
    /// `.gitignore` respected unless `whole_all`, one level unless `recursive`.
    pub fn walk_settings(&self) -> (w: WalkSettings)
        ensures
            w.hidden == (!self.all && !self.whole_all),
            w.git_ignore == !self.whole_all,
            w.max_depth == (if self.recursive { None } else { Some(1usize) }),
    {
        WalkSettings {
            hidden: !self.all && !self.whole_all,
            git_ignore: !self.whole_all,
            max_depth: if self.recursive { None } else { Some(1) },
        }
    }

    /// The name under which a walked path is listed, from its remainder below
    /// the listed directory (`stripped`, read in recursive listings), whether
    /// it is the listed directory (`is_root`, read otherwise) and its file name.
    pub fn name_from_parts(&self, stripped: Option<String>, is_root: bool, file_name: &str) -> (r: Option<String>)
        ensures
            match r {
                Some(n) => name_for(*self, match stripped {
                    Some(s) => Some(s@),
                    None => None,
                }, is_root, file_name@) == Some(n@),
                None => name_for(*self, match stripped {
                    Some(s) => Some(s@),
                    None => None,
                }, is_root, file_name@) is None,
            },
    {
        if self.recursive {
            match stripped {
                Some(rest) => {
                    if rest.as_str().is_empty() {
                        Some(self.path.clone())
                    } else {
                        Some(rest)
                    }
                },
                None => Some(file_name.to_string()),
            }
        } else if is_root {
            None
        } else {
            Some(file_name.to_string())
        }
    }

    /// The name under which the walked `path`, whose file name the walk gave
    /// as `file_name`, is listed; `None` where it is not listed.
    pub fn get_display_name(&self, path: &str, file_name: &str) -> (r: Option<String>)
        ensures
            match r {
                Some(n) => display_name(*self, path@, file_name@) == Some(n@),
                None => display_name(*self, path@, file_name@) is None,
            },
            path@ == self.path@ && !self.recursive ==> r is None,
            path@ == self.path@ && self.recursive ==> r is Some && r.unwrap()@ == self.path@,
    {
        if self.recursive {
            let stripped = path_strip_prefix(path, self.path.as_str());
            self.name_from_parts(stripped, false, file_name)
        } else {
            let is_root = paths_equal(path, self.path.as_str());
            self.name_from_parts(None, is_root, file_name)
        }
    }
}

} // verus!

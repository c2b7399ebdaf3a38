//! Remembered input file and output folder choices.
//!
//! The surrounding application asks the user for paths; this cache decides
//! when a fresh request is needed and which path a later step uses.  Paths
//! are plain strings here; a freshly chosen path is handed in through the
//! `chosen` parameter.

use crate::text::copy_opt_string;
use crate::text::opt_str_view;
use crate::text::str_chars;
use vstd::prelude::*;
use vstd::string::StrSliceExecFns;
use vstd::string::StringExecFns;

verus! {

/// A path separator, on either family of platforms.
pub open spec fn is_separator(c: char) -> bool {
    c == '/' || c == '\\'
}

/// The given text without its trailing run of separators.
pub open spec fn without_trailing_separators(p: Seq<char>) -> Seq<char>
    decreases p.len(),
{
    if p.len() > 0 && is_separator(p.last()) {
        without_trailing_separators(p.drop_last())
    } else {
        p
    }
}

/// The given text without its trailing run of non-separators (its last
/// path component).
pub open spec fn without_last_component(p: Seq<char>) -> Seq<char>
    decreases p.len(),
{
    if p.len() > 0 && !is_separator(p.last()) {
        without_last_component(p.drop_last())
    } else {
        p
    }
}

/// The folder part of a path, as the platform's path type reads it: the
/// path without its last component and the separators before it, where
/// trailing separators do not count as a component.  A bare file name
/// has the empty folder; a file directly under the root keeps the root;
/// the empty path and a bare root have no folder at all.
pub open spec fn parent_dir(path: Seq<char>) -> Option<Seq<char>> {
    let trimmed = without_trailing_separators(path);
    if path.len() == 0 || trimmed.len() == 0 {
        None
    } else {
        let head = without_last_component(trimmed);
        let parent = without_trailing_separators(head);
        if parent.len() == 0 && head.len() > 0 {
            Some(head)
        } else {
            Some(parent)
        }
    }
}

/// The chosen input file and output folder, kept between requests.
pub struct FileCache {
    pub input_file: Option<String>,
    pub output_folder: Option<String>,
}

impl Default for FileCache {
    /// An empty cache: nothing chosen yet.
    fn default() -> (r: FileCache)
        ensures
            r.input_file is None,
            r.output_folder is None,
    {
        FileCache { input_file: None, output_folder: None }
    }
}

impl FileCache {
    /// Remembers a freshly requested input file choice — or the lack of
    /// one — and returns it.
    pub fn request_input_file(&mut self, chosen: Option<String>) -> (r: Option<String>)
        ensures
            opt_str_view(final(self).input_file) == opt_str_view(chosen),
            opt_str_view(final(self).output_folder) == opt_str_view(old(self).output_folder),
            opt_str_view(r) == opt_str_view(chosen),
    {
        self.input_file = chosen;
        copy_opt_string(&self.input_file)
    }

    /// The input file to work on: the cached one when there is one, else
    /// the freshly chosen one, which is cached in turn.
    pub fn get_input_file(&mut self, chosen: Option<String>) -> (r: Option<String>)
        ensures
            opt_str_view(final(self).output_folder) == opt_str_view(old(self).output_folder),
            old(self).input_file is Some ==> {
                &&& opt_str_view(final(self).input_file) == opt_str_view(old(self).input_file)
                &&& opt_str_view(r) == opt_str_view(old(self).input_file)
            },
            old(self).input_file is None ==> {
                &&& opt_str_view(final(self).input_file) == opt_str_view(chosen)
                &&& opt_str_view(r) == opt_str_view(chosen)
            },
    {
        if self.input_file.is_none() {
            self.request_input_file(chosen)
        } else {
            copy_opt_string(&self.input_file)
        }
    }

    /// The folder holding the cached input file: its path without the
    /// last component, or nothing when no file is cached or the path is
    /// a bare root.
    pub fn get_input_file_folder(&self) -> (r: Option<String>)
        ensures
            self.input_file is None ==> r is None,
            self.input_file matches Some(f) ==> opt_str_view(r) == parent_dir(f@),
    {
        match &self.input_file {
            Some(input_file) => {
                let cs = str_chars(input_file.as_str());
                let n = cs.len();
                if n == 0 {
                    return None;
                }
                proof {
                    assert(input_file@.take(n as int) =~= input_file@);
                }
                let mut t: usize = n;
                while t > 0 && is_separator_char(cs[t - 1])
                    invariant
                        t <= n,
                        n == cs@.len(),
                        cs@ == input_file@,
                        without_trailing_separators(input_file@) == without_trailing_separators(
                            input_file@.take(t as int),
                        ),
                    decreases t,
                {
                    proof {
                        assert(input_file@.take(t as int).drop_last() =~= input_file@.take(
                            t as int - 1,
                        ));
                    }
                    t = t - 1;
                }
                proof {
                    if t > 0 {
                        assert(input_file@.take(t as int).last() == input_file@[t as int - 1]);
                    } else {
                        assert(input_file@.take(0int) =~= Seq::<char>::empty());
                    }
                    assert(without_trailing_separators(input_file@) == input_file@.take(t as int));
                }
                if t == 0 {
                    return None;
                }
                let mut h: usize = t;
                while h > 0 && !is_separator_char(cs[h - 1])
                    invariant
                        h <= t <= n,
                        n == cs@.len(),
                        cs@ == input_file@,
                        without_last_component(input_file@.take(t as int))
                            == without_last_component(input_file@.take(h as int)),
                    decreases h,
                {
                    proof {
                        assert(input_file@.take(h as int).drop_last() =~= input_file@.take(
                            h as int - 1,
                        ));
                    }
                    h = h - 1;
                }
                proof {
                    if h > 0 {
                        assert(input_file@.take(h as int).last() == input_file@[h as int - 1]);
                    } else {
                        assert(input_file@.take(0int) =~= Seq::<char>::empty());
                    }
                    assert(without_last_component(input_file@.take(t as int)) == input_file@.take(
                        h as int,
                    ));
                }
                let mut p: usize = h;
                while p > 0 && is_separator_char(cs[p - 1])
                    invariant
                        p <= h <= n,
                        n == cs@.len(),
                        cs@ == input_file@,
                        without_trailing_separators(input_file@.take(h as int))
                            == without_trailing_separators(input_file@.take(p as int)),
                    decreases p,
                {
                    proof {
                        assert(input_file@.take(p as int).drop_last() =~= input_file@.take(
                            p as int - 1,
                        ));
                    }
                    p = p - 1;
                }
                proof {
                    if p > 0 {
                        assert(input_file@.take(p as int).last() == input_file@[p as int - 1]);
                    } else {
                        assert(input_file@.take(0int) =~= Seq::<char>::empty());
                    }
                    assert(without_trailing_separators(input_file@.take(h as int))
                        == input_file@.take(p as int));
                }
                let end = if p == 0 && h > 0 {
                    h
                } else {
                    p
                };
                let parent = input_file.as_str().substring_char(0, end);
                proof {
                    assert(input_file@.subrange(0int, end as int) =~= input_file@.take(end as int));
                }
                Some(parent.to_owned())
            },
            None => None,
        }
    }

    /// Remembers a freshly requested output folder choice — or the lack
    /// of one — and returns it.
    pub fn request_output_folder(&mut self, chosen: Option<String>) -> (r: Option<String>)
        ensures
            opt_str_view(final(self).output_folder) == opt_str_view(chosen),
            opt_str_view(final(self).input_file) == opt_str_view(old(self).input_file),
            opt_str_view(r) == opt_str_view(chosen),
    {
        self.output_folder = chosen;
        copy_opt_string(&self.output_folder)
    }

    /// The output folder to write to: the cached one when there is one,
    /// else the freshly chosen one, which is cached in turn.
    pub fn get_output_folder(&mut self, chosen: Option<String>) -> (r: Option<String>)
        ensures
            opt_str_view(final(self).input_file) == opt_str_view(old(self).input_file),
            old(self).output_folder is Some ==> {
                &&& opt_str_view(final(self).output_folder) == opt_str_view(
                    old(self).output_folder,
                )
                &&& opt_str_view(r) == opt_str_view(old(self).output_folder)
            },
            old(self).output_folder is None ==> {
                &&& opt_str_view(final(self).output_folder) == opt_str_view(chosen)
                &&& opt_str_view(r) == opt_str_view(chosen)
            },
    {
        if self.output_folder.is_none() {
            self.request_output_folder(chosen)
        } else {
            copy_opt_string(&self.output_folder)
        }
    }
}

/// Exec check for a path separator.
pub fn is_separator_char(c: char) -> (r: bool)
    ensures
        r == is_separator(c),
{
    c == '/' || c == '\\'
}

} // verus!

use vstd::prelude::*;
use crate::ast::Statement;

verus! {

/// What looking up an import gave: the canonical path of the file, or the
/// reason the lookup failed.
pub struct Resolution {
    pub directory: String,
    pub path: String,
    pub found: Result<String, String>,
}

/// What loading a file gave.
pub enum Contents {
    /// The file's parsed program.
    Program(Vec<Statement>),
    /// The file could not be read, for this reason.
    Unreadable(String),
    /// The file's text could not be parsed, for this reason.
    Unparsable(String),
}

/// A file that was looked up, under its canonical path.
pub struct SourceFile {
    pub path: String,
    /// The directory that the file's own imports are resolved from.
    pub directory: String,
    pub contents: Contents,
}

/// What is known of the file system: the imports looked up so far and the
/// files loaded so far. When an entry occurs twice, the later one counts.
pub struct Sources {
    pub resolutions: Vec<Resolution>,
    pub files: Vec<SourceFile>,
}

/// The index of the last `/` in `p`, or -1 when there is none.
pub open spec fn last_slash(p: Seq<char>) -> int
    decreases p.len(),
{
    if p.len() == 0 {
        -1
    } else if p.last() == '/' {
        p.len() - 1
    } else {
        last_slash(p.drop_last())
    }
}

/// The directory holding the file at canonical path `p`: everything before
/// the last `/`, or `/` itself for a file at the root.
pub open spec fn directory_of(p: Seq<char>) -> Seq<char> {
    let k = last_slash(p);
    if k < 0 {
        Seq::empty()
    } else if k == 0 {
        seq!['/']
    } else {
        p.subrange(0, k)
    }
}

/// The last lookup of `path` from `directory`.
pub open spec fn find_resolution(rs: Seq<Resolution>, directory: Seq<char>, path: Seq<char>) -> Option<
    Resolution,
>
    decreases rs.len(),
{
    if rs.len() == 0 {
        None
    } else if rs.last().directory@ == directory && rs.last().path@ == path {
        Some(rs.last())
    } else {
        find_resolution(rs.drop_last(), directory, path)
    }
}

/// The last file loaded under canonical path `path`.
pub open spec fn find_file(fs: Seq<SourceFile>, path: Seq<char>) -> Option<SourceFile>
    decreases fs.len(),
{
    if fs.len() == 0 {
        None
    } else if fs.last().path@ == path {
        Some(fs.last())
    } else {
        find_file(fs.drop_last(), path)
    }
}

/// The directory holding the file at canonical path `path`.
pub fn parent_directory(path: &str) -> (r: String)
    ensures
        r@ == directory_of(path@),
{
    let n = path.unicode_len();
    let mut i: usize = n;
    assert(path@.subrange(0, n as int) =~= path@);
    while i > 0 && path.get_char(i - 1) != '/'
        invariant
            i <= n,
            n == path@.len(),
            last_slash(path@) == last_slash(path@.subrange(0, i as int)),
        decreases i,
    {
        assert(path@.subrange(0, i as int).drop_last() =~= path@.subrange(0, i as int - 1));
        i = i - 1;
    }
    assert(path@.subrange(0, n as int) =~= path@);
    if i == 0 {
        assert(last_slash(path@.subrange(0, 0)) == -1);
        String::new()
    } else if i == 1 {
        proof { reveal_strlit("/"); }
        String::from_str("/")
    } else {
        String::from_str(path.substring_char(0, i - 1))
    }
}

impl Sources {
    /// A table that knows nothing yet.
    pub fn new() -> (r: Sources)
        ensures
            r.resolutions@.len() == 0,
            r.files@.len() == 0,
    {
        Sources { resolutions: Vec::new(), files: Vec::new() }
    }

    /// Records what looking up `path` from `directory` gave.
    pub fn add_resolution(&mut self, directory: String, path: String, found: Result<String, String>)
        ensures
            final(self).resolutions@ == old(self).resolutions@.push(
                Resolution { directory, path, found },
            ),
            final(self).files@ == old(self).files@,
    {
        self.resolutions.push(Resolution { directory, path, found });
    }

    /// Records what loading the file at canonical path `path` gave; its
    /// imports will be resolved from the directory that holds it.
    pub fn add_file(&mut self, path: String, contents: Contents)
        ensures
            final(self).resolutions@ == old(self).resolutions@,
            final(self).files@.len() == old(self).files@.len() + 1,
            final(self).files@.drop_last() == old(self).files@,
            final(self).files@.last().path == path,
            final(self).files@.last().directory@ == directory_of(path@),
            final(self).files@.last().contents == contents,
    {
        let directory = parent_directory(path.as_str());
        self.files.push(SourceFile { path, directory, contents });
        assert(self.files@.drop_last() =~= old(self).files@);
    }

    /// The last lookup of `path` from `directory`, if any.
    pub fn resolution(&self, directory: &String, path: &String) -> (r: Option<&Resolution>)
        ensures
            match r {
                Some(x) => find_resolution(self.resolutions@, directory@, path@) == Some(*x),
                None => find_resolution(self.resolutions@, directory@, path@) is None,
            },
    {
        let mut i: usize = self.resolutions.len();
        assert(self.resolutions@.subrange(0, i as int) =~= self.resolutions@);
        while i > 0
            invariant
                i <= self.resolutions@.len(),
                find_resolution(self.resolutions@, directory@, path@) == find_resolution(
                    self.resolutions@.subrange(0, i as int),
                    directory@,
                    path@,
                ),
            decreases i,
        {
            let ghost prefix = self.resolutions@.subrange(0, i as int);
            assert(prefix.drop_last() =~= self.resolutions@.subrange(0, i as int - 1));
            let r = &self.resolutions[i - 1];
            if r.directory == *directory && r.path == *path {
                return Some(r);
            }
            i = i - 1;
        }
        None
    }

    /// The last file loaded under canonical path `path`, if any.
    pub fn file(&self, path: &String) -> (r: Option<&SourceFile>)
        ensures
            match r {
                Some(x) => find_file(self.files@, path@) == Some(*x),
                None => find_file(self.files@, path@) is None,
            },
    {
        let mut i: usize = self.files.len();
        assert(self.files@.subrange(0, i as int) =~= self.files@);
        while i > 0
            invariant
                i <= self.files@.len(),
                find_file(self.files@, path@) == find_file(self.files@.subrange(0, i as int), path@),
            decreases i,
        {
            let ghost prefix = self.files@.subrange(0, i as int);
            assert(prefix.drop_last() =~= self.files@.subrange(0, i as int - 1));
            let f = &self.files[i - 1];
            if f.path == *path {
                return Some(f);
            }
            i = i - 1;
        }
        None
    }
}

} // verus!

//! Addressing for a filesystem-backed store: relative paths made of
//! `/`-separated components, and the store's base-directory bookkeeping.
//! The actual file reads, writes and directory listings are I/O and live
//! with the program embedding the library.

use vstd::prelude::*;
use vstd::string::StrSliceExecFns;
use vstd::string::StringExecFns;

use crate::address::Address;
use crate::address::PathAddress;
use crate::address::SubAddress;

verus! {

/// Errors of the filesystem store: besides its own diagnoses, the
/// embedding program folds I/O and decoding failures into these variants
/// as messages.
#[derive(Debug, PartialEq, Eq)]
pub enum FileStoreError {
    SomeError(String),
    StdIoError(String),
    FromUtf8Error(String),
    UnsupportedFeature(String),
}

/// A relative path inside the store's base directory, kept as
/// `/`-separated text.
#[derive(Debug, PartialEq, Eq)]
pub struct RelativePath(pub String);

/// A relative path known to denote a file (a leaf of the directory tree).
#[derive(Debug, PartialEq, Eq)]
pub struct FilePath(pub RelativePath);

impl View for RelativePath {
    type V = Seq<char>;

    open spec fn view(&self) -> Seq<char> {
        self.0@
    }
}

impl View for FilePath {
    type V = Seq<char>;

    open spec fn view(&self) -> Seq<char> {
        self.0@
    }
}

impl Clone for RelativePath {
    fn clone(&self) -> (res: Self)
        ensures
            res@ == self@,
    {
        RelativePath(self.0.clone())
    }
}

impl Clone for FilePath {
    fn clone(&self) -> (res: Self)
        ensures
            res@ == self@,
    {
        FilePath(self.0.clone())
    }
}

/// The index of the first `'/'` in `s`, or `-1` if there is none.
pub open spec fn first_slash(s: Seq<char>) -> int
    decreases s.len(),
{
    if s.len() == 0 {
        -1
    } else if s[0] == '/' {
        0
    } else if first_slash(s.drop_first()) < 0 {
        -1
    } else {
        1 + first_slash(s.drop_first())
    }
}

pub proof fn lemma_first_slash(s: Seq<char>)
    ensures
        -1 <= first_slash(s) < s.len(),
        first_slash(s) >= 0 ==> s[first_slash(s)] == '/',
        forall|k: int| 0 <= k < first_slash(s) ==> s[k] != '/',
        first_slash(s) < 0 ==> forall|k: int| 0 <= k < s.len() ==> s[k] != '/',
    decreases s.len(),
{
    if s.len() > 0 && s[0] != '/' {
        lemma_first_slash(s.drop_first());
        assert(forall|k: int| 1 <= k < s.len() ==> s[k] == s.drop_first()[k - 1]);
    }
}

/// The `/`-separated components of a path string; the empty string has
/// none.
pub open spec fn split_slash(s: Seq<char>) -> Seq<Seq<char>>
    decreases s.len(),
    via split_slash_decreases
{
    if s.len() == 0 {
        Seq::empty()
    } else {
        let d = first_slash(s);
        if d < 0 {
            seq![s]
        } else {
            seq![s.take(d)] + split_slash(s.skip(d + 1))
        }
    }
}

#[via_fn]
proof fn split_slash_decreases(s: Seq<char>) {
    lemma_first_slash(s);
}

/// Joining path text: components of the right-hand side are appended after
/// a separator, except onto an empty left-hand side.
pub open spec fn join_path(a: Seq<char>, b: Seq<char>) -> Seq<char> {
    if a.len() == 0 {
        b
    } else {
        a + seq!['/'] + b
    }
}

impl RelativePath {
    /// The path's text.
    pub fn path_str(&self) -> (r: &str)
        ensures
            r@ == self@,
    {
        self.0.as_str()
    }

    /// Joins `other` onto this path, in place.
    fn join_onto(self, other: &str) -> (r: Self)
        ensures
            r@ == join_path(self@, other@),
    {
        if self.0.as_str().unicode_len() == 0 {
            RelativePath(other.to_owned())
        } else {
            proof {
                reveal_strlit("/");
            }
            let mut s: String = self.0;
            s.append("/");
            s.append(other);
            proof {
                assert(s@ =~= join_path(self@, other@));
            }
            RelativePath(s)
        }
    }
}

impl Address for RelativePath {
    open spec fn own_name_spec(&self) -> Seq<char> {
        {
            let parts = split_slash(self@);
            if parts.len() == 0 {
                Seq::empty()
            } else {
                parts.last()
            }
        }
    }

    open spec fn as_parts_spec(&self) -> Seq<Seq<char>> {
        split_slash(self@)
    }

    /// The last path component (the filename inside its directory).
    #[verifier::loop_isolation(false)]
    fn own_name(&self) -> (r: String) {
        let parts: Vec<String> = self.as_parts();
        match parts.last() {
            Some(s) => s.clone(),
            None => String::new(),
        }
    }

    /// The `/`-separated components, in order.
    #[verifier::loop_isolation(false)]
    fn as_parts(&self) -> (r: Vec<String>) {
        let s: &str = self.0.as_str();
        let n: usize = s.unicode_len();
        let mut parts: Vec<String> = Vec::new();
        let mut cs: usize = 0;
        proof {
            assert(self@.skip(0) =~= self@);
            assert(Seq::new(parts@.len(), |i: int| parts@[i]@) =~= Seq::<Seq<char>>::empty());
        }
        loop
            invariant
                cs <= n,
                split_slash(self@) =~= Seq::new(parts@.len(), |i: int| parts@[i]@) + split_slash(
                    self@.skip(cs as int),
                ),
            decreases n - cs + 1,
        {
            let ghost sofar = Seq::new(parts@.len(), |i: int| parts@[i]@);
            let ghost suffix = self@.skip(cs as int);
            if cs == n {
                proof {
                    assert(suffix =~= Seq::<char>::empty());
                    assert(Seq::new(parts@.len(), |i: int| parts@[i]@) =~= split_slash(self@));
                }
                return parts;
            }
            let mut e: usize = cs;
            while e < n && s.get_char(e) != '/'
                invariant
                    cs <= e <= n,
                    forall|k: int| cs <= k < e ==> self@[k] != '/',
                decreases n - e,
            {
                e = e + 1;
            }
            proof {
                assert(forall|m: int| 0 <= m < suffix.len() ==> suffix[m] == self@[cs + m]);
                lemma_first_slash(suffix);
                if e < n {
                    assert(suffix[e - cs as int] == '/');
                    if first_slash(suffix) < 0 {
                        assert(false);
                    } else if first_slash(suffix) < e - cs {
                        assert(suffix[first_slash(suffix)] == self@[cs + first_slash(suffix)]);
                        assert(false);
                    } else if first_slash(suffix) > e - cs {
                        assert(false);
                    }
                    assert(suffix.take(e - cs as int) =~= self@.subrange(cs as int, e as int));
                    assert(suffix.skip(e - cs + 1) =~= self@.skip(e + 1));
                } else {
                    if first_slash(suffix) >= 0 {
                        assert(suffix[first_slash(suffix)] == '/');
                        assert(false);
                    }
                    assert(suffix =~= self@.subrange(cs as int, e as int));
                }
            }
            let part: String = s.substring_char(cs, e).to_owned();
            parts.push(part);
            if e == n {
                proof {
                    assert(Seq::new(parts@.len(), |i: int| parts@[i]@) =~= sofar.push(
                        suffix,
                    ));
                    assert(split_slash(suffix) =~= seq![suffix]);
                    assert(Seq::new(parts@.len(), |i: int| parts@[i]@) =~= split_slash(self@));
                }
                return parts;
            }
            proof {
                assert(Seq::new(parts@.len(), |i: int| parts@[i]@) =~= sofar.push(
                    self@.subrange(cs as int, e as int),
                ));
                assert(split_slash(suffix) =~= seq![self@.subrange(cs as int, e as int)]
                    + split_slash(self@.skip(e + 1)));
            }
            cs = e + 1;
        }
    }
}

impl SubAddress<RelativePath> for RelativePath {
    type Output = RelativePath;

    open spec fn sub_ok(&self, sub: &RelativePath) -> bool {
        true
    }

    open spec fn sub_rel(&self, sub: &RelativePath, out: &RelativePath) -> bool {
        out@ == join_path(self@, sub@)
    }

    fn sub(self, sub: RelativePath) -> (r: RelativePath) {
        self.join_onto(sub.0.as_str())
    }
}

impl PathAddress for RelativePath {
    type Error = FileStoreError;

    type Output = RelativePath;

    open spec fn path_ok(&self, s: Seq<char>) -> bool {
        true
    }

    open spec fn path_rel(&self, s: Seq<char>, out: &RelativePath) -> bool {
        out@ == join_path(self@, s)
    }

    open spec fn path_err(&self, s: Seq<char>, e: &FileStoreError) -> bool {
        false
    }

    fn path(self, p: &str) -> (r: Result<RelativePath, FileStoreError>) {
        Ok(self.join_onto(p))
    }
}

impl Address for FilePath {
    open spec fn own_name_spec(&self) -> Seq<char> {
        self.0.own_name_spec()
    }

    open spec fn as_parts_spec(&self) -> Seq<Seq<char>> {
        self.0.as_parts_spec()
    }

    fn own_name(&self) -> (r: String) {
        self.0.own_name()
    }

    fn as_parts(&self) -> (r: Vec<String>) {
        self.0.as_parts()
    }
}

/// Whether a filesystem node is a file with contents or a directory.
#[derive(Debug, PartialEq, Eq)]
pub enum FileOrDir {
    File(String),
    Dir,
}

/// The filesystem as a store: everything under a base directory, addressed
/// by relative paths. This type owns the path bookkeeping; the embedding
/// program supplies the actual file operations.
#[derive(Debug, PartialEq, Eq)]
pub struct FileSystemStore {
    pub base_directory: String,
}

impl Clone for FileSystemStore {
    fn clone(&self) -> (res: Self)
        ensures
            res.base_directory@ == self.base_directory@,
    {
        FileSystemStore { base_directory: self.base_directory.clone() }
    }
}

impl FileSystemStore {
    /// A store rooted at the given base directory.
    pub fn new(path: String) -> (r: Self)
        ensures
            r.base_directory@ == path@,
    {
        FileSystemStore { base_directory: path }
    }

    /// The full path of an address: the base directory joined with the
    /// relative path.
    pub fn get_complete_path(&self, addr: RelativePath) -> (r: String)
        ensures
            r@ == join_path(self.base_directory@, addr@),
    {
        let joined: RelativePath = RelativePath(self.base_directory.clone()).join_onto(
            addr.0.as_str(),
        );
        joined.0
    }
}

} // verus!

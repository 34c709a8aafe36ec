//! The file descriptor: a path paired with its parsed extension chain.
//!
//! A path is normalized by dropping trailing `/` separators (so an output
//! given as `folder/` is stored as `folder`), and the extension chain is
//! parsed from the final path component alone, so a dot inside a directory
//! name never counts as an extension.

use vstd::prelude::*;

use crate::error::Error;
use crate::error::OuchResult;
use crate::extension::CompressionFormat;
use crate::extension::Extension;
use crate::extension::find_last_in_range;
use crate::extension::last_index_of_char;
use crate::extension::lemma_archive_innermost;
use crate::extension::parse_chain;
use crate::extension::parse_extension_chain;

verus! {

/// The path with its trailing `/` separators removed.
pub open spec fn strip_trailing_slashes(p: Seq<char>) -> Seq<char>
    decreases p.len(),
{
    if p.len() > 0 && p[p.len() - 1] == '/' {
        strip_trailing_slashes(p.drop_last())
    } else {
        p
    }
}

/// The final component of a normalized path: everything after its last `/`.
pub open spec fn name_part(p: Seq<char>) -> Seq<char> {
    match last_index_of_char(p, '/') {
        None => p,
        Some(i) => p.subrange(i + 1, p.len() as int),
    }
}

/// The extension chain implied by a path: the parse of the final component
/// of the normalized path, outermost format first.
pub open spec fn file_chain(p: Seq<char>) -> Seq<CompressionFormat> {
    parse_chain(name_part(strip_trailing_slashes(p)))
}

/// Whether the final component of the normalized path contains a dot at all;
/// this is what tells a missing extension from an unrecognized one.
pub open spec fn name_has_dot(p: Seq<char>) -> bool {
    last_index_of_char(name_part(strip_trailing_slashes(p)), '.') is Some
}

/// Returns `path` with its trailing `/` separators removed.
pub(crate) fn normalized_str<'a>(path: &'a str) -> (r: &'a str)
    ensures
        r@ == strip_trailing_slashes(path@),
{
    let len = path.unicode_len();
    let mut t: usize = len;
    proof {
        assert(path@.subrange(0, len as int) =~= path@);
    }
    while t > 0 && path.get_char(t - 1) == '/'
        invariant
            t <= path@.len(),
            strip_trailing_slashes(path@) == strip_trailing_slashes(path@.subrange(0, t as int)),
        decreases t,
    {
        proof {
            let sub = path@.subrange(0, t as int);
            assert(sub[sub.len() - 1] == '/');
            assert(sub.drop_last() =~= path@.subrange(0, t - 1));
        }
        t = t - 1;
    }
    proof {
        let sub = path@.subrange(0, t as int);
        if t > 0 {
            assert(sub[sub.len() - 1] != '/');
        }
        assert(strip_trailing_slashes(sub) == sub);
    }
    path.substring_char(0, t)
}

/// Returns the final component of an already normalized path.
pub(crate) fn file_name_str<'a>(norm: &'a str) -> (r: &'a str)
    ensures
        r@ == name_part(norm@),
{
    let len = norm.unicode_len();
    proof {
        assert(norm@.subrange(0, len as int) =~= norm@);
    }
    match find_last_in_range(norm, len, '/') {
        None => norm,
        Some(i) => norm.substring_char(i + 1, len),
    }
}

/// Whether the final component of the normalized path contains a dot.
pub(crate) fn path_name_has_dot(path: &str) -> (b: bool)
    ensures
        b == name_has_dot(path@),
{
    let norm = normalized_str(path);
    let name = file_name_str(norm);
    let nlen = name.unicode_len();
    proof {
        assert(name@.subrange(0, nlen as int) =~= name@);
    }
    match find_last_in_range(name, nlen, '.') {
        None => false,
        Some(_) => true,
    }
}

impl CompressionFormat {
    /// The outermost format implied by a path's name: the first element of
    /// its extension chain, which a decompression strips first.
    ///
    /// When no trailing token of the name is recognized, the path is
    /// rejected: with [`Error::MissingExtensionError`] when its final
    /// component holds no dot at all, and with
    /// [`Error::UnknownExtensionError`] when a dot-extension is present but
    /// matches nothing in the registry.
    pub fn try_from(path: &str) -> (r: OuchResult<CompressionFormat>)
        ensures
            (match r {
                Ok(f) => file_chain(path@).len() > 0 && f == file_chain(path@)[0],
                Err(e) => file_chain(path@).len() == 0 && (match e {
                    Error::UnknownExtensionError(n) => n@ == strip_trailing_slashes(path@)
                        && name_has_dot(path@),
                    Error::MissingExtensionError(n) => n@ == strip_trailing_slashes(path@)
                        && !name_has_dot(path@),
                    _ => false,
                }),
            }),
    {
        let norm = normalized_str(path);
        let name = file_name_str(norm);
        let chain = parse_extension_chain(name);
        if chain.len() > 0 {
            Ok(chain[0])
        } else {
            let nlen = name.unicode_len();
            proof {
                assert(name@.subrange(0, nlen as int) =~= name@);
            }
            match find_last_in_range(name, nlen, '.') {
                Some(_) => Err(Error::UnknownExtensionError(norm.to_owned())),
                None => Err(Error::MissingExtensionError(norm.to_owned())),
            }
        }
    }
}

/// A path plus the extension chain its name implies; `extension` is `None`
/// exactly when no trailing token of the name is recognized.
#[derive(Clone, Debug, PartialEq, Eq)]
pub struct File {
    pub path: String,
    pub extension: Option<Extension>,
}

impl File {
    /// The chain this descriptor carries, empty when `extension` is `None`.
    pub open spec fn chain(&self) -> Seq<CompressionFormat> {
        match self.extension {
            Some(e) => e.formats@,
            None => Seq::empty(),
        }
    }

    /// A well-formed descriptor never holds an empty `Some` chain, and keeps
    /// archive formats innermost.
    pub open spec fn wf(&self) -> bool {
        match self.extension {
            Some(e) => e.wf(),
            None => true,
        }
    }

    /// How a descriptor relates to the raw path it was built from.
    pub open spec fn matches_path(&self, p: Seq<char>) -> bool {
        &&& self.path@ == strip_trailing_slashes(p)
        &&& self.chain() == file_chain(p)
        &&& (self.extension is Some <==> file_chain(p).len() > 0)
    }

    /// Builds the descriptor of a raw path: normalizes it and parses the
    /// extension chain of its final component.
    pub fn from(path: &str) -> (f: File)
        ensures
            f.matches_path(path@),
            f.wf(),
    {
        let norm = normalized_str(path);
        let stored: String = norm.to_owned();
        let name = file_name_str(norm);
        let chain = parse_extension_chain(name);
        proof {
            lemma_archive_innermost(name@);
        }
        let extension = if chain.len() > 0 {
            Some(Extension { formats: chain })
        } else {
            None
        };
        File { path: stored, extension }
    }
}

} // verus!

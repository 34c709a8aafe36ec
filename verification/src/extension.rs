//! The format registry and the extension-chain parser.
//!
//! A file name's trailing dot-separated tokens imply an ordered chain of
//! codec formats, written here from outermost (applied last during
//! compression, removed first during decompression) to innermost. Archive
//! formats (`Tar`, `Zip`) bundle many member files and may only stand at the
//! innermost position of a chain; stream codecs wrap a single byte stream and
//! may be stacked arbitrarily.

use vstd::prelude::*;

verus! {

/// The closed set of recognized codec and archive formats.
///
/// `Tar` and `Zip` are archive formats; the rest are single-stream codecs.
/// `Lzma` and `Xz` are related but distinct: the registry maps the token
/// `lzma` to `Lzma` and `xz` to `Xz`, never merging the two.
#[derive(Clone, Copy, Debug, PartialEq, Eq, Structural)]
pub enum CompressionFormat {
    Tar,
    Zip,
    Gzip,
    Bzip,
    Bzip2,
    Xz,
    Lzma,
    Lz,
    Zstd,
}

/// An archive format can bundle multiple named member files into one stream.
pub open spec fn is_archive(f: CompressionFormat) -> bool {
    f == CompressionFormat::Tar || f == CompressionFormat::Zip
}

/// The canonical extension token of a format, as it appears in file names.
pub open spec fn spec_token(f: CompressionFormat) -> Seq<char> {
    match f {
        CompressionFormat::Tar => seq!['t', 'a', 'r'],
        CompressionFormat::Zip => seq!['z', 'i', 'p'],
        CompressionFormat::Gzip => seq!['g', 'z'],
        CompressionFormat::Bzip => seq!['b', 'z'],
        CompressionFormat::Bzip2 => seq!['b', 'z', '2'],
        CompressionFormat::Xz => seq!['x', 'z'],
        CompressionFormat::Lzma => seq!['l', 'z', 'm', 'a'],
        CompressionFormat::Lz => seq!['l', 'z'],
        CompressionFormat::Zstd => seq!['z', 's', 't'],
    }
}

/// The format registry: maps a lowercase extension token to its format, or
/// to `None` when the token is not recognized.
pub open spec fn spec_lookup(t: Seq<char>) -> Option<CompressionFormat> {
    if t.len() == 2 {
        if t[0] == 'g' && t[1] == 'z' {
            Some(CompressionFormat::Gzip)
        } else if t[0] == 'b' && t[1] == 'z' {
            Some(CompressionFormat::Bzip)
        } else if t[0] == 'x' && t[1] == 'z' {
            Some(CompressionFormat::Xz)
        } else if t[0] == 'l' && t[1] == 'z' {
            Some(CompressionFormat::Lz)
        } else {
            None
        }
    } else if t.len() == 3 {
        if t[0] == 't' && t[1] == 'a' && t[2] == 'r' {
            Some(CompressionFormat::Tar)
        } else if t[0] == 'z' && t[1] == 'i' && t[2] == 'p' {
            Some(CompressionFormat::Zip)
        } else if t[0] == 'b' && t[1] == 'z' && t[2] == '2' {
            Some(CompressionFormat::Bzip2)
        } else if t[0] == 'z' && t[1] == 's' && t[2] == 't' {
            Some(CompressionFormat::Zstd)
        } else {
            None
        }
    } else if t.len() == 4 {
        if t[0] == 'l' && t[1] == 'z' && t[2] == 'm' && t[3] == 'a' {
            Some(CompressionFormat::Lzma)
        } else {
            None
        }
    } else {
        None
    }
}

/// The registry recognizes exactly the canonical token of each format.
pub proof fn lemma_lookup_token(f: CompressionFormat)
    ensures
        spec_lookup(spec_token(f)) == Some(f),
{
}

/// Every registry token is 2 to 4 characters long and contains neither a
/// dot nor a path separator.
pub proof fn lemma_token_shape(f: CompressionFormat)
    ensures
        2 <= spec_token(f).len() <= 4,
        forall|i: int|
            0 <= i < spec_token(f).len() ==> #[trigger] spec_token(f)[i] != '.' && spec_token(f)[i]
                != '/',
{
    assert forall|i: int|
        0 <= i < spec_token(f).len() implies #[trigger] spec_token(f)[i] != '.' && spec_token(
        f,
    )[i] != '/' by {}
}

impl CompressionFormat {
    /// Whether this format is an archive format (`Tar` or `Zip`).
    pub fn is_archive(&self) -> (r: bool)
        ensures
            r == is_archive(*self),
    {
        matches!(self, CompressionFormat::Tar | CompressionFormat::Zip)
    }
}

/// Looks the token `name[start..end]` up in the format registry.
pub(crate) fn lookup_token(name: &str, start: usize, end: usize) -> (r: Option<CompressionFormat>)
    requires
        start <= end <= name@.len(),
    ensures
        r == spec_lookup(name@.subrange(start as int, end as int)),
{
    let ghost t = name@.subrange(start as int, end as int);
    let n = end - start;
    proof {
        assert(t.len() == n as int);
    }
    if n == 2 {
        let c0 = name.get_char(start);
        let c1 = name.get_char(start + 1);
        proof {
            assert(t[0] == c0 && t[1] == c1);
        }
        if c0 == 'g' && c1 == 'z' {
            Some(CompressionFormat::Gzip)
        } else if c0 == 'b' && c1 == 'z' {
            Some(CompressionFormat::Bzip)
        } else if c0 == 'x' && c1 == 'z' {
            Some(CompressionFormat::Xz)
        } else if c0 == 'l' && c1 == 'z' {
            Some(CompressionFormat::Lz)
        } else {
            None
        }
    } else if n == 3 {
        let c0 = name.get_char(start);
        let c1 = name.get_char(start + 1);
        let c2 = name.get_char(start + 2);
        proof {
            assert(t[0] == c0 && t[1] == c1 && t[2] == c2);
        }
        if c0 == 't' && c1 == 'a' && c2 == 'r' {
            Some(CompressionFormat::Tar)
        } else if c0 == 'z' && c1 == 'i' && c2 == 'p' {
            Some(CompressionFormat::Zip)
        } else if c0 == 'b' && c1 == 'z' && c2 == '2' {
            Some(CompressionFormat::Bzip2)
        } else if c0 == 'z' && c1 == 's' && c2 == 't' {
            Some(CompressionFormat::Zstd)
        } else {
            None
        }
    } else if n == 4 {
        let c0 = name.get_char(start);
        let c1 = name.get_char(start + 1);
        let c2 = name.get_char(start + 2);
        let c3 = name.get_char(start + 3);
        proof {
            assert(t[0] == c0 && t[1] == c1 && t[2] == c2 && t[3] == c3);
        }
        if c0 == 'l' && c1 == 'z' && c2 == 'm' && c3 == 'a' {
            Some(CompressionFormat::Lzma)
        } else {
            None
        }
    } else {
        None
    }
}

/// The position of the last occurrence of `c` in `s`, if any.
pub open spec fn last_index_of_char(s: Seq<char>, c: char) -> Option<int>
    decreases s.len(),
{
    if s.len() == 0 {
        None
    } else if s[s.len() - 1] == c {
        Some(s.len() - 1)
    } else {
        last_index_of_char(s.drop_last(), c)
    }
}

/// `last_index_of_char` returns an in-bounds occurrence with nothing equal
/// after it, or `None` when the character does not occur at all.
pub proof fn lemma_last_index_of_char(s: Seq<char>, c: char)
    ensures
        match last_index_of_char(s, c) {
            None => forall|i: int| 0 <= i < s.len() ==> s[i] != c,
            Some(j) => 0 <= j < s.len() && s[j] == c && forall|i: int|
                j < i < s.len() ==> s[i] != c,
        },
    decreases s.len(),
{
    if s.len() > 0 && s[s.len() - 1] != c {
        lemma_last_index_of_char(s.drop_last(), c);
        assert(forall|i: int| 0 <= i < s.len() - 1 ==> s[i] == s.drop_last()[i]);
    }
}

/// The extension chain implied by the file name `s`, ordered from outermost
/// to innermost.
///
/// Tokens are stripped from the right end of the name: each recognized
/// stream-codec token extends the chain inward, a recognized archive token
/// closes the chain as its innermost element (whatever stands left of it
/// belongs to the base name), and an unrecognized token, or a name without a
/// remaining dot, ends the parse. In particular a double-archive suffix such
/// as `name.tar.zip` yields the chain `[Zip]`: the archive token nearest the
/// end is accepted as innermost and the earlier one is left in the base name.
pub open spec fn parse_chain(s: Seq<char>) -> Seq<CompressionFormat>
    decreases s.len(),
{
    match last_index_of_char(s, '.') {
        None => Seq::empty(),
        // The returned index always lies in range (`lemma_last_index_of_char`);
        // the guard keeps the recursion visibly decreasing.
        Some(i) => if 0 <= i < s.len() {
            match spec_lookup(s.subrange(i + 1, s.len() as int)) {
                None => Seq::empty(),
                Some(f) => if is_archive(f) {
                    seq![f]
                } else {
                    seq![f] + parse_chain(s.subrange(0, i))
                },
            }
        } else {
            Seq::empty()
        },
    }
}

/// Archive-position invariant: the parser never produces a chain holding an
/// archive format anywhere but the innermost (last) position, whatever the
/// file name; parsing closes the chain on the first archive token it accepts,
/// so a second one is never taken.
pub proof fn lemma_archive_innermost(s: Seq<char>)
    ensures
        forall|i: int| 0 <= i < parse_chain(s).len() - 1 ==> !is_archive(parse_chain(s)[i]),
    decreases s.len(),
{
    let c = parse_chain(s);
    match last_index_of_char(s, '.') {
        None => {},
        Some(j) => {
            lemma_last_index_of_char(s, '.');
            if 0 <= j < s.len() {
                match spec_lookup(s.subrange(j + 1, s.len() as int)) {
                    None => {},
                    Some(f) => {
                        if !is_archive(f) {
                            lemma_archive_innermost(s.subrange(0, j));
                            let sub = parse_chain(s.subrange(0, j));
                            assert forall|i: int| 0 <= i < c.len() - 1 implies !is_archive(
                                c[i],
                            ) by {
                                if i > 0 {
                                    assert(c[i] == sub[i - 1]);
                                }
                            }
                        }
                    },
                }
            }
        },
    }
}

/// No-extension idempotence: a name without any dot always parses to the
/// empty chain; it is "no extension", never an error.
pub proof fn lemma_no_dot_no_extension(s: Seq<char>)
    requires
        forall|i: int| 0 <= i < s.len() ==> s[i] != '.',
    ensures
        parse_chain(s) == Seq::<CompressionFormat>::empty(),
{
    lemma_last_index_of_char(s, '.');
    match last_index_of_char(s, '.') {
        None => {},
        Some(j) => {
            assert(s[j] == '.');
            assert(false);
        },
    }
}

/// The file name obtained by suffixing `base` with the tokens of `chain`,
/// innermost token nearest the base name and outermost token at the end.
pub open spec fn chain_name(base: Seq<char>, chain: Seq<CompressionFormat>) -> Seq<char>
    decreases chain.len(),
{
    if chain.len() == 0 {
        base
    } else {
        chain_name(base, chain.drop_first()) + seq!['.'] + spec_token(chain[0])
    }
}

/// Appending a dot and a dot-free token moves the last dot to the seam.
proof fn lemma_last_dot_after_append(s: Seq<char>, t: Seq<char>)
    requires
        forall|i: int| 0 <= i < t.len() ==> t[i] != '.',
    ensures
        last_index_of_char(s + seq!['.'] + t, '.') == Some(s.len() as int),
    decreases t.len(),
{
    let u = s + seq!['.'] + t;
    if t.len() == 0 {
        assert(u[u.len() - 1] == '.');
    } else {
        assert(u[u.len() - 1] == t[t.len() - 1]);
        assert(u.drop_last() =~= s + seq!['.'] + t.drop_last());
        lemma_last_dot_after_append(s, t.drop_last());
    }
}

/// Chain round-trip: writing any well-formed chain out as stacked extensions
/// and parsing the resulting name reproduces exactly the original chain. The
/// chain must keep archive formats innermost, and when its innermost format
/// is a stream codec the base name must itself parse to no chain (otherwise
/// the parse would keep going into the base name).
pub proof fn lemma_chain_round_trip(base: Seq<char>, chain: Seq<CompressionFormat>)
    requires
        chain.len() > 0,
        forall|i: int| 0 <= i < chain.len() - 1 ==> !is_archive(chain[i]),
        !is_archive(chain.last()) ==> parse_chain(base) == Seq::<CompressionFormat>::empty(),
    ensures
        parse_chain(chain_name(base, chain)) == chain,
    decreases chain.len(),
{
    let f = chain[0];
    let rest = chain.drop_first();
    let prefix = chain_name(base, rest);
    let tok = spec_token(f);
    let u = prefix + seq!['.'] + tok;
    assert(chain_name(base, chain) == u);
    lemma_token_shape(f);
    lemma_last_dot_after_append(prefix, tok);
    let i = prefix.len() as int;
    assert(u.subrange(i + 1, u.len() as int) =~= tok);
    lemma_lookup_token(f);
    assert(spec_lookup(u.subrange(i + 1, u.len() as int)) == Some(f));
    assert(u.subrange(0, i) =~= prefix);
    if is_archive(f) {
        assert(chain.len() == 1) by {
            if chain.len() > 1 {
                assert(!is_archive(chain[0]));
            }
        }
        assert(parse_chain(u) =~= seq![f]);
        assert(chain =~= seq![f]);
    } else if chain.len() == 1 {
        assert(prefix == base);
        assert(chain.last() == f);
        assert(parse_chain(u) =~= seq![f] + parse_chain(base));
        assert(chain =~= seq![f]);
        assert(parse_chain(u) =~= chain);
    } else {
        assert(rest.last() == chain.last());
        assert(forall|k: int| 0 <= k < rest.len() - 1 ==> rest[k] == chain[k + 1]);
        lemma_chain_round_trip(base, rest);
        assert(parse_chain(u) =~= seq![f] + rest);
        assert(chain =~= seq![f] + rest);
    }
}

/// Finds the last occurrence of `target` among the first `end` characters of
/// `name`.
pub(crate) fn find_last_in_range(name: &str, end: usize, target: char) -> (r: Option<usize>)
    requires
        end <= name@.len(),
    ensures
        match r {
            None => last_index_of_char(name@.subrange(0, end as int), target) is None,
            Some(j) => j < end && last_index_of_char(name@.subrange(0, end as int), target)
                == Some(j as int),
        },
{
    let mut k = end;
    while k > 0
        invariant
            k <= end <= name@.len(),
            last_index_of_char(name@.subrange(0, end as int), target) == last_index_of_char(
                name@.subrange(0, k as int),
                target,
            ),
        decreases k,
    {
        let c = name.get_char(k - 1);
        if c == target {
            proof {
                let sub = name@.subrange(0, k as int);
                assert(sub[sub.len() - 1] == target);
            }
            return Some(k - 1);
        }
        proof {
            let sub = name@.subrange(0, k as int);
            assert(sub[sub.len() - 1] != target);
            assert(sub.drop_last() =~= name@.subrange(0, k - 1));
        }
        k = k - 1;
    }
    proof {
        assert(name@.subrange(0, 0int).len() == 0);
    }
    None
}

/// Parses the extension chain of a file name, outermost format first.
pub fn parse_extension_chain(name: &str) -> (chain: Vec<CompressionFormat>)
    ensures
        chain@ == parse_chain(name@),
{
    let len = name.unicode_len();
    let mut chain: Vec<CompressionFormat> = Vec::new();
    let mut e: usize = len;
    proof {
        assert(name@.subrange(0, len as int) =~= name@);
        assert(chain@ + parse_chain(name@) =~= parse_chain(name@));
    }
    loop
        invariant
            e <= name@.len(),
            parse_chain(name@) == chain@ + parse_chain(name@.subrange(0, e as int)),
        decreases e,
    {
        let ghost s = name@.subrange(0, e as int);
        match find_last_in_range(name, e, '.') {
            None => {
                proof {
                    assert(parse_chain(s) =~= Seq::<CompressionFormat>::empty());
                    assert(chain@ + parse_chain(s) =~= chain@);
                }
                return chain;
            },
            Some(j) => {
                proof {
                    assert(s.subrange(j + 1, s.len() as int) =~= name@.subrange(j + 1, e as int));
                }
                match lookup_token(name, j + 1, e) {
                    None => {
                        proof {
                            assert(parse_chain(s) =~= Seq::<CompressionFormat>::empty());
                            assert(chain@ + parse_chain(s) =~= chain@);
                        }
                        return chain;
                    },
                    Some(f) => {
                        let ghost old_chain = chain@;
                        chain.push(f);
                        if f.is_archive() {
                            proof {
                                assert(parse_chain(s) =~= seq![f]);
                                assert(old_chain + parse_chain(s) =~= chain@);
                            }
                            return chain;
                        }
                        proof {
                            assert(s.subrange(0, j as int) =~= name@.subrange(0, j as int));
                            assert(parse_chain(s) =~= seq![f] + parse_chain(
                                name@.subrange(0, j as int),
                            ));
                            assert(old_chain + parse_chain(s) =~= chain@ + parse_chain(
                                name@.subrange(0, j as int),
                            ));
                        }
                        e = j;
                    },
                }
            },
        }
    }
}

/// An ordered, non-empty chain of formats implied by a file name's stacked
/// extensions, outermost first; only the innermost (last) format may be an
/// archive format.
#[derive(Clone, Debug, PartialEq, Eq)]
pub struct Extension {
    pub formats: Vec<CompressionFormat>,
}

impl Extension {
    /// The chain is non-empty and holds an archive format at most as its
    /// innermost element.
    pub open spec fn wf(&self) -> bool {
        &&& self.formats@.len() > 0
        &&& forall|i: int| 0 <= i < self.formats@.len() - 1 ==> !is_archive(self.formats@[i])
    }

    /// A chain of a single format.
    pub fn from(format: CompressionFormat) -> (e: Extension)
        ensures
            e.formats@ =~= seq![format],
            e.wf(),
    {
        let mut formats: Vec<CompressionFormat> = Vec::new();
        formats.push(format);
        Extension { formats }
    }
}

} // verus!

//! The command resolver: classifies one invocation — a sequence of input
//! paths plus an optional output path — into a validated `Compression` or
//! `Decompression` command, or rejects it with a precise error.
//!
//! Resolution is a pure function with no side effects. An output path whose
//! name carries a recognized extension chain asks for compression of the
//! inputs as they are; an output path without one is a target location for
//! decompression, allowed only when every input is decompressible; with no
//! output path at all, decompression of every input is implied.

use vstd::prelude::*;

use crate::error::Error;
use crate::error::OuchResult;
use crate::file::File;
use crate::file::file_chain;
use crate::file::name_has_dot;
use crate::file::path_name_has_dot;
use crate::file::strip_trailing_slashes;

verus! {

/// What a resolved invocation asks the codec-driver layer to do.
///
/// `Compression` keeps the input paths as the caller gave them: arbitrary
/// source files may be compressed. `Decompression` carries full descriptors,
/// since each input's own chain directs how it is unpacked.
#[derive(Debug, PartialEq, Eq)]
pub enum CommandKind {
    Compression(Vec<String>),
    Decompression(Vec<File>),
}

/// One resolved invocation: what to do, and where the result goes. For a
/// decompression, `output` is `None` when each input's own location is the
/// target.
#[derive(Debug, PartialEq, Eq)]
pub struct Command {
    pub kind: CommandKind,
    pub output: Option<File>,
}

/// A path is decompressible when its name implies a non-empty chain.
pub open spec fn decompressible(p: Seq<char>) -> bool {
    file_chain(p).len() > 0
}

/// Every path of the sequence is decompressible.
pub open spec fn all_decompressible(paths: Seq<Seq<char>>) -> bool {
    forall|i: int| 0 <= i < paths.len() ==> decompressible(#[trigger] paths[i])
}

/// `files` are exactly the descriptors of `paths`, in order.
pub open spec fn files_match(files: Seq<File>, paths: Seq<Seq<char>>) -> bool {
    &&& files.len() == paths.len()
    &&& forall|i: int|
        0 <= i < files.len() ==> (#[trigger] files[i]).matches_path(paths[i]) && files[i].wf()
}

/// `k` is the position of the first path, in input order, that is not
/// decompressible.
pub open spec fn first_undecompressible(paths: Seq<Seq<char>>, k: int) -> bool {
    &&& 0 <= k < paths.len()
    &&& !decompressible(paths[k])
    &&& forall|j: int| 0 <= j < k ==> decompressible(#[trigger] paths[j])
}

/// The complete classification of one invocation: for every `(inputs,
/// output)` pair exactly one of the cases below describes the result `r`.
pub open spec fn resolution(
    inputs: Seq<Seq<char>>,
    output: Option<Seq<char>>,
    r: OuchResult<Command>,
) -> bool {
    match output {
        Some(out) => if decompressible(out) {
            // A recognized output extension asks for compression of the
            // inputs exactly as given.
            match r {
                Ok(c) => {
                    &&& (match c.kind {
                        CommandKind::Compression(paths) => paths.deep_view() == inputs,
                        CommandKind::Decompression(_) => false,
                    })
                    &&& (match c.output {
                        Some(f) => f.matches_path(out) && f.wf(),
                        None => false,
                    })
                },
                Err(_) => false,
            }
        } else if all_decompressible(inputs) {
            // No recognized output extension: the output names a target
            // location, and every input is unpacked into it.
            match r {
                Ok(c) => {
                    &&& (match c.kind {
                        CommandKind::Decompression(files) => files_match(files@, inputs),
                        CommandKind::Compression(_) => false,
                    })
                    &&& (match c.output {
                        Some(f) => f.matches_path(out) && f.wf(),
                        None => false,
                    })
                },
                Err(_) => false,
            }
        } else {
            // The output cannot be compressed to and the inputs cannot all
            // be decompressed: the output path is rejected, and which error
            // comes back depends on whether its name holds a dot at all.
            match r {
                Ok(_) => false,
                Err(e) => match e {
                    Error::UnknownExtensionError(n) => n@ == strip_trailing_slashes(out)
                        && name_has_dot(out),
                    Error::MissingExtensionError(n) => n@ == strip_trailing_slashes(out)
                        && !name_has_dot(out),
                    _ => false,
                },
            }
        },
        None => if all_decompressible(inputs) {
            match r {
                Ok(c) => {
                    &&& (match c.kind {
                        CommandKind::Decompression(files) => files_match(files@, inputs),
                        CommandKind::Compression(_) => false,
                    })
                    &&& c.output is None
                },
                Err(_) => false,
            }
        } else {
            // Decompression was implied, and the first input without a
            // recognized chain names the failure.
            match r {
                Ok(_) => false,
                Err(e) => match e {
                    Error::InputsMustHaveBeenDecompressible(n) => exists|k: int|
                        first_undecompressible(inputs, k) && n@ == strip_trailing_slashes(
                            inputs[k],
                        ),
                    _ => false,
                },
            }
        },
    }
}

/// Builds the descriptor of every input in order, or stops at the first
/// input that carries no recognized chain and hands its position and
/// descriptor back.
fn build_input_files(inputs: &Vec<String>) -> (r: Result<Vec<File>, (usize, File)>)
    ensures
        (match r {
            Ok(files) => files_match(files@, inputs.deep_view()) && all_decompressible(
                inputs.deep_view(),
            ),
            Err((k, bad)) => first_undecompressible(inputs.deep_view(), k as int)
                && bad.matches_path(inputs.deep_view()[k as int]),
        }),
{
    let ghost ins = inputs.deep_view();
    let mut files: Vec<File> = Vec::new();
    let mut i: usize = 0;
    while i < inputs.len()
        invariant
            i <= inputs.len(),
            ins == inputs.deep_view(),
            files@.len() == i,
            forall|j: int|
                0 <= j < i ==> (#[trigger] files@[j]).matches_path(ins[j]) && files@[j].wf(),
            forall|j: int| 0 <= j < i ==> decompressible(#[trigger] ins[j]),
        decreases inputs.len() - i,
    {
        let path: &String = &inputs[i];
        proof {
            assert(ins[i as int] == path@);
        }
        let f = File::from(path.as_str());
        if f.extension.is_some() {
            files.push(f);
            i = i + 1;
        } else {
            return Err((i, f));
        }
    }
    Ok(files)
}

impl Command {
    /// The structural invariant of a resolved command: a compression carries
    /// an output whose name implies a well-formed chain to apply, and a
    /// decompression knows the chain of every one of its inputs.
    pub open spec fn wf(&self) -> bool {
        match self.kind {
            CommandKind::Compression(_) => (match self.output {
                Some(f) => f.extension is Some && f.wf(),
                None => false,
            }),
            CommandKind::Decompression(files) => forall|i: int|
                0 <= i < files@.len() ==> (#[trigger] files@[i]).extension is Some
                    && files@[i].wf(),
        }
    }

    /// Resolves one invocation; pure, with no side effects.
    ///
    /// Resolver totality: for every `(inputs, output)` pair exactly one of
    /// a `Compression` command, a `Decompression` command or one specific
    /// error variant comes back, as [`resolution`] states case by case;
    /// nothing is required of the arguments.
    pub fn try_from(inputs: Vec<String>, output: Option<String>) -> (r: OuchResult<Command>)
        ensures
            resolution(inputs.deep_view(), output.deep_view(), r),
            (match r {
                Ok(c) => c.wf(),
                Err(_) => true,
            }),
    {
        let ghost ins = inputs.deep_view();
        match output {
            Some(out_path) => {
                let out_file = File::from(out_path.as_str());
                if out_file.extension.is_some() {
                    Ok(
                        Command {
                            kind: CommandKind::Compression(inputs),
                            output: Some(out_file),
                        },
                    )
                } else {
                    match build_input_files(&inputs) {
                        Ok(files) => Ok(
                            Command {
                                kind: CommandKind::Decompression(files),
                                output: Some(out_file),
                            },
                        ),
                        Err((k, _bad)) => {
                            proof {
                                assert(!decompressible(ins[k as int]));
                            }
                            if path_name_has_dot(out_path.as_str()) {
                                Err(Error::UnknownExtensionError(out_file.path))
                            } else {
                                Err(Error::MissingExtensionError(out_file.path))
                            }
                        },
                    }
                }
            },
            None => {
                match build_input_files(&inputs) {
                    Ok(files) => Ok(
                        Command { kind: CommandKind::Decompression(files), output: None },
                    ),
                    Err((k, bad)) => {
                        proof {
                            assert(first_undecompressible(ins, k as int));
                            assert(bad.path@ == strip_trailing_slashes(ins[k as int]));
                        }
                        Err(Error::InputsMustHaveBeenDecompressible(bad.path))
                    },
                }
            },
        }
    }
}

} // verus!


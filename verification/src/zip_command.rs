//! The external archiver: how its path is chosen, what it is asked to run,
//! and how its outcome is judged.
//!
//! The archiver is a child process the unverified shell spawns; this module
//! pins down the invocations.  Archiving a directory runs the tool inside
//! that directory over `.`, so every name recorded in the archive is
//! relative to it; archiving a single file runs the tool inside the file's
//! parent over the bare name, so the archive holds one top-level entry.

use vstd::prelude::*;

verus! {

use crate::archivefiles::{ArchiveError, copy_bytes};
use crate::names::{spec_dash_r, spec_dot_arg, dash_r, dot_arg};
use crate::paths::{spec_join, spec_file_name, spec_parent, join, file_name, parent};

/// The resolved archiver executable.
pub struct ZipCommand {
    pub path: Vec<u8>,
}

/// One child-process invocation: the program, its arguments in order, and
/// the working directory to run it in.
pub struct ZipInvocation {
    pub program: Vec<u8>,
    pub args: Vec<Vec<u8>>,
    pub cwd: Vec<u8>,
}

/// The models of an invocation's arguments.
pub open spec fn args_model(v: Seq<Vec<u8>>) -> Seq<Seq<u8>> {
    v.map_values(|a: Vec<u8>| a@)
}

/// The bytes of `zip`, the archiver's conventional name.
pub open spec fn spec_zip_name() -> Seq<u8> {
    seq![122u8, 105u8, 112u8]
}

/// The sibling candidate for the archiver: `zip` beside the running
/// program, when the program's path has a parent.
pub fn sibling_zip_candidate(exe_path: &Vec<u8>) -> (r: Option<Vec<u8>>)
    ensures
        match r {
            Some(c) => spec_parent(exe_path@) matches Some(d) && c@ == spec_join(
                d,
                spec_zip_name(),
            ),
            None => spec_parent(exe_path@) is None,
        },
{
    match parent(exe_path) {
        Some(dir) => {
            let mut name: Vec<u8> = Vec::new();
            name.push(122u8);
            name.push(105u8);
            name.push(112u8);
            proof {
                assert(name@ =~= spec_zip_name());
            }
            Some(join(&dir, &name))
        },
        None => None,
    }
}

impl ZipCommand {
    /// Which archiver to run, by fixed precedence: the explicitly given
    /// path when it exists on disk, else the candidate beside the running
    /// program when that exists, else the one found on the search path; an
    /// error when every probe missed.  The caller reports what exists and
    /// what the search path offered.
    pub fn resolve(
        user_path: Option<Vec<u8>>,
        user_exists: bool,
        sibling: Option<Vec<u8>>,
        sibling_exists: bool,
        path_lookup: Option<Vec<u8>>,
    ) -> (r: Result<ZipCommand, ArchiveError>)
        ensures
            match r {
                Ok(z) => {
                    if user_path is Some && user_exists {
                        user_path matches Some(p) && z.path@ == p@
                    } else if sibling is Some && sibling_exists {
                        sibling matches Some(s) && z.path@ == s@
                    } else {
                        path_lookup matches Some(w) && z.path@ == w@
                    }
                },
                Err(e) => {
                    &&& !(user_path is Some && user_exists)
                    &&& !(sibling is Some && sibling_exists)
                    &&& path_lookup is None
                    &&& e matches ArchiveError::Io(d) && d@.len() == 0
                },
            },
    {
        if user_exists {
            if let Some(p) = user_path {
                return Ok(ZipCommand { path: p });
            }
        }
        if sibling_exists {
            if let Some(s) = sibling {
                return Ok(ZipCommand { path: s });
            }
        }
        if let Some(w) = path_lookup {
            return Ok(ZipCommand { path: w });
        }
        Err(ArchiveError::Io(Vec::new()))
    }

    /// The invocation that archives directory `from` into `to`: recurse
    /// over `.` with the working directory set to `from`, so every recorded
    /// name is relative to `from`.
    pub fn zip_dir(&self, to: &Vec<u8>, from: &Vec<u8>) -> (r: ZipInvocation)
        ensures
            r.program@ == self.path@,
            r.cwd@ == from@,
            args_model(r.args@) == seq![spec_dash_r(), to@, spec_dot_arg()],
    {
        let mut args: Vec<Vec<u8>> = Vec::new();
        args.push(dash_r());
        args.push(copy_bytes(to));
        args.push(dot_arg());
        let r = ZipInvocation { program: copy_bytes(&self.path), args, cwd: copy_bytes(from) };
        proof {
            assert(args_model(r.args@) =~= seq![spec_dash_r(), to@, spec_dot_arg()]);
        }
        r
    }

    /// The invocation that archives the single file `from` into `to`: the
    /// bare file name with the working directory set to the file's parent,
    /// so the archive holds one top-level entry; an invalid-path error when
    /// the file's name or parent cannot be taken.
    pub fn zip_file(&self, to: &Vec<u8>, from: &Vec<u8>) -> (r: Result<ZipInvocation, ArchiveError>)
        ensures
            match r {
                Ok(inv) => {
                    &&& spec_file_name(from@) matches Some(name) && args_model(inv.args@) == seq![
                        to@,
                        name,
                    ]
                    &&& spec_parent(from@) matches Some(dir) && inv.cwd@ == dir
                    &&& inv.program@ == self.path@
                },
                Err(e) => {
                    &&& spec_file_name(from@) is None || spec_parent(from@) is None
                    &&& e matches ArchiveError::InvalidPath(d) && d@ == from@
                },
            },
    {
        let name = match file_name(from) {
            Some(name) => name,
            None => {
                return Err(ArchiveError::InvalidPath(copy_bytes(from)));
            },
        };
        let dir = match parent(from) {
            Some(dir) => dir,
            None => {
                return Err(ArchiveError::InvalidPath(copy_bytes(from)));
            },
        };
        let mut args: Vec<Vec<u8>> = Vec::new();
        args.push(copy_bytes(to));
        args.push(name);
        let r = ZipInvocation { program: copy_bytes(&self.path), args, cwd: dir };
        proof {
            assert(args_model(r.args@) =~= seq![to@, spec_file_name(from@).unwrap()]);
        }
        Ok(r)
    }

    /// The verdict on a finished archiver run: success on a zero exit, else
    /// an I/O error carrying the tool's captured standard output verbatim.
    pub fn report_error(&self, success: bool, stdout: &Vec<u8>) -> (r: Result<(), ArchiveError>)
        ensures
            match r {
                Ok(_) => success,
                Err(e) => !success && (e matches ArchiveError::Io(d) && d@ == stdout@),
            },
    {
        if success {
            Ok(())
        } else {
            Err(ArchiveError::Io(copy_bytes(stdout)))
        }
    }
}

} // verus!

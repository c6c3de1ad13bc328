//! The tool's arguments and the decisions taken over them.
//!
//! Parsing the command line and asking the filesystem what exists are left
//! to the unverified shell; the rules — which input is demanded, which
//! required entries are missing, where the output lands — live here.

use vstd::prelude::*;

verus! {

use crate::archivefiles::ArchiveError;
use crate::names::{
    spec_preview_name,
    spec_description_name,
    spec_manifest_name,
    spec_comma_space,
    preview_name,
    description_name,
    manifest_name,
    comma_space,
};
use crate::paths::{spec_join, spec_parent, join, parent};
use crate::utils::append_all;

/// The tool's arguments: the input package, the two shell-integration
/// switches, an explicit archiver path, and the output directory.
pub struct Args {
    pub input_path: Option<Vec<u8>>,
    pub register: bool,
    pub unregister: bool,
    pub zip_path: Option<Vec<u8>>,
    pub output: Option<Vec<u8>>,
}

/// The error detail listing the missing required entries, separated by a
/// comma and a space, in the fixed order preview, metadata, manifest.
pub open spec fn spec_missing_list(preview: bool, description: bool, manifest: bool) -> Seq<u8> {
    let s1 = if !preview {
        spec_preview_name()
    } else {
        Seq::empty()
    };
    let s2 = if !description {
        if s1.len() > 0 {
            s1 + spec_comma_space() + spec_description_name()
        } else {
            spec_description_name()
        }
    } else {
        s1
    };
    if !manifest {
        if s2.len() > 0 {
            s2 + spec_comma_space() + spec_manifest_name()
        } else {
            spec_manifest_name()
        }
    } else {
        s2
    }
}

impl Args {
    /// The input package path; demanding one is the caller's first duty.
    pub fn get_input_path(&self) -> (r: Result<&Vec<u8>, ArchiveError>)
        ensures
            match r {
                Ok(p) => self.input_path matches Some(q) && p@ == q@,
                Err(e) => self.input_path is None && (e matches ArchiveError::InvalidPath(d)
                    && d@.len() == 0),
            },
    {
        match &self.input_path {
            Some(p) => Ok(p),
            None => Err(ArchiveError::InvalidPath(Vec::new())),
        }
    }

    /// The three paths a package must hold: `preview`, `description.xml`
    /// and `lockscreen/manifest.xml`, under the given input root.
    pub fn required_entry_paths(input: &Vec<u8>) -> (r: (Vec<u8>, Vec<u8>, Vec<u8>))
        ensures
            r.0@ == spec_join(input@, spec_preview_name()),
            r.1@ == spec_join(input@, spec_description_name()),
            r.2@ == spec_join(input@, spec_manifest_name()),
    {
        let p = preview_name();
        let d = description_name();
        let m = manifest_name();
        (join(input, &p), join(input, &d), join(input, &m))
    }

    /// The validation verdict, given which of the three required entries
    /// exist: demanded input present and nothing missing, or an
    /// invalid-path error whose detail lists exactly the missing entries.
    pub fn validate_input(
        &self,
        preview_exists: bool,
        description_exists: bool,
        manifest_exists: bool,
    ) -> (r: Result<(), ArchiveError>)
        ensures
            match r {
                Ok(_) => {
                    &&& self.input_path is Some
                    &&& preview_exists
                    &&& description_exists
                    &&& manifest_exists
                },
                Err(e) => {
                    if self.input_path is None {
                        e matches ArchiveError::InvalidPath(d) && d@.len() == 0
                    } else {
                        &&& !(preview_exists && description_exists && manifest_exists)
                        &&& e matches ArchiveError::InvalidPath(d) && d@ == spec_missing_list(
                            preview_exists,
                            description_exists,
                            manifest_exists,
                        )
                    }
                },
            },
    {
        if let Err(e) = self.get_input_path() {
            return Err(e);
        }
        if preview_exists && description_exists && manifest_exists {
            return Ok(());
        }
        let mut detail: Vec<u8> = Vec::new();
        let sep_bytes = comma_space();
        if !preview_exists {
            let name = preview_name();
            append_all(&mut detail, &name);
        }
        if !description_exists {
            if detail.len() > 0 {
                append_all(&mut detail, &sep_bytes);
            }
            let name = description_name();
            append_all(&mut detail, &name);
        }
        if !manifest_exists {
            if detail.len() > 0 {
                append_all(&mut detail, &sep_bytes);
            }
            let name = manifest_name();
            append_all(&mut detail, &name);
        }
        proof {
            assert(detail@ =~= spec_missing_list(
                preview_exists,
                description_exists,
                manifest_exists,
            ));
        }
        Err(ArchiveError::InvalidPath(detail))
    }

    /// Where the artifact goes: the explicitly requested output directory,
    /// else the input package's parent; an error when neither is known.
    pub fn resolved_output_dir(&self) -> (r: Result<Vec<u8>, ArchiveError>)
        ensures
            match r {
                Ok(o) => {
                    if self.output is Some {
                        self.output matches Some(q) && o@ == q@
                    } else {
                        &&& self.input_path matches Some(p)
                        &&& spec_parent(p@) == Some(o@)
                    }
                },
                Err(e) => {
                    &&& self.output is None
                    &&& e matches ArchiveError::InvalidPath(d)
                    &&& match self.input_path {
                        Some(p) => spec_parent(p@) is None && d@ == p@,
                        None => d@.len() == 0,
                    }
                },
            },
    {
        if let Some(output) = &self.output {
            return Ok(crate::archivefiles::copy_bytes(output));
        }
        let input = match self.get_input_path() {
            Ok(p) => p,
            Err(e) => {
                return Err(e);
            },
        };
        match parent(input) {
            Some(dir) => Ok(dir),
            None => Err(ArchiveError::InvalidPath(crate::archivefiles::copy_bytes(input))),
        }
    }
}

} // verus!

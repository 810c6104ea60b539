//! Configuration values and the run-type selection.  Parsing the
//! configuration file is a collaborator concern; the library consumes
//! already-parsed values, so orchestration is testable without a
//! terminal.

use vstd::prelude::*;
use crate::record::RunError;
use crate::text::{parse_u64, spec_parse_u64, spec_trim, trim_str, views_of};

verus! {

/// Benchmark parameters, as plain parsed values.
pub struct Config {
    pub file_size_mb: usize,
    pub num_git_files: usize,
    pub c_project_url: String,
    pub django_project_url: String,
}

impl Default for Config {
    /// The configuration written when none exists yet.
    fn default() -> (r: Config)
        ensures
            r.file_size_mb == 500,
            r.num_git_files == 50,
            r.c_project_url@ == "https://github.com/example/c-project.git"@,
            r.django_project_url@ == "https://github.com/example/django-project.git"@,
    {
        Config {
            file_size_mb: 500,
            num_git_files: 50,
            c_project_url: "https://github.com/example/c-project.git".to_owned(),
            django_project_url: "https://github.com/example/django-project.git".to_owned(),
        }
    }
}

/// Guards the collaborator boundary: a configuration without any run
/// type names cannot start a run.  The list is returned unchanged
/// when it holds at least one name.
pub fn require_run_names(options: Vec<String>) -> (r: Result<Vec<String>, RunError>)
    ensures
        options@.len() == 0 <==> r is Err,
        r matches Err(e) ==> e is ConfigMissing,
        r matches Ok(names) ==> names == options,
{
    if options.len() == 0 {
        Err(RunError::ConfigMissing)
    } else {
        Ok(options)
    }
}

/// Whether an interactive reply picks an option: a decimal number
/// from 1 to the number of options.
pub open spec fn spec_selection(options: Seq<Seq<char>>, input: Seq<char>) -> Option<int> {
    match spec_parse_u64(spec_trim(input)) {
        Some(k) => if 1 <= k <= options.len() {
            Some(k - 1)
        } else {
            None
        },
        None => None,
    }
}

/// Resolves an interactive run-type choice: the trimmed input must be
/// a decimal number from 1 to the number of options, and the matching
/// option is returned; anything else is `SelectionInvalid`.
pub fn select_run_type(options: &Vec<String>, input: &str) -> (r: Result<String, RunError>)
    ensures
        ({
            let sel = spec_selection(views_of(options@), input@);
            match sel {
                Some(k) => r matches Ok(s) && s@ == views_of(options@)[k],
                None => r matches Err(e) && e is SelectionInvalid,
            }
        }),
{
    let trimmed = trim_str(input);
    match parse_u64(trimmed.as_str()) {
        Some(k) => {
            if 1 <= k && k <= options.len() as u64 {
                let idx = (k - 1) as usize;
                Ok(options[idx].clone())
            } else {
                Err(RunError::SelectionInvalid)
            }
        },
        None => Err(RunError::SelectionInvalid),
    }
}

} // verus!

//! The build-and-run benchmark: the fixed commands it issues.  The
//! compiler, the built program and the application server are
//! processes run by the surrounding application.

use vstd::prelude::*;
use crate::text::views_of;

verus! {

/// The build-and-run benchmark.
pub struct BuildRunOperations;

impl BuildRunOperations {
    pub fn new() -> (r: BuildRunOperations)
        ensures
            r == (BuildRunOperations {  }),
    {
        BuildRunOperations
    }

    /// Arguments of the compile step.
    pub fn compile_args(&self) -> (r: Vec<String>)
        ensures
            views_of(r@) =~= seq!["main.c"@, "-o"@, "program"@],
    {
        let mut args: Vec<String> = Vec::new();
        args.push("main.c".to_owned());
        args.push("-o".to_owned());
        args.push("program".to_owned());
        args
    }

    /// Path of the program the compile step produces.
    pub fn program_path(&self) -> (r: String)
        ensures
            r@ == "./program"@,
    {
        "./program".to_owned()
    }

    /// Arguments of the application-server start.
    pub fn server_args(&self) -> (r: Vec<String>)
        ensures
            views_of(r@) =~= seq!["manage.py"@, "runserver"@],
    {
        let mut args: Vec<String> = Vec::new();
        args.push("manage.py".to_owned());
        args.push("runserver".to_owned());
        args
    }
}

} // verus!

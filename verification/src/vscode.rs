//! The editor walkthrough: for each configured branch, the first few
//! generated files are opened in the editor.  The checkout and editor
//! processes run in the surrounding application; the library decides
//! which files are opened.

use vstd::prelude::*;
use crate::git_operations::{spec_txt_filter, txt_files};
use crate::text::views_of;

verus! {

/// The editor walkthrough.
pub struct VsCodeOperations;

/// How many files are opened per branch.
pub const OPEN_LIMIT: usize = 3;

impl VsCodeOperations {
    pub fn new() -> (r: VsCodeOperations)
        ensures
            r == (VsCodeOperations {  }),
    {
        VsCodeOperations
    }

    /// The files opened for one branch: the first `OPEN_LIMIT` `.txt`
    /// files of the directory listing, in listing order.
    pub fn files_to_open(&self, names: &Vec<String>) -> (r: Vec<String>)
        ensures
            ({
                let all = spec_txt_filter(views_of(names@));
                views_of(r@) == if all.len() <= OPEN_LIMIT {
                    all
                } else {
                    all.take(OPEN_LIMIT as int)
                }
            }),
    {
        let all = txt_files(names);
        let ghost allv = spec_txt_filter(views_of(names@));
        if all.len() <= OPEN_LIMIT {
            return all;
        }
        let mut first: Vec<String> = Vec::new();
        let mut i: usize = 0;
        proof {
            assert(views_of(first@) =~= allv.take(0));
        }
        while i < OPEN_LIMIT
            invariant
                views_of(all@) == allv,
                allv.len() > OPEN_LIMIT,
                0 <= i <= OPEN_LIMIT,
                views_of(first@) =~= allv.take(i as int),
            decreases OPEN_LIMIT - i,
        {
            first.push(all[i].clone());
            proof {
                assert(views_of(first@) =~= views_of(first@.drop_last()).push(all@[i as int]@));
                assert(allv.take(i + 1) =~= allv.take(i as int).push(allv[i as int]));
            }
            i = i + 1;
        }
        first
    }
}

} // verus!

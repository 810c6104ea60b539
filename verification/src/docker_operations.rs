//! The container benchmark: its configuration and the exact argument
//! lists of the two commands it issues.  The surrounding application
//! runs the container tool with these arguments.

use vstd::prelude::*;
use crate::text::views_of;

verus! {

/// The container benchmark: image to pull and the command run inside
/// it, as plain parsed values.
pub struct DockerOperations {
    pub image: String,
    pub test_command: Vec<String>,
}

impl DockerOperations {
    pub fn new(image: String, test_command: Vec<String>) -> (r: DockerOperations)
        ensures
            r.image == image,
            r.test_command == test_command,
    {
        DockerOperations { image, test_command }
    }

    /// Arguments of the image pull.
    pub fn pull_args(&self) -> (r: Vec<String>)
        ensures
            views_of(r@) =~= seq!["pull"@, self.image@],
    {
        let mut args: Vec<String> = Vec::new();
        args.push("pull".to_owned());
        args.push(self.image.clone());
        args
    }

    /// Arguments of the timed container run: a removed-on-exit
    /// container of the configured image, handed the configured test
    /// command.
    pub fn run_args(&self) -> (r: Vec<String>)
        ensures
            views_of(r@) =~= seq!["run"@, "--rm"@, self.image@] + views_of(self.test_command@),
    {
        let mut args: Vec<String> = Vec::new();
        args.push("run".to_owned());
        args.push("--rm".to_owned());
        args.push(self.image.clone());
        let n = self.test_command.len();
        let mut i: usize = 0;
        proof {
            assert(views_of(self.test_command@).subrange(0, 0) =~= Seq::<Seq<char>>::empty());
            assert(views_of(args@) =~= seq!["run"@, "--rm"@, self.image@]);
        }
        while i < n
            invariant
                n == self.test_command@.len(),
                0 <= i <= n,
                views_of(args@) =~= seq!["run"@, "--rm"@, self.image@] + views_of(
                    self.test_command@,
                ).subrange(0, i as int),
            decreases n - i,
        {
            args.push(self.test_command[i].clone());
            proof {
                assert(views_of(args@) =~= views_of(args@.drop_last()).push(
                    self.test_command@[i as int]@,
                ));
                assert(views_of(self.test_command@)[i as int] == self.test_command@[i as int]@);
                assert(views_of(args@.drop_last()) =~= seq!["run"@, "--rm"@, self.image@]
                    + views_of(self.test_command@).subrange(0, i as int));
                assert(views_of(self.test_command@).subrange(0, i + 1) =~= views_of(
                    self.test_command@,
                ).subrange(0, i as int).push(self.test_command@[i as int]@));
                assert(views_of(args@) =~= seq!["run"@, "--rm"@, self.image@] + views_of(
                    self.test_command@,
                ).subrange(0, i + 1));
            }
            i = i + 1;
        }
        proof {
            assert(views_of(self.test_command@).subrange(0, n as int) =~= views_of(
                self.test_command@,
            ));
        }
        args
    }
}

} // verus!

//! The git benchmark: its configuration, and the decisions inside the
//! operation — which branch to use, what each generated file is named
//! and holds, and which files a random removal pass picks.
//!
//! The git commands themselves are processes run by the surrounding
//! application.

use vstd::prelude::*;
use rand::seq::SliceRandom;
use crate::text::{
    dec_str, ends_with_str, spec_ends_with, spec_starts_with, starts_with_str, u64_to_string,
    views_of,
};

verus! {

/// Configuration of the git benchmark, as plain parsed values.
pub struct GitConfig {
    pub files_count: usize,
    pub files_to_remove: usize,
    pub files_to_add: usize,
    pub branches: Vec<String>,
}

/// The git benchmark.
pub struct GitOperations {
    pub config: GitConfig,
}

/// First index of a branch name with the feature prefix, or the
/// length when there is none.
pub open spec fn spec_feature_index(branches: Seq<Seq<char>>) -> nat
    decreases branches.len(),
{
    if branches.len() == 0 {
        0
    } else if spec_starts_with(branches[0], "feature/"@) {
        0
    } else {
        1 + spec_feature_index(branches.drop_first())
    }
}

pub proof fn lemma_feature_index(branches: Seq<Seq<char>>)
    ensures
        spec_feature_index(branches) <= branches.len(),
        spec_feature_index(branches) < branches.len() ==> spec_starts_with(
            branches[spec_feature_index(branches) as int],
            "feature/"@,
        ),
        forall|k: int|
            0 <= k < spec_feature_index(branches) ==> !spec_starts_with(
                #[trigger] branches[k],
                "feature/"@,
            ),
    decreases branches.len(),
{
    if branches.len() > 0 && !spec_starts_with(branches[0], "feature/"@) {
        lemma_feature_index(branches.drop_first());
        assert forall|k: int|
            0 <= k < spec_feature_index(branches) implies !spec_starts_with(
            #[trigger] branches[k],
            "feature/"@,
        ) by {
            if k > 0 {
                assert(branches[k] == branches.drop_first()[k - 1]);
            }
        }
    }
}

impl GitOperations {
    pub fn new(config: GitConfig) -> (r: GitOperations)
        ensures
            r.config == config,
    {
        GitOperations { config }
    }

    /// The branch the test pass checks out: the first configured
    /// branch with the `feature/` prefix, or `None` — "no feature
    /// branch found" — when no branch has it.
    pub fn find_feature_branch(&self) -> (r: Option<String>)
        ensures
            ({
                let bs = views_of(self.config.branches@);
                let i = spec_feature_index(bs) as int;
                if i < bs.len() {
                    r matches Some(s) && s@ == bs[i]
                } else {
                    r is None
                }
            }),
    {
        let ghost bs = views_of(self.config.branches@);
        let n = self.config.branches.len();
        let mut i: usize = 0;
        while i < n
            invariant
                n == self.config.branches@.len(),
                0 <= i <= n,
                bs == views_of(self.config.branches@),
                forall|k: int| 0 <= k < i ==> !spec_starts_with(#[trigger] bs[k], "feature/"@),
            decreases n - i,
        {
            if starts_with_str(self.config.branches[i].as_str(), "feature/") {
                proof {
                    lemma_feature_index(bs);
                    if spec_feature_index(bs) < i {
                        assert(spec_starts_with(bs[spec_feature_index(bs) as int], "feature/"@));
                        assert(false);
                    }
                    if spec_feature_index(bs) > i {
                        assert(!spec_starts_with(bs[i as int], "feature/"@));
                        assert(false);
                    }
                }
                return Some(self.config.branches[i].clone());
            }
            i = i + 1;
        }
        proof {
            lemma_feature_index(bs);
            if spec_feature_index(bs) < bs.len() {
                assert(spec_starts_with(bs[spec_feature_index(bs) as int], "feature/"@));
            }
        }
        None
    }
}

/// The name of the i-th generated file.
pub open spec fn spec_file_name(i: nat) -> Seq<char> {
    "random_file_"@ + dec_str(i) + ".txt"@
}

/// Name of the i-th file created and committed by the benchmark.
pub fn file_name_for(i: usize) -> (r: String)
    ensures
        r@ == spec_file_name(i as nat),
{
    let mut s = "random_file_".to_owned();
    s.append(u64_to_string(i as u64).as_str());
    s.append(".txt");
    proof {
        assert(s@ =~= spec_file_name(i as nat));
    }
    s
}

/// An alphanumeric character: ASCII letter or digit.
pub open spec fn is_alnum_char(c: char) -> bool {
    (48 <= c as u32 <= 57) || (65 <= c as u32 <= 90) || (97 <= c as u32 <= 122)
}

/// Relies on `rand::distributions::Alphanumeric`: every sample is one
/// of the sixty-two ASCII alphanumeric characters.  Which one is up
/// to the generator.
#[verifier::external_body]
fn sample_alphanumeric() -> (c: char)
    ensures
        is_alnum_char(c),
{
    rand::Rng::sample(&mut rand::thread_rng(), rand::distributions::Alphanumeric) as char
}

/// Random alphanumeric content of exactly `len` characters for one
/// generated file.
pub fn random_content(len: usize) -> (r: String)
    ensures
        r@.len() == len,
        forall|k: int| 0 <= k < r@.len() ==> is_alnum_char(#[trigger] r@[k]),
{
    let mut s = String::new();
    let mut buf: Vec<char> = Vec::new();
    let mut i: usize = 0;
    while i < len
        invariant
            0 <= i <= len,
            s@.len() == i,
            forall|k: int| 0 <= k < s@.len() ==> is_alnum_char(#[trigger] s@[k]),
        decreases len - i,
    {
        let c = sample_alphanumeric();
        push_char(&mut s, c);
        i = i + 1;
    }
    s
}

/// Relies on `String::push`: appends exactly the one character.
#[verifier::external_body]
fn push_char(s: &mut String, c: char)
    ensures
        final(s)@ == old(s)@.push(c),
{
    s.push(c);
}

/// Relies on `rand::seq::SliceRandom::choose_multiple`: as many
/// elements as asked for — all of them when the slice is shorter —
/// drawn from the slice at distinct positions, in an unspecified
/// order.
#[verifier::external_body]
fn choose_indices(items: &Vec<usize>, amount: usize) -> (r: Vec<usize>)
    ensures
        r@.len() == if amount <= items@.len() {
            amount as int
        } else {
            items@.len() as int
        },
        forall|k: int| 0 <= k < r@.len() ==> items@.contains(#[trigger] r@[k]),
        items@.no_duplicates() ==> r@.no_duplicates(),
{
    items.as_slice().choose_multiple(&mut rand::thread_rng(), amount).cloned().collect()
}

/// Picks the files a removal pass deletes: `count` of the given
/// names, fewer only when there are fewer names.  Which names are
/// picked is up to the generator; every picked name is one of the
/// given ones.
pub fn select_files_to_remove(files: &Vec<String>, count: usize) -> (r: Vec<String>)
    ensures
        r@.len() == if count <= files@.len() {
            count as int
        } else {
            files@.len() as int
        },
        forall|k: int| 0 <= k < r@.len() ==> views_of(files@).contains(#[trigger] r@[k]@),
{
    let n = files.len();
    let mut indices: Vec<usize> = Vec::new();
    let mut i: usize = 0;
    while i < n
        invariant
            0 <= i <= n,
            indices@.len() == i,
            forall|k: int| 0 <= k < i ==> indices@[k] == k,
        decreases n - i,
    {
        indices.push(i);
        i = i + 1;
    }
    let chosen = choose_indices(&indices, count);
    let mut picked: Vec<String> = Vec::new();
    let m = chosen.len();
    let mut j: usize = 0;
    while j < m
        invariant
            m == chosen@.len(),
            n == files@.len(),
            indices@.len() == n,
            forall|k: int| 0 <= k < n ==> indices@[k] == k,
            forall|k: int| 0 <= k < m ==> indices@.contains(#[trigger] chosen@[k]),
            0 <= j <= m,
            picked@.len() == j,
            forall|k: int| 0 <= k < j ==> views_of(files@).contains(#[trigger] picked@[k]@),
        decreases m - j,
    {
        let idx = chosen[j];
        proof {
            let p = choose|p: int| 0 <= p < indices@.len() && indices@[p] == chosen@[j as int];
            assert(indices@.contains(chosen@[j as int]));
            assert(indices@[p] == p);
            assert(idx < n);
        }
        picked.push(files[idx].clone());
        proof {
            assert(views_of(files@)[idx as int] == picked@.last()@);
            assert(views_of(files@).contains(picked@.last()@));
        }
        j = j + 1;
    }
    picked
}

/// The names with the generated-file extension, in order.
pub open spec fn spec_txt_filter(names: Seq<Seq<char>>) -> Seq<Seq<char>>
    decreases names.len(),
{
    if names.len() == 0 {
        Seq::empty()
    } else {
        let p = spec_txt_filter(names.drop_last());
        if spec_ends_with(names.last(), ".txt"@) {
            p.push(names.last())
        } else {
            p
        }
    }
}

/// Selects the `.txt` files from a directory listing, in order.
pub fn txt_files(names: &Vec<String>) -> (r: Vec<String>)
    ensures
        views_of(r@) == spec_txt_filter(views_of(names@)),
{
    let mut kept: Vec<String> = Vec::new();
    let n = names.len();
    let mut i: usize = 0;
    proof {
        assert(views_of(names@).subrange(0, 0) =~= Seq::<Seq<char>>::empty());
        assert(views_of(kept@) =~= Seq::<Seq<char>>::empty());
    }
    while i < n
        invariant
            n == names@.len(),
            0 <= i <= n,
            views_of(kept@) =~= spec_txt_filter(views_of(names@).subrange(0, i as int)),
        decreases n - i,
    {
        proof {
            assert(views_of(names@).subrange(0, i + 1).drop_last() =~= views_of(names@).subrange(
                0,
                i as int,
            ));
        }
        if ends_with_str(names[i].as_str(), ".txt") {
            kept.push(names[i].clone());
            proof {
                assert(views_of(kept@) =~= views_of(kept@.drop_last()).push(names@[i as int]@));
            }
        }
        i = i + 1;
    }
    proof {
        assert(views_of(names@).subrange(0, n as int) =~= views_of(names@));
    }
    kept
}

} // verus!

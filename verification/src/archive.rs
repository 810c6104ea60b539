//! The run archive: deterministic artifact names that encode the run
//! type and a sortable timestamp, and the listing of matching names.
//!
//! Listing matches the run-type token as a substring of the file name,
//! as the archive has always been named.  A run type that is a
//! substring of another (`on` inside `security_on`) will over-match;
//! callers that need exact partitioning must pick prefix-free tokens.

use vstd::prelude::*;
use chrono::{Datelike, Timelike};
use crate::text::{
    contains_str, dec_str, digit_str, ends_with_str, spec_contains_sub, spec_ends_with, views_of,
    u64_to_string,
};

verus! {

/// A local wall-clock instant, split into plain calendar fields.
pub struct Timestamp {
    pub year: u32,
    pub month: u32,
    pub day: u32,
    pub hour: u32,
    pub minute: u32,
    pub second: u32,
}

impl Timestamp {
    /// Calendar ranges, and a four-digit year so that rendered
    /// timestamps all have the same width and sort by recency.
    pub open spec fn wf(self) -> bool {
        &&& self.year <= 9999
        &&& 1 <= self.month <= 12
        &&& 1 <= self.day <= 31
        &&& self.hour <= 23
        &&& self.minute <= 59
        &&& self.second <= 59
    }
}

/// Decimal rendering zero-padded to two digits.
pub open spec fn pad2(n: nat) -> Seq<char> {
    if n < 10 {
        seq!['0'] + dec_str(n)
    } else {
        dec_str(n)
    }
}

/// Decimal rendering zero-padded to four digits.
pub open spec fn pad4(n: nat) -> Seq<char> {
    if n < 10 {
        seq!['0', '0', '0'] + dec_str(n)
    } else if n < 100 {
        seq!['0', '0'] + dec_str(n)
    } else if n < 1000 {
        seq!['0'] + dec_str(n)
    } else {
        dec_str(n)
    }
}

/// The fixed-width, locale-independent timestamp part of an artifact
/// name: year, month, day, an underscore, hour, minute, second.
pub open spec fn spec_timestamp_str(t: Timestamp) -> Seq<char> {
    pad4(t.year as nat) + pad2(t.month as nat) + pad2(t.day as nat) + seq!['_'] + pad2(
        t.hour as nat,
    ) + pad2(t.minute as nat) + pad2(t.second as nat)
}

/// The artifact name for one finished run: timestamp, underscore, run
/// type, `.csv`.
pub open spec fn spec_archive_name(run_type: Seq<char>, t: Timestamp) -> Seq<char> {
    spec_timestamp_str(t) + seq!['_'] + run_type + ".csv"@
}

fn underscore_str() -> (r: &'static str)
    ensures
        r@ =~= seq!['_'],
{
    proof {
        reveal_strlit("_");
    }
    "_"
}

fn pad2_str(n: u32) -> (r: String)
    requires
        n <= 99,
    ensures
        r@ == pad2(n as nat),
{
    let mut s = String::new();
    if n < 10 {
        s.append(digit_str(0));
    }
    s.append(u64_to_string(n as u64).as_str());
    proof {
        assert(s@ =~= pad2(n as nat));
    }
    s
}

fn pad4_str(n: u32) -> (r: String)
    requires
        n <= 9999,
    ensures
        r@ == pad4(n as nat),
{
    let mut s = String::new();
    if n < 10 {
        s.append(digit_str(0));
        s.append(digit_str(0));
        s.append(digit_str(0));
    } else if n < 100 {
        s.append(digit_str(0));
        s.append(digit_str(0));
    } else if n < 1000 {
        s.append(digit_str(0));
    }
    s.append(u64_to_string(n as u64).as_str());
    proof {
        assert(s@ =~= pad4(n as nat));
    }
    s
}

/// Renders a timestamp in the artifact-name form.
pub fn timestamp_string(t: &Timestamp) -> (r: String)
    requires
        t.wf(),
    ensures
        r@ == spec_timestamp_str(*t),
{
    let mut s = pad4_str(t.year);
    s.append(pad2_str(t.month).as_str());
    s.append(pad2_str(t.day).as_str());
    s.append(underscore_str());
    s.append(pad2_str(t.hour).as_str());
    s.append(pad2_str(t.minute).as_str());
    s.append(pad2_str(t.second).as_str());
    proof {
        assert(s@ =~= spec_timestamp_str(*t));
    }
    s
}

/// The deterministic artifact name for a finished run of `run_type`
/// at instant `t`.
pub fn archive_name(run_type: &str, t: &Timestamp) -> (r: String)
    requires
        t.wf(),
    ensures
        r@ == spec_archive_name(run_type@, *t),
{
    let mut s = timestamp_string(t);
    s.append(underscore_str());
    s.append(run_type);
    s.append(".csv");
    proof {
        assert(s@ =~= spec_archive_name(run_type@, *t));
    }
    s
}

/// Whether a file name belongs to a run type's bucket: it holds the
/// run-type token and has the artifact extension.
pub open spec fn spec_keep_name(name: Seq<char>, token: Seq<char>) -> bool {
    spec_contains_sub(name, token) && spec_ends_with(name, ".csv"@)
}

/// The names kept for a run type, in the order given.
pub open spec fn spec_list_filter(names: Seq<Seq<char>>, token: Seq<char>) -> Seq<Seq<char>>
    decreases names.len(),
{
    if names.len() == 0 {
        Seq::empty()
    } else {
        let p = spec_list_filter(names.drop_last(), token);
        if spec_keep_name(names.last(), token) {
            p.push(names.last())
        } else {
            p
        }
    }
}

/// Selects, from a directory listing, the artifact names of one run
/// type, preserving the listing order.
pub fn list_artifacts(names: &Vec<String>, run_type: &str) -> (r: Vec<String>)
    ensures
        views_of(r@) == spec_list_filter(views_of(names@), run_type@),
{
    let mut kept: Vec<String> = Vec::new();
    let mut i: usize = 0;
    proof {
        assert(views_of(names@).subrange(0, 0) =~= Seq::<Seq<char>>::empty());
        assert(views_of(kept@) =~= Seq::<Seq<char>>::empty());
    }
    while i < names.len()
        invariant
            0 <= i <= names@.len(),
            views_of(kept@) =~= spec_list_filter(views_of(names@).subrange(0, i as int), run_type@),
        decreases names@.len() - i,
    {
        proof {
            assert(views_of(names@).subrange(0, i + 1).drop_last() =~= views_of(names@).subrange(
                0,
                i as int,
            ));
        }
        if contains_str(names[i].as_str(), run_type) && ends_with_str(names[i].as_str(), ".csv") {
            kept.push(names[i].clone());
            proof {
                assert(views_of(kept@) =~= views_of(kept@.drop_last()).push(names@[i as int]@));
            }
        }
        i = i + 1;
    }
    proof {
        assert(views_of(names@).subrange(0, names@.len() as int) =~= views_of(names@));
    }
    kept
}

/// Relies on `chrono::Local::now` and chrono's `Datelike` / `Timelike`
/// accessors, whose documentation gives these ranges: month 1 to 12,
/// day 1 to 31, hour below 24, minute and second below 60.  Nothing is
/// promised of the year: the clock decides it.
#[verifier::external_body]
fn local_now_fields() -> (r: (i32, u32, u32, u32, u32, u32))
    ensures
        1 <= r.1 <= 12,
        1 <= r.2 <= 31,
        r.3 <= 23,
        r.4 <= 59,
        r.5 <= 59,
{
    let t = chrono::Local::now();
    (t.year(), t.month(), t.day(), t.hour(), t.minute(), t.second())
}

/// The current local instant, or `None` in the degenerate case of a
/// clock outside the four-digit-year era that artifact names encode.
pub fn now_timestamp() -> (r: Option<Timestamp>)
    ensures
        r matches Some(t) ==> t.wf(),
{
    let (year, month, day, hour, minute, second) = local_now_fields();
    if year >= 0 && year <= 9999 {
        Some(Timestamp { year: year as u32, month, day, hour, minute, second })
    } else {
        None
    }
}

pub proof fn lemma_list_filter_no_match(names: Seq<Seq<char>>, token: Seq<char>)
    requires
        forall|i: int| 0 <= i < names.len() ==> !spec_contains_sub(#[trigger] names[i], token),
    ensures
        spec_list_filter(names, token) == Seq::<Seq<char>>::empty(),
    decreases names.len(),
{
    if names.len() > 0 {
        lemma_list_filter_no_match(names.drop_last(), token);
    }
}

/// Archiving then listing: when no prior artifact name holds the
/// run-type token, the listing after one archived run returns exactly
/// the one new name, and that name holds both the rendered timestamp
/// and the run-type token.
pub proof fn lemma_archive_then_list(listing: Seq<Seq<char>>, run_type: Seq<char>, t: Timestamp)
    requires
        forall|i: int| 0 <= i < listing.len() ==> !spec_contains_sub(#[trigger] listing[i], run_type),
    ensures
        spec_list_filter(listing.push(spec_archive_name(run_type, t)), run_type) =~= seq![
            spec_archive_name(run_type, t),
        ],
        spec_contains_sub(spec_archive_name(run_type, t), spec_timestamp_str(t)),
        spec_contains_sub(spec_archive_name(run_type, t), run_type),
{
    let name = spec_archive_name(run_type, t);
    let ts = spec_timestamp_str(t);
    assert(name.subrange(0, 0 + ts.len() as int) =~= ts);
    assert(spec_contains_sub(name, ts));
    let at = ts.len() + 1;
    assert(name.subrange(at as int, at + run_type.len() as int) =~= run_type);
    assert(spec_contains_sub(name, run_type));
    assert(name.subrange(name.len() - ".csv"@.len(), name.len() as int) =~= ".csv"@);
    assert(spec_keep_name(name, run_type));
    lemma_list_filter_no_match(listing, run_type);
    assert(listing.push(name).drop_last() =~= listing);
    assert(spec_list_filter(listing.push(name), run_type) =~= Seq::<Seq<char>>::empty().push(name));
}

} // verus!

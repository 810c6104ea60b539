//! The result recorder: an append-only, row-oriented sink with an
//! explicit durability point.
//!
//! The writer models a buffered file as two parts: `durable` holds what
//! a reader of the destination would already see, `buffered` what has
//! been written but not yet flushed.  The surrounding application
//! persists `durable` after every flush, so a crash mid-run leaves a
//! truncated-but-valid prefix of rows, never a torn row.

use vstd::prelude::*;
use crate::text::views_of;

verus! {

/// Fields of one row joined by single commas.  No quoting or escaping:
/// labels must not contain the delimiter.
pub open spec fn spec_join_fields(fields: Seq<Seq<char>>) -> Seq<char>
    decreases fields.len(),
{
    if fields.len() == 0 {
        Seq::empty()
    } else if fields.len() == 1 {
        fields[0]
    } else {
        spec_join_fields(fields.drop_last()) + seq![','] + fields.last()
    }
}

/// One rendered row: the joined fields and a terminating newline.
pub open spec fn spec_row(fields: Seq<Seq<char>>) -> Seq<char> {
    spec_join_fields(fields) + seq!['\n']
}

/// Comma as a one-character string.
fn comma_str() -> (r: &'static str)
    ensures
        r@ =~= seq![','],
{
    proof {
        reveal_strlit(",");
    }
    ","
}

/// Newline as a one-character string.
fn newline_str() -> (r: &'static str)
    ensures
        r@ =~= seq!['\n'],
{
    proof {
        reveal_strlit("\n");
    }
    "\n"
}

/// Row-oriented recorder for one run.
pub struct CsvWriter {
    /// Content already made durable by a flush.
    pub durable: String,
    /// Rows written since the last flush.
    pub buffered: String,
}

impl CsvWriter {
    /// A fresh recorder over an empty destination.
    pub fn new() -> (w: CsvWriter)
        ensures
            w.durable@ == Seq::<char>::empty(),
            w.buffered@ == Seq::<char>::empty(),
    {
        CsvWriter { durable: String::new(), buffered: String::new() }
    }

    /// Appends one row: the fields joined by commas, then a newline.
    pub fn write_row(&mut self, fields: &Vec<String>)
        ensures
            final(self).durable == old(self).durable,
            final(self).buffered@ == old(self).buffered@ + spec_row(views_of(fields@)),
    {
        let n = fields.len();
        let mut i: usize = 0;
        while i < n
            invariant
                n == fields@.len(),
                0 <= i <= n,
                self.durable == old(self).durable,
                i == 0 ==> self.buffered@ == old(self).buffered@,
                i > 0 ==> self.buffered@ == old(self).buffered@ + spec_join_fields(
                    views_of(fields@).subrange(0, i as int),
                ),
            decreases n - i,
        {
            if i > 0 {
                self.buffered.append(comma_str());
            }
            self.buffered.append(fields[i].as_str());
            proof {
                let views = views_of(fields@);
                if i == 0 {
                    assert(spec_join_fields(views.subrange(0, 1)) == views.subrange(0, 1)[0]);
                } else {
                    assert(views.subrange(0, i + 1).drop_last() =~= views.subrange(0, i as int));
                    assert(spec_join_fields(views.subrange(0, i + 1)) == spec_join_fields(
                        views.subrange(0, i as int),
                    ) + seq![','] + views.subrange(0, i + 1).last());
                }
            }
            i = i + 1;
        }
        self.buffered.append(newline_str());
        proof {
            let views = views_of(fields@);
            if n == 0 {
                assert(spec_join_fields(views) =~= Seq::<char>::empty());
            } else {
                assert(views.subrange(0, n as int) =~= views);
            }
            assert(self.buffered@ =~= old(self).buffered@ + spec_row(views));
        }
    }

    /// Makes everything written so far durable.
    pub fn flush(&mut self)
        ensures
            final(self).durable@ == old(self).durable@ + old(self).buffered@,
            final(self).buffered@ == Seq::<char>::empty(),
    {
        self.durable.append(self.buffered.as_str());
        self.buffered = String::new();
    }

    /// What a reader of the destination sees after the last flush.
    pub fn durable_contents(&self) -> (r: &String)
        ensures
            r@ == self.durable@,
    {
        &self.durable
    }
}

} // verus!

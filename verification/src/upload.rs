//! Upload decisions: whether an account may upload at all, how the category
//! field updates an upload's category, how a stored file is named from its
//! content hash, and the figures the file list shows. Streaming the upload
//! to disk and the rows behind it are the surrounding program's work.

use vstd::prelude::*;
use vstd::string::StringExecFns;

use crate::text::lower_of;
use crate::text::lowercase;

verus! {

/// The file-action form: the hash of the file to delete.
pub struct FileActionForm {
    pub delete: String,
}

/// Most bytes an account may have uploaded in total.
pub const UPLOAD_LIMIT_BYTES: i64 = 20971520;

/// Whether an account may upload more files: its uploaded total is within
/// the limit and it has credit left.
pub fn upload_allowed(file_uploaded: i64, credit_positive: bool) -> (r: bool)
    ensures
        r == (file_uploaded <= UPLOAD_LIMIT_BYTES && credit_positive),
{
    file_uploaded <= UPLOAD_LIMIT_BYTES && credit_positive
}

/// How the category form field updates an upload's category: the first
/// non-empty field, lower-cased, replaces the default; anything else leaves
/// the category as it is.
pub fn update_category(current: String, field_text: &str) -> (r: String)
    ensures
        (current@ == "default"@ && field_text@.len() > 0) ==> r@ == lower_of(field_text@),
        !(current@ == "default"@ && field_text@.len() > 0) ==> r@ == current@,
{
    if current == String::from_str("default") && !field_text.is_empty() {
        lowercase(field_text)
    } else {
        current
    }
}

/// The name a stored file gets: its content hash, a dash, and a random
/// suffix that keeps repeated uploads of one file apart on disk.
pub fn stored_file_name(hash: &str, suffix: &str) -> (r: String)
    ensures
        r@ == hash@ + seq!['-'] + suffix@,
{
    let mut r = String::from_str(hash);
    proof {
        reveal_strlit("-");
        assert("-"@ =~= seq!['-']);
    }
    r.append("-");
    r.append(suffix);
    r
}

/// The sum of the listed files' sizes.
pub open spec fn sum_sizes(sizes: Seq<i64>) -> int
    decreases sizes.len(),
{
    if sizes.len() == 0 {
        0
    } else {
        sum_sizes(sizes.drop_last()) + sizes.last()
    }
}

proof fn lemma_sum_prefix_le(sizes: Seq<i64>, i: int)
    requires
        0 <= i <= sizes.len(),
        forall|j: int| 0 <= j < sizes.len() ==> #[trigger] sizes[j] >= 0,
    ensures
        sum_sizes(sizes.take(i)) <= sum_sizes(sizes),
    decreases sizes.len() - i,
{
    if i < sizes.len() {
        assert(sizes.take(i + 1).drop_last() =~= sizes.take(i));
        assert(sizes.take(i + 1).last() == sizes[i]);
        lemma_sum_prefix_le(sizes, i + 1);
    } else {
        assert(sizes.take(i) =~= sizes);
    }
}

/// The total size the file list shows; absent when the sum cannot be held in
/// a 64-bit word. File sizes are byte counts, never negative.
pub fn total_size(sizes: &Vec<i64>) -> (r: Option<i64>)
    requires
        forall|j: int| 0 <= j < sizes@.len() ==> #[trigger] sizes@[j] >= 0,
    ensures
        (match r {
            Option::Some(t) => t as int == sum_sizes(sizes@),
            Option::None => sum_sizes(sizes@) > i64::MAX as int,
        }),
{
    let mut acc: i64 = 0;
    let mut i: usize = 0;
    proof {
        assert(sizes@.take(0) =~= Seq::<i64>::empty());
    }
    while i < sizes.len()
        invariant
            i <= sizes@.len(),
            acc as int == sum_sizes(sizes@.take(i as int)),
            acc >= 0,
            forall|j: int| 0 <= j < sizes@.len() ==> #[trigger] sizes@[j] >= 0,
        decreases sizes@.len() - i,
    {
        proof {
            assert(sizes@.take(i + 1).drop_last() =~= sizes@.take(i as int));
            assert(sizes@.take(i + 1).last() == sizes@[i as int]);
        }
        let x = sizes[i];
        if acc > i64::MAX - x {
            proof {
                lemma_sum_prefix_le(sizes@, i + 1);
            }
            return None;
        }
        acc = acc + x;
        i = i + 1;
    }
    proof {
        assert(sizes@.take(sizes@.len() as int) =~= sizes@);
    }
    Some(acc)
}

/// How many of the listed files are processed.
pub open spec fn count_true(flags: Seq<bool>) -> int
    decreases flags.len(),
{
    if flags.len() == 0 {
        0
    } else {
        count_true(flags.drop_last()) + if flags.last() {
            1int
        } else {
            0int
        }
    }
}

/// How many of the listed files carry a processed timestamp.
pub fn processed_count(processed: &Vec<bool>) -> (r: usize)
    ensures
        r as int == count_true(processed@),
{
    let mut n: usize = 0;
    let mut i: usize = 0;
    proof {
        assert(processed@.take(0) =~= Seq::<bool>::empty());
    }
    while i < processed.len()
        invariant
            i <= processed@.len(),
            n as int == count_true(processed@.take(i as int)),
            n <= i,
        decreases processed@.len() - i,
    {
        proof {
            assert(processed@.take(i + 1).drop_last() =~= processed@.take(i as int));
            assert(processed@.take(i + 1).last() == processed@[i as int]);
        }
        if processed[i] {
            n = n + 1;
        }
        i = i + 1;
    }
    proof {
        assert(processed@.take(processed@.len() as int) =~= processed@);
    }
    n
}

} // verus!

//! Heuristic that tells binary data from text.

use vstd::prelude::*;

verus! {

/// Number of leading bytes that the classifier looks at.
pub const SAMPLE_LIMIT: usize = 4096;

/// A sample is binary only if it holds more control bytes than this.
pub const CONTROL_COUNT_THRESHOLD: usize = 5;

/// A sample is binary only if more than this many percent of its bytes
/// are control bytes.
pub const CONTROL_PERCENT_THRESHOLD: usize = 10;

/// A NUL byte or another control code below 32, other than tab, line feed
/// and carriage return.
pub open spec fn is_control_byte(b: u8) -> bool {
    b < 32 && b != 9 && b != 10 && b != 13
}

/// How many bytes of `s` are control bytes.
pub open spec fn control_count(s: Seq<u8>) -> nat
    decreases s.len(),
{
    if s.len() == 0 {
        0
    } else {
        control_count(s.drop_last()) + if is_control_byte(s.last()) {
            1nat
        } else {
            0nat
        }
    }
}

/// The part of `data` that is classified: its first `SAMPLE_LIMIT` bytes.
pub open spec fn sample(data: Seq<u8>) -> Seq<u8> {
    if data.len() <= SAMPLE_LIMIT {
        data
    } else {
        data.take(SAMPLE_LIMIT as int)
    }
}

/// Whether a sample of `len` bytes with `count` control bytes is binary.
pub open spec fn exceeds_thresholds(count: nat, len: nat) -> bool {
    len > 0 && count > CONTROL_COUNT_THRESHOLD && count * 100 > len * CONTROL_PERCENT_THRESHOLD
}

/// Whether `data` is classified as binary.
pub open spec fn is_binary(data: Seq<u8>) -> bool {
    exceeds_thresholds(control_count(sample(data)), sample(data).len())
}

/// The count of control bytes never shrinks when a sample grows.
pub proof fn lemma_control_count_monotone(s: Seq<u8>, i: int, j: int)
    requires
        0 <= i <= j <= s.len(),
    ensures
        control_count(s.take(i)) <= control_count(s.take(j)) <= j,
    decreases j,
{
    if j == 0 {
        assert(s.take(0).len() == 0);
    } else {
        assert(s.take(j).drop_last() =~= s.take(j - 1));
        if i < j {
            lemma_control_count_monotone(s, i, j - 1);
        } else {
            lemma_control_count_monotone(s, j - 1, j - 1);
        }
    }
}

/// A sample that holds control bytes only holds as many of them as it has
/// bytes, and a sample that holds none holds none.
pub proof fn lemma_control_count_of_uniform(s: Seq<u8>)
    ensures
        (forall|i: int| 0 <= i < s.len() ==> is_control_byte(#[trigger] s[i])) ==> control_count(s)
            == s.len(),
        (forall|i: int| 0 <= i < s.len() ==> !is_control_byte(#[trigger] s[i])) ==> control_count(s)
            == 0,
    decreases s.len(),
{
    if s.len() > 0 {
        lemma_control_count_of_uniform(s.drop_last());
        assert forall|i: int| 0 <= i < s.drop_last().len() implies s.drop_last()[i] == s[i] by {}
        if forall|i: int| 0 <= i < s.len() ==> is_control_byte(#[trigger] s[i]) {
            assert(forall|i: int|
                0 <= i < s.drop_last().len() ==> is_control_byte(#[trigger] s.drop_last()[i]));
        }
        if forall|i: int| 0 <= i < s.len() ==> !is_control_byte(#[trigger] s[i]) {
            assert(forall|i: int|
                0 <= i < s.drop_last().len() ==> !is_control_byte(#[trigger] s.drop_last()[i]));
        }
    }
}

/// Data that begins with more than five control bytes and holds nothing
/// else in its sample is binary.
pub proof fn lemma_control_bytes_are_binary(data: Seq<u8>)
    requires
        data.len() > CONTROL_COUNT_THRESHOLD,
        forall|i: int| 0 <= i < sample(data).len() ==> is_control_byte(#[trigger] sample(data)[i]),
    ensures
        is_binary(data),
{
    lemma_control_count_of_uniform(sample(data));
}

/// Data without a control byte in its sample is text, and so is data
/// without any byte.
pub proof fn lemma_plain_bytes_are_text(data: Seq<u8>)
    requires
        forall|i: int| 0 <= i < sample(data).len() ==> !is_control_byte(#[trigger] sample(data)[i]),
    ensures
        !is_binary(data),
{
    lemma_control_count_of_uniform(sample(data));
}

/// Classifies a buffer as binary (`true`) or text (`false`).
///
/// Only the first `SAMPLE_LIMIT` bytes are looked at. The buffer is binary
/// when that sample holds more than `CONTROL_COUNT_THRESHOLD` control bytes
/// and they make up more than `CONTROL_PERCENT_THRESHOLD` percent of it. An
/// empty buffer is text.
pub fn is_binary_data(data: &[u8]) -> (binary: bool)
    ensures
        binary == is_binary(data@),
{
    let limit: usize = if data.len() < SAMPLE_LIMIT {
        data.len()
    } else {
        SAMPLE_LIMIT
    };
    if limit == 0 {
        return false;
    }
    proof {
        assert(sample(data@) =~= data@.take(limit as int));
    }
    let mut count: usize = 0;
    let mut i: usize = 0;
    while i < limit
        invariant
            0 < limit <= data@.len(),
            limit <= SAMPLE_LIMIT,
            i <= limit,
            count == control_count(data@.take(i as int)),
            count <= i,
            sample(data@) == data@.take(limit as int),
        decreases limit - i,
    {
        let byte = data[i];
        proof {
            assert(data@.take(i + 1).drop_last() =~= data@.take(i as int));
        }
        if byte < 32 && byte != 9 && byte != 10 && byte != 13 {
            count = count + 1;
            if count > CONTROL_COUNT_THRESHOLD && count * 100 > limit
                * CONTROL_PERCENT_THRESHOLD {
                proof {
                    lemma_control_count_monotone(data@, i + 1, limit as int);
                }
                return true;
            }
        }
        i = i + 1;
    }
    count > CONTROL_COUNT_THRESHOLD && count * 100 > limit * CONTROL_PERCENT_THRESHOLD
}

} // verus!

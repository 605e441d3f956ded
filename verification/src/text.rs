//! Bounds on comparing names.
use vstd::prelude::*;
use vstd::utf8::encode_utf8;

use crate::strings::chars_of;

verus! {

pub const MAX_SIMILARITY_INPUT_BYTES: usize = 4096;

pub const MAX_SIMILARITY_WORK: usize = 1_048_576;

/// Why two names are not compared.
#[derive(Clone, Copy, Debug, PartialEq, Eq, Structural)]
pub enum SimilarityError {
    InputTooLarge,
    WorkLimitExceeded,
}

impl SimilarityError {
    pub open spec fn text(self) -> Seq<char> {
        match self {
            SimilarityError::InputTooLarge => "similarity input exceeds the byte limit"@,
            SimilarityError::WorkLimitExceeded => "similarity comparison exceeds the work limit"@,
        }
    }

    /// A sentence for people.
    pub fn message(&self) -> (message: &'static str)
        ensures
            message@ == self.text(),
    {
        match *self {
            SimilarityError::InputTooLarge => "similarity input exceeds the byte limit",
            SimilarityError::WorkLimitExceeded => "similarity comparison exceeds the work limit",
        }
    }
}

/// Whether two names may be compared: each is short enough, and the product of
/// their lengths in characters, which bounds the work, is too.
pub fn check_similarity(left: &str, right: &str) -> (checked: Result<(), SimilarityError>)
    ensures
        checked == if encode_utf8(left@).len() > MAX_SIMILARITY_INPUT_BYTES || encode_utf8(
            right@,
        ).len() > MAX_SIMILARITY_INPUT_BYTES {
            Err::<(), SimilarityError>(SimilarityError::InputTooLarge)
        } else if left@.len() * right@.len() > MAX_SIMILARITY_WORK {
            Err(SimilarityError::WorkLimitExceeded)
        } else {
            Ok(())
        },
{
    if left.as_bytes().len() > MAX_SIMILARITY_INPUT_BYTES || right.as_bytes().len()
        > MAX_SIMILARITY_INPUT_BYTES {
        return Err(SimilarityError::InputTooLarge);
    }
    let left_count = chars_of(left).len();
    let right_count = chars_of(right).len();
    proof {
        lemma_no_more_chars_than_bytes(left@);
        lemma_no_more_chars_than_bytes(right@);
        assert(left_count * right_count <= 4096 * 4096) by (nonlinear_arith)
            requires
                left_count <= 4096,
                right_count <= 4096,
        ;
    }
    if left_count * right_count > MAX_SIMILARITY_WORK {
        return Err(SimilarityError::WorkLimitExceeded);
    }
    Ok(())
}

proof fn lemma_no_more_chars_than_bytes(text: Seq<char>)
    ensures
        text.len() <= encode_utf8(text).len(),
    decreases text.len(),
{
    if text.len() > 0 {
        lemma_no_more_chars_than_bytes(text.drop_first());
        vstd::utf8::encode_utf8_first_scalar(text);
    }
}

/// Texts are compared in either order or in neither, and none that is too long is compared.
pub proof fn comparisons_are_admitted_both_ways(
    left: &str,
    right: &str,
    there: Result<(), SimilarityError>,
    back: Result<(), SimilarityError>,
)
    requires
        call_ensures(check_similarity, (left, right), there),
        call_ensures(check_similarity, (right, left), back),
    ensures
        there == back,
        there is Ok ==> encode_utf8(left@).len() <= 4096 && encode_utf8(right@).len() <= 4096
            && left@.len() * right@.len() <= 1024 * 1024,
        encode_utf8(left@).len() <= 4096 && encode_utf8(right@).len() <= 4096 && left@.len()
            * right@.len() <= 1024 * 1024 ==> there is Ok,
        encode_utf8(left@).len() > 4096 ==> there == Err::<(), SimilarityError>(
            SimilarityError::InputTooLarge,
        ),
{
    assert(left@.len() * right@.len() == right@.len() * left@.len()) by (nonlinear_arith);
}

} // verus!

//! The shape rules of a training set: as many rows as labels, at least one
//! row, and every row as wide as the parameter vector.

use vstd::prelude::*;

verus! {

/// Why a training set is refused.
#[derive(Clone, Copy, Debug, PartialEq, Eq, Structural)]
pub enum FitError {
    /// The feature matrix and the label vector differ in their row counts.
    ShapeMismatch,
    /// There is no training row, so the mean gradient is undefined.
    EmptyTrainingSet,
    /// Some row of the feature matrix is not as wide as the parameter vector.
    RowWidthMismatch,
}

impl FitError {
    /// The text shown to the user for this error.
    pub open spec fn message_text(self) -> Seq<char> {
        match self {
            FitError::ShapeMismatch => "Mis-matching training sets"@,
            FitError::EmptyTrainingSet => "Empty training set"@,
            FitError::RowWidthMismatch => "Mis-matching row width"@,
        }
    }

    /// Gives the text shown to the user for this error.
    pub fn message(&self) -> (text: String)
        ensures
            text@ == self.message_text(),
    {
        match self {
            FitError::ShapeMismatch => "Mis-matching training sets".to_owned(),
            FitError::EmptyTrainingSet => "Empty training set".to_owned(),
            FitError::RowWidthMismatch => "Mis-matching row width".to_owned(),
        }
    }
}

/// Every row is `num_feat` wide.
pub open spec fn uniform_width(widths: Seq<usize>, num_feat: usize) -> bool {
    forall|i: int| 0 <= i < widths.len() ==> widths[i] == num_feat
}

/// The verdict on a training set, given the width of each row of the feature
/// matrix, the number of labels and the length of the parameter vector. The
/// row count is judged first, then emptiness, then the widths.
pub open spec fn shape_verdict(
    widths: Seq<usize>,
    num_labels: usize,
    num_feat: usize,
) -> Result<(), FitError> {
    if widths.len() != num_labels {
        Err(FitError::ShapeMismatch)
    } else if widths.len() == 0 {
        Err(FitError::EmptyTrainingSet)
    } else if !uniform_width(widths, num_feat) {
        Err(FitError::RowWidthMismatch)
    } else {
        Ok(())
    }
}

/// Judges a training set by its shape alone.
pub fn check_shapes(
    widths: &[usize],
    num_labels: usize,
    num_feat: usize,
) -> (verdict: Result<(), FitError>)
    ensures
        verdict == shape_verdict(widths@, num_labels, num_feat),
        widths@.len() != num_labels ==> verdict == Err::<(), FitError>(FitError::ShapeMismatch),
        widths@.len() == 0 && num_labels == 0 ==> verdict == Err::<(), FitError>(
            FitError::EmptyTrainingSet,
        ),
{
    if widths.len() != num_labels {
        return Err(FitError::ShapeMismatch);
    }
    if num_labels == 0 {
        return Err(FitError::EmptyTrainingSet);
    }
    let mut i: usize = 0;
    while i < widths.len()
        invariant
            i <= widths@.len(),
            widths@.len() == num_labels,
            num_labels != 0,
            forall|k: int| 0 <= k < i ==> widths@[k] == num_feat,
        decreases widths@.len() - i,
    {
        if widths[i] != num_feat {
            return Err(FitError::RowWidthMismatch);
        }
        i += 1;
    }
    Ok(())
}

} // verus!

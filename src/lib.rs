//! Position weight matrices from aligned protein sequences.
//!
//! The pipeline reads FASTA text into sequences, counts each canonical
//! amino acid per alignment column, and renders the per-column relative
//! frequencies as a tab-separated table.
pub mod alphabet;
pub mod fasta;
pub mod matrix;
pub mod text;
pub mod tsv;

use vstd::prelude::*;

use crate::fasta::{fasta_records, parse_fasta};
use crate::matrix::{aligned, calculate_pwm, first_misaligned, model_of, PwmError};
use crate::text::strings_view;
use crate::tsv::{pwm_to_tsv, tsv_text};

verus! {

/// What the whole pipeline gives for a FASTA text: the table of the matrix
/// of its records when they are aligned, else the error of the first
/// record that is not as long as the first one.
pub open spec fn table_of_text(text: Seq<char>, r: Result<Seq<char>, PwmError>) -> bool {
    let seqs = fasta_records(text);
    match r {
        Ok(s) => aligned(seqs) && s == tsv_text(model_of(seqs)),
        Err(PwmError::UnequalLength { index, expected, found }) => !aligned(seqs)
            && first_misaligned(seqs, index as int) && expected == seqs[0].len() && found
            == seqs[index as int].len(),
    }
}

/// The text view of a pipeline result.
pub open spec fn result_view(r: Result<String, PwmError>) -> Result<Seq<char>, PwmError> {
    match r {
        Ok(s) => Ok(s@),
        Err(e) => Err(e),
    }
}

/// The pipeline's result is a function of its input text: two runs on the
/// same text give the same table, character for character, or the same
/// error.
pub proof fn lemma_pipeline_deterministic(
    text: Seq<char>,
    r1: Result<Seq<char>, PwmError>,
    r2: Result<Seq<char>, PwmError>,
)
    requires
        table_of_text(text, r1),
        table_of_text(text, r2),
    ensures
        r1 == r2,
{
    let seqs = fasta_records(text);
    match (r1, r2) {
        (
            Err(PwmError::UnequalLength { index: i1, .. }),
            Err(PwmError::UnequalLength { index: i2, .. }),
        ) => {
            if i1 < i2 {
                assert(seqs[i1 as int].len() == seqs[0].len());
            } else if i2 < i1 {
                assert(seqs[i2 as int].len() == seqs[0].len());
            }
        },
        _ => {},
    }
}

/// Reads the FASTA text, builds the frequency matrix of its records, and
/// renders it as a tab-separated table.
pub fn fasta_to_tsv(text: &str) -> (r: Result<String, PwmError>)
    ensures
        table_of_text(text@, result_view(r)),
        r is Ok <==> aligned(fasta_records(text@)),
{
    let seqs = parse_fasta(text);
    match calculate_pwm(seqs.as_slice()) {
        Ok(m) => Ok(pwm_to_tsv(&m)),
        Err(e) => Err(e),
    }
}

} // verus!

use vstd::prelude::*;

use crate::alphabet::{amino_acids, canonical_index, is_canonical, ALPHABET_SIZE};
use crate::text::{chars_of, strings_view};

verus! {

/// The number of sequences among `seqs` whose symbol at column `col` is `c`.
pub open spec fn count_at(seqs: Seq<Seq<char>>, col: int, c: char) -> nat
    decreases seqs.len(),
{
    if seqs.len() == 0 {
        0
    } else {
        count_at(seqs.drop_last(), col, c) + if seqs.last()[col] == c {
            1nat
        } else {
            0nat
        }
    }
}

/// Every sequence has length `len`.
pub open spec fn all_of_length(seqs: Seq<Seq<char>>, len: nat) -> bool {
    forall|i: int| 0 <= i < seqs.len() ==> #[trigger] seqs[i].len() == len
}

/// The number of alignment columns of an aligned collection.
pub open spec fn column_count(seqs: Seq<Seq<char>>) -> nat {
    if seqs.len() == 0 {
        0
    } else {
        seqs[0].len()
    }
}

/// Every sequence is as long as the first.
pub open spec fn aligned(seqs: Seq<Seq<char>>) -> bool {
    all_of_length(seqs, column_count(seqs))
}

/// The first index whose sequence is not as long as the first sequence.
pub open spec fn first_misaligned(seqs: Seq<Seq<char>>, i: int) -> bool {
    &&& 0 < i < seqs.len()
    &&& seqs[i].len() != seqs[0].len()
    &&& forall|j: int| 0 <= j < i ==> #[trigger] seqs[j].len() == seqs[0].len()
}

/// Why a collection of sequences has no frequency matrix.
#[derive(Debug, Clone, Copy, PartialEq, Eq, Structural)]
pub enum PwmError {
    /// The sequence at `index` has `found` symbols where the first sequence
    /// has `expected`.
    UnequalLength { index: usize, expected: usize, found: usize },
}

/// The mathematical content of a frequency matrix: the number of sequences
/// counted and, for each column, the count of each canonical symbol in
/// alphabet order. The relative frequency of a symbol in a column is its
/// count divided by the number of sequences.
pub struct PwmModel {
    pub num_sequences: nat,
    pub counts: Seq<Seq<nat>>,
}

impl PwmModel {
    /// Each column has one count per canonical symbol, none above the
    /// number of sequences, and a matrix with columns counts at least one
    /// sequence.
    pub open spec fn wf(&self) -> bool {
        &&& self.counts.len() > 0 ==> self.num_sequences > 0
        &&& forall|col: int|
            0 <= col < self.counts.len() ==> #[trigger] self.counts[col].len() == ALPHABET_SIZE
        &&& forall|col: int, k: int|
            0 <= col < self.counts.len() && 0 <= k < ALPHABET_SIZE
                ==> #[trigger] self.counts[col][k] <= self.num_sequences
    }
}

/// The matrix of an aligned collection: one column per alignment column,
/// holding the count of each canonical symbol there.
pub open spec fn model_of(seqs: Seq<Seq<char>>) -> PwmModel {
    PwmModel {
        num_sequences: seqs.len(),
        counts: Seq::new(column_count(seqs), |col: int| column_counts(seqs, col)),
    }
}

/// The count of each canonical symbol at column `col`, in alphabet order.
pub open spec fn column_counts(seqs: Seq<Seq<char>>, col: int) -> Seq<nat> {
    Seq::new(ALPHABET_SIZE as nat, |k: int| count_at(seqs, col, amino_acids()[k]))
}

/// The sum of a sequence of counts.
pub open spec fn sum_nat(s: Seq<nat>) -> nat
    decreases s.len(),
{
    if s.len() == 0 {
        0
    } else {
        sum_nat(s.drop_last()) + s.last()
    }
}

/// The number of sequences whose symbol at column `col` is one of `symbols`.
pub open spec fn count_in(seqs: Seq<Seq<char>>, col: int, symbols: Seq<char>) -> nat
    decreases seqs.len(),
{
    if seqs.len() == 0 {
        0
    } else {
        count_in(seqs.drop_last(), col, symbols) + if symbols.contains(seqs.last()[col]) {
            1nat
        } else {
            0nat
        }
    }
}

proof fn lemma_count_in_extend(seqs: Seq<Seq<char>>, col: int, k: int)
    requires
        0 <= k < ALPHABET_SIZE,
    ensures
        count_in(seqs, col, amino_acids().take(k + 1)) == count_in(
            seqs,
            col,
            amino_acids().take(k),
        ) + count_at(seqs, col, amino_acids()[k]),
    decreases seqs.len(),
{
    if seqs.len() > 0 {
        lemma_count_in_extend(seqs.drop_last(), col, k);
        let c = seqs.last()[col];
        let before = amino_acids().take(k);
        let after = amino_acids().take(k + 1);
        crate::alphabet::lemma_amino_acids_distinct();
        assert(after =~= before.push(amino_acids()[k]));
        if before.contains(c) {
            let j = choose|j: int| 0 <= j < before.len() && before[j] == c;
            assert(after[j] == c);
        }
        if c == amino_acids()[k] {
            assert(after[k] == c);
        }
        if after.contains(c) && c != amino_acids()[k] {
            let j = choose|j: int| 0 <= j < after.len() && after[j] == c;
            assert(before[j] == c);
        }
    }
}

proof fn lemma_sum_column(seqs: Seq<Seq<char>>, col: int, k: int)
    requires
        0 <= k <= ALPHABET_SIZE,
    ensures
        sum_nat(column_counts(seqs, col).take(k)) == count_in(seqs, col, amino_acids().take(k)),
    decreases k,
{
    if k == 0 {
        assert(column_counts(seqs, col).take(0) =~= Seq::<nat>::empty());
        lemma_count_in_none(seqs, col);
    } else {
        lemma_sum_column(seqs, col, k - 1);
        lemma_count_in_extend(seqs, col, k - 1);
        assert(column_counts(seqs, col).take(k).drop_last() =~= column_counts(seqs, col).take(
            k - 1,
        ));
    }
}

proof fn lemma_count_in_none(seqs: Seq<Seq<char>>, col: int)
    ensures
        count_in(seqs, col, amino_acids().take(0)) == 0,
    decreases seqs.len(),
{
    if seqs.len() > 0 {
        lemma_count_in_none(seqs.drop_last(), col);
    }
}

proof fn lemma_count_in_bound(seqs: Seq<Seq<char>>, col: int, symbols: Seq<char>)
    ensures
        count_in(seqs, col, symbols) <= seqs.len(),
        count_in(seqs, col, symbols) == seqs.len() <==> forall|i: int|
            0 <= i < seqs.len() ==> symbols.contains(#[trigger] seqs[i][col]),
    decreases seqs.len(),
{
    if seqs.len() > 0 {
        let rest = seqs.drop_last();
        lemma_count_in_bound(rest, col, symbols);
        if count_in(seqs, col, symbols) == seqs.len() {
            assert forall|i: int| 0 <= i < seqs.len() implies symbols.contains(
                #[trigger] seqs[i][col],
            ) by {
                if i < seqs.len() - 1 {
                    assert(rest[i] == seqs[i]);
                }
            }
        }
        if forall|i: int| 0 <= i < seqs.len() ==> symbols.contains(#[trigger] seqs[i][col]) {
            assert forall|i: int| 0 <= i < rest.len() implies symbols.contains(
                #[trigger] rest[i][col],
            ) by {
                assert(rest[i] == seqs[i]);
            }
            assert(symbols.contains(seqs[seqs.len() - 1][col]));
        }
    }
}

/// In every column, the counts of the canonical symbols add up to at most
/// the number of sequences, and to exactly that number just when every
/// sequence has a canonical symbol in that column.
pub proof fn lemma_canonical_counts_bounded(seqs: Seq<Seq<char>>, col: int)
    requires
        aligned(seqs),
        0 <= col < column_count(seqs),
    ensures
        sum_nat(model_of(seqs).counts[col]) <= seqs.len(),
        sum_nat(model_of(seqs).counts[col]) == seqs.len() <==> forall|i: int|
            0 <= i < seqs.len() ==> is_canonical(#[trigger] seqs[i][col]),
{
    lemma_sum_column(seqs, col, ALPHABET_SIZE as int);
    assert(column_counts(seqs, col).take(ALPHABET_SIZE as int) =~= column_counts(seqs, col));
    assert(amino_acids().take(ALPHABET_SIZE as int) =~= amino_acids());
    lemma_count_in_bound(seqs, col, amino_acids());
}

/// No symbol is counted in a column more often than there are sequences.
pub proof fn lemma_count_at_bound(seqs: Seq<Seq<char>>, col: int, c: char)
    ensures
        count_at(seqs, col, c) <= seqs.len(),
    decreases seqs.len(),
{
    if seqs.len() > 0 {
        lemma_count_at_bound(seqs.drop_last(), col, c);
    }
}

/// Per-column counts of the canonical amino acids over a collection of
/// aligned sequences.
pub struct FrequencyMatrix {
    num_sequences: usize,
    columns: Vec<Vec<usize>>,
}

impl View for FrequencyMatrix {
    type V = PwmModel;

    closed spec fn view(&self) -> PwmModel {
        PwmModel {
            num_sequences: self.num_sequences as nat,
            counts: self.columns@.map_values(|c: Vec<usize>| c@.map_values(|x: usize| x as nat)),
        }
    }
}

impl FrequencyMatrix {
    /// The number of sequences counted.
    pub fn num_sequences(&self) -> (n: usize)
        ensures
            n == self@.num_sequences,
    {
        self.num_sequences
    }

    /// The number of alignment columns.
    pub fn num_columns(&self) -> (n: usize)
        ensures
            n == self@.counts.len(),
    {
        self.columns.len()
    }

    /// The count of canonical symbol `k` (its position in the alphabet) at
    /// column `col`.
    pub fn count(&self, col: usize, k: usize) -> (c: usize)
        requires
            self@.wf(),
            col < self@.counts.len(),
            k < ALPHABET_SIZE,
        ensures
            c == self@.counts[col as int][k as int],
    {
        assert(self.columns@[col as int]@.len() == self@.counts[col as int].len());
        self.columns[col][k]
    }
}

proof fn lemma_count_at_step(seqs: Seq<Seq<char>>, i: int, col: int, c: char)
    requires
        0 <= i < seqs.len(),
    ensures
        count_at(seqs.take(i + 1), col, c) == count_at(seqs.take(i), col, c) + if seqs[i][col]
            == c {
            1nat
        } else {
            0nat
        },
{
    assert(seqs.take(i + 1).drop_last() =~= seqs.take(i));
}

/// Counts, for column `col`, each canonical symbol over `rows`.
fn count_column(rows: &Vec<Vec<char>>, col: usize) -> (counts: Vec<usize>)
    requires
        forall|i: int| 0 <= i < rows.len() ==> col < (#[trigger] rows@[i])@.len(),
    ensures
        counts@.len() == ALPHABET_SIZE,
        forall|k: int|
            0 <= k < ALPHABET_SIZE ==> #[trigger] counts@[k] == count_at(
                rows@.map_values(|r: Vec<char>| r@),
                col as int,
                amino_acids()[k],
            ),
        forall|k: int| 0 <= k < ALPHABET_SIZE ==> #[trigger] counts@[k] <= rows.len(),
{
    let ghost seqs = rows@.map_values(|r: Vec<char>| r@);
    let mut counts: Vec<usize> = vec![0; ALPHABET_SIZE];
    for i in 0..rows.len()
        invariant
            seqs == rows@.map_values(|r: Vec<char>| r@),
            forall|i: int| 0 <= i < rows.len() ==> col < (#[trigger] rows@[i])@.len(),
            counts@.len() == ALPHABET_SIZE,
            forall|k: int|
                0 <= k < ALPHABET_SIZE ==> #[trigger] counts@[k] == count_at(
                    seqs.take(i as int),
                    col as int,
                    amino_acids()[k],
                ),
            forall|k: int| 0 <= k < ALPHABET_SIZE ==> #[trigger] counts@[k] <= i,
    {
        let c = rows[i][col];
        let ghost before = counts@;
        proof {
            assert(seqs[i as int][col as int] == c);
            assert forall|k: int| 0 <= k < ALPHABET_SIZE implies count_at(
                seqs.take(i + 1),
                col as int,
                amino_acids()[k],
            ) == count_at(seqs.take(i as int), col as int, amino_acids()[k]) + if c
                == amino_acids()[k] {
                1nat
            } else {
                0nat
            } by {
                lemma_count_at_step(seqs, i as int, col as int, amino_acids()[k]);
            }
        }
        match canonical_index(c) {
            Some(k) => {
                let v = counts[k] + 1;
                counts.set(k, v);
                proof {
                    crate::alphabet::lemma_amino_acids_distinct();
                }
            },
            None => {
                proof {
                    assert forall|k: int| 0 <= k < ALPHABET_SIZE implies amino_acids()[k] != c by {
                        assert(amino_acids().contains(amino_acids()[k]));
                    }
                }
            },
        }
    }
    proof {
        assert(seqs.take(rows.len() as int) =~= seqs);
    }
    counts
}

/// The frequency matrix of `seqs`. Every sequence must be as long as the
/// first; otherwise the first sequence that is not gives the error. An
/// empty collection has a matrix with no columns.
pub fn calculate_pwm(seqs: &[String]) -> (r: Result<FrequencyMatrix, PwmError>)
    ensures
        match r {
            Ok(m) => aligned(strings_view(seqs@)) && m@ == model_of(strings_view(seqs@)) && m@.wf(),
            Err(PwmError::UnequalLength { index, expected, found }) => first_misaligned(
                strings_view(seqs@),
                index as int,
            ) && expected == seqs@[0]@.len() && found == seqs@[index as int]@.len(),
        },
        r is Ok <==> aligned(strings_view(seqs@)),
{
    let ghost sv = strings_view(seqs@);
    let mut rows: Vec<Vec<char>> = Vec::new();
    let mut ncols: usize = 0;
    for i in 0..seqs.len()
        invariant
            sv == strings_view(seqs@),
            rows@.len() == i,
            forall|j: int| 0 <= j < i ==> (#[trigger] rows@[j])@ == sv[j],
            i > 0 ==> ncols == sv[0].len(),
            i == 0 ==> ncols == 0,
            forall|j: int| 0 <= j < i ==> #[trigger] sv[j].len() == sv[0].len(),
    {
        let row = chars_of(seqs[i].as_str());
        if i == 0 {
            ncols = row.len();
        } else if row.len() != ncols {
            proof {
                assert(first_misaligned(sv, i as int));
            }
            return Err(PwmError::UnequalLength { index: i, expected: ncols, found: row.len() });
        }
        rows.push(row);
    }
    let ghost rv = rows@.map_values(|r: Vec<char>| r@);
    proof {
        assert(rv =~= sv);
    }
    let mut columns: Vec<Vec<usize>> = Vec::new();
    for col in 0..ncols
        invariant
            rv == sv,
            rv == rows@.map_values(|r: Vec<char>| r@),
            rows@.len() == seqs@.len(),
            seqs@.len() > 0 ==> ncols == sv[0].len(),
            seqs@.len() == 0 ==> ncols == 0,
            forall|j: int| 0 <= j < rows.len() ==> (#[trigger] rows@[j])@ == sv[j],
            forall|j: int| 0 <= j < sv.len() ==> #[trigger] sv[j].len() == sv[0].len(),
            columns@.len() == col,
            forall|c: int| 0 <= c < col ==> #[trigger] columns@[c]@.len() == ALPHABET_SIZE,
            forall|c: int, k: int|
                0 <= c < col && 0 <= k < ALPHABET_SIZE ==> #[trigger] columns@[c]@[k]
                    == count_at(sv, c, amino_acids()[k]),
            forall|c: int, k: int|
                0 <= c < col && 0 <= k < ALPHABET_SIZE ==> #[trigger] columns@[c]@[k]
                    <= seqs@.len(),
    {
        proof {
            assert forall|i: int| 0 <= i < rows.len() implies col < (#[trigger] rows@[i])@.len() by {
                assert(rows@[i]@ == sv[i]);
            }
        }
        let counts = count_column(&rows, col);
        columns.push(counts);
    }
    let m = FrequencyMatrix { num_sequences: seqs.len(), columns };
    proof {
        let model = model_of(sv);
        assert forall|c: int| 0 <= c < model.counts.len() implies #[trigger] m@.counts[c]
            == model.counts[c] by {
            assert(m@.counts[c] =~= model.counts[c]);
        }
        assert(m@.counts =~= model.counts);
    }
    Ok(m)
}

} // verus!

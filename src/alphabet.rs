use vstd::prelude::*;

verus! {

/// Number of symbols in the canonical amino-acid alphabet.
pub const ALPHABET_SIZE: usize = 20;

/// The canonical amino-acid alphabet, in its fixed order.
pub open spec fn amino_acids() -> Seq<char> {
    seq![
        'A', 'C', 'D', 'E', 'F', 'G', 'H', 'I', 'K', 'L',
        'M', 'N', 'P', 'Q', 'R', 'S', 'T', 'V', 'W', 'Y',
    ]
}

/// Whether `c` belongs to the canonical alphabet.
pub open spec fn is_canonical(c: char) -> bool {
    amino_acids().contains(c)
}

/// The symbols of the alphabet are pairwise distinct.
pub proof fn lemma_amino_acids_distinct()
    ensures
        amino_acids().len() == ALPHABET_SIZE,
        forall|i: int, j: int|
            0 <= i < ALPHABET_SIZE && 0 <= j < ALPHABET_SIZE && i != j
                ==> amino_acids()[i] != amino_acids()[j],
{
}

/// The symbol at position `i` of the canonical alphabet.
pub fn amino_acid(i: usize) -> (c: char)
    requires
        i < ALPHABET_SIZE,
    ensures
        c == amino_acids()[i as int],
{
    match i {
        0 => 'A',
        1 => 'C',
        2 => 'D',
        3 => 'E',
        4 => 'F',
        5 => 'G',
        6 => 'H',
        7 => 'I',
        8 => 'K',
        9 => 'L',
        10 => 'M',
        11 => 'N',
        12 => 'P',
        13 => 'Q',
        14 => 'R',
        15 => 'S',
        16 => 'T',
        17 => 'V',
        18 => 'W',
        _ => 'Y',
    }
}

/// The position of `c` in the canonical alphabet, or `None` for any other
/// character.
pub fn canonical_index(c: char) -> (r: Option<usize>)
    ensures
        match r {
            Some(i) => i < ALPHABET_SIZE && amino_acids()[i as int] == c,
            None => !is_canonical(c),
        },
{
    let mut i: usize = 0;
    while i < ALPHABET_SIZE
        invariant
            i <= ALPHABET_SIZE,
            amino_acids().len() == ALPHABET_SIZE,
            forall|j: int| 0 <= j < i ==> amino_acids()[j] != c,
        decreases ALPHABET_SIZE - i,
    {
        if amino_acid(i) == c {
            return Some(i);
        }
        i = i + 1;
    }
    None
}

} // verus!

use pwm::alphabet::{amino_acid, canonical_index, ALPHABET_SIZE};
use pwm::fasta::parse_fasta;
use pwm::fasta_to_tsv;
use pwm::matrix::{calculate_pwm, PwmError};
use pwm::tsv::{frequency_per_mille, frequency_string, pwm_to_tsv};

const HEADER: &str = "Position\tA\tC\tD\tE\tF\tG\tH\tI\tK\tL\tM\tN\tP\tQ\tR\tS\tT\tV\tW\tY\n";

fn strings(v: &[&str]) -> Vec<String> {
    v.iter().map(|s| s.to_string()).collect()
}

fn row(pos: usize, freqs: &[(char, &str)]) -> String {
    let mut line = format!("{}", pos);
    for k in 0..ALPHABET_SIZE {
        let aa = amino_acid(k);
        let f = freqs.iter().find(|(c, _)| *c == aa).map(|(_, f)| *f).unwrap_or("0.000");
        line.push('\t');
        line.push_str(f);
    }
    line.push('\n');
    line
}

#[test]
fn two_records_give_expected_table() {
    let text = ">seq1\nAC\n>seq2\nAD\n";
    let seqs = parse_fasta(text);
    assert_eq!(seqs, strings(&["AC", "AD"]));
    let m = calculate_pwm(&seqs).unwrap();
    assert_eq!(m.num_columns(), 2);
    assert_eq!(m.num_sequences(), 2);
    assert_eq!(m.count(0, 0), 2);
    assert_eq!(m.count(1, 1), 1);
    assert_eq!(m.count(1, 2), 1);
    let expected = format!(
        "{}{}{}",
        HEADER,
        row(1, &[('A', "1.000")]),
        row(2, &[('C', "0.500"), ('D', "0.500")])
    );
    assert_eq!(pwm_to_tsv(&m), expected);
    assert_eq!(fasta_to_tsv(text).unwrap(), expected);
}

#[test]
fn empty_input_gives_header_only() {
    let seqs = parse_fasta("");
    assert!(seqs.is_empty());
    let m = calculate_pwm(&seqs).unwrap();
    assert_eq!(m.num_columns(), 0);
    assert_eq!(pwm_to_tsv(&m), HEADER);
    assert_eq!(fasta_to_tsv("").unwrap(), HEADER);
}

#[test]
fn unequal_lengths_are_an_error() {
    let seqs = strings(&["AC", "ACD"]);
    assert_eq!(
        calculate_pwm(&seqs).err(),
        Some(PwmError::UnequalLength { index: 1, expected: 2, found: 3 })
    );
    assert_eq!(
        fasta_to_tsv(">a\nAC\n>b\nACD\n").err(),
        Some(PwmError::UnequalLength { index: 1, expected: 2, found: 3 })
    );
}

#[test]
fn first_misaligned_record_is_reported() {
    let seqs = strings(&["AAA", "AAA", "AA", "A"]);
    assert_eq!(
        calculate_pwm(&seqs).err(),
        Some(PwmError::UnequalLength { index: 2, expected: 3, found: 2 })
    );
}

#[test]
fn header_at_end_of_file_gives_no_record() {
    assert!(parse_fasta(">only").is_empty());
    assert!(parse_fasta(">only\n").is_empty());
    assert_eq!(parse_fasta(">a\nAC\n>b"), strings(&["AC"]));
}

#[test]
fn empty_record_between_headers_is_dropped() {
    assert_eq!(parse_fasta(">a\n>b\nAC\n"), strings(&["AC"]));
}

#[test]
fn multi_line_records_are_joined() {
    assert_eq!(parse_fasta(">a\nAC\nDE\n>b\nFG\nHI"), strings(&["ACDE", "FGHI"]));
}

#[test]
fn leading_lines_before_a_header_form_a_record() {
    assert_eq!(parse_fasta("AC\n>a\nDE\n"), strings(&["AC", "DE"]));
    assert_eq!(parse_fasta("AC\nDE"), strings(&["ACDE"]));
}

#[test]
fn carriage_returns_before_newlines_are_removed() {
    assert_eq!(parse_fasta(">a\r\nAC\r\nDE\r\n"), strings(&["ACDE"]));
    assert_eq!(parse_fasta(">a\nAC\r"), strings(&["AC\r"]));
    assert_eq!(parse_fasta(">a\nAC\r\r\n"), strings(&["AC\r"]));
}

#[test]
fn blank_lines_add_nothing() {
    assert_eq!(parse_fasta(">a\n\nAC\n\n>b\nDE\n"), strings(&["AC", "DE"]));
}

#[test]
fn non_canonical_symbols_are_counted_but_not_shown() {
    let seqs = strings(&["A-", "AX", "AC", "aC"]);
    let m = calculate_pwm(&seqs).unwrap();
    assert_eq!(m.count(0, 0), 3);
    assert_eq!(m.count(1, 1), 2);
    let total: usize = (0..ALPHABET_SIZE).map(|k| m.count(1, k)).sum();
    assert_eq!(total, 2);
    let expected = format!(
        "{}{}{}",
        HEADER,
        row(1, &[('A', "0.750")]),
        row(2, &[('C', "0.500")])
    );
    assert_eq!(pwm_to_tsv(&m), expected);
}

#[test]
fn canonical_counts_sum_to_sequence_count() {
    let seqs = strings(&["ACDY", "WCDY", "ACEY"]);
    let m = calculate_pwm(&seqs).unwrap();
    for col in 0..m.num_columns() {
        let total: usize = (0..ALPHABET_SIZE).map(|k| m.count(col, k)).sum();
        assert_eq!(total, 3);
    }
}

#[test]
fn frequencies_are_rounded_to_three_decimals() {
    assert_eq!(frequency_string(1, 3), "0.333");
    assert_eq!(frequency_string(2, 3), "0.667");
    assert_eq!(frequency_string(3, 3), "1.000");
    assert_eq!(frequency_string(0, 7), "0.000");
    assert_eq!(frequency_string(1, 8), "0.125");
    assert_eq!(frequency_string(1, 16), "0.062");
    assert_eq!(frequency_string(3, 16), "0.188");
    assert_eq!(frequency_per_mille(1, 3), 333);
    assert_eq!(frequency_per_mille(7, 7), 1000);
}

#[test]
fn frequencies_stay_within_unit_range() {
    for total in 1..40usize {
        for count in 0..=total {
            let t = frequency_per_mille(count, total);
            assert!(t <= 1000);
            let s = frequency_string(count, total);
            assert!(s.as_str() >= "0.000" && s.as_str() <= "1.000");
        }
    }
}

#[test]
fn table_shape_matches_alignment() {
    let text = ">a\nACDEFGHIKLMNP\n>b\nQRSTVWYACDEFG\n>c\nACDEFGHIKLMNP\n";
    let out = fasta_to_tsv(text).unwrap();
    let lines: Vec<&str> = out.lines().collect();
    assert_eq!(lines.len(), 14);
    for (i, line) in lines.iter().enumerate() {
        let fields: Vec<&str> = line.split('\t').collect();
        assert_eq!(fields.len(), 21);
        if i > 0 {
            assert_eq!(fields[0], format!("{}", i));
        }
    }
}

#[test]
fn pipeline_is_deterministic() {
    let text = ">x\nACDW\n>y\nACDY\n>z\nGCDY\n";
    assert_eq!(fasta_to_tsv(text), fasta_to_tsv(text));
}

#[test]
fn column_numbers_beyond_nine() {
    let seqs = strings(&["AAAAAAAAAAAA"]);
    let m = calculate_pwm(&seqs).unwrap();
    let out = pwm_to_tsv(&m);
    assert!(out.contains("\n10\t1.000\t"));
    assert!(out.contains("\n12\t1.000\t"));
}

#[test]
fn alphabet_lookup() {
    assert_eq!(amino_acid(0), 'A');
    assert_eq!(amino_acid(19), 'Y');
    assert_eq!(canonical_index('A'), Some(0));
    assert_eq!(canonical_index('Y'), Some(19));
    assert_eq!(canonical_index('B'), None);
    assert_eq!(canonical_index('-'), None);
}

#[test]
fn unicode_symbols_count_as_one_column_each() {
    let seqs = strings(&["Aé", "AC"]);
    let m = calculate_pwm(&seqs).unwrap();
    assert_eq!(m.num_columns(), 2);
    assert_eq!(m.count(1, 1), 1);
}

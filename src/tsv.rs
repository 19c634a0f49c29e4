use vstd::prelude::*;

use crate::alphabet::{amino_acid, amino_acids, ALPHABET_SIZE};
use crate::fasta::{lemma_segments_concat, lemma_segments_of_line, lines, segments, strip_cr};
use crate::matrix::{
    aligned, column_count, lemma_count_at_bound, model_of, FrequencyMatrix, PwmModel,
};
use crate::text::push_char;

verus! {

/// The character of decimal digit `d`.
pub open spec fn digit_char(d: nat) -> char {
    seq!['0', '1', '2', '3', '4', '5', '6', '7', '8', '9'][d as int]
}

/// The decimal digits of `n`, without leading zeros.
pub open spec fn decimal(n: nat) -> Seq<char>
    decreases n,
{
    if n < 10 {
        seq![digit_char(n)]
    } else {
        decimal(n / 10).push(digit_char(n % 10))
    }
}

/// `count / total` in thousandths, rounded to the nearest, a tie going to
/// the even neighbour.
pub open spec fn per_mille(count: nat, total: nat) -> nat {
    let q = (count * 1000) / total;
    let r = (count * 1000) % total;
    if 2 * r > total || (2 * r == total && q % 2 == 1) {
        q + 1
    } else {
        q
    }
}

/// A number of thousandths written with three digits after the decimal
/// point.
pub open spec fn thousandths_text(t: nat) -> Seq<char> {
    decimal(t / 1000) + seq![
        '.',
        digit_char((t / 100) % 10),
        digit_char((t / 10) % 10),
        digit_char(t % 10),
    ]
}

/// The relative frequency `count / total`, written with three decimals.
pub open spec fn frequency_text(count: nat, total: nat) -> Seq<char> {
    thousandths_text(per_mille(count, total))
}

/// The header fields after `Position`: a tab and a symbol for each of the
/// first `k` canonical symbols.
pub open spec fn header_fields(k: nat) -> Seq<char>
    decreases k,
{
    if k == 0 {
        Seq::empty()
    } else {
        header_fields((k - 1) as nat) + seq!['\t', amino_acids()[k - 1]]
    }
}

/// The header line of the table.
pub open spec fn header_line() -> Seq<char> {
    seq!['P', 'o', 's', 'i', 't', 'i', 'o', 'n'] + header_fields(ALPHABET_SIZE as nat)
        + seq!['\n']
}

/// The frequency fields of column `col`: a tab and a frequency for each of
/// the first `k` canonical symbols.
pub open spec fn row_fields(m: PwmModel, col: int, k: nat) -> Seq<char>
    decreases k,
{
    if k == 0 {
        Seq::empty()
    } else {
        row_fields(m, col, (k - 1) as nat) + seq!['\t'] + frequency_text(m.counts[col][k - 1], m.num_sequences)
    }
}

/// The line of column `col`, numbered from one.
pub open spec fn row_line(m: PwmModel, col: int) -> Seq<char> {
    decimal((col + 1) as nat) + row_fields(m, col, ALPHABET_SIZE as nat) + seq!['\n']
}

/// The lines of the first `n` columns.
pub open spec fn body_lines(m: PwmModel, n: nat) -> Seq<char>
    decreases n,
{
    if n == 0 {
        Seq::empty()
    } else {
        body_lines(m, (n - 1) as nat) + row_line(m, n - 1)
    }
}

/// The whole table: the header line, then one line per column.
pub open spec fn tsv_text(m: PwmModel) -> Seq<char> {
    header_line() + body_lines(m, m.counts.len())
}

/// The character of digit `d`.
fn digit(d: usize) -> (c: char)
    requires
        d < 10,
    ensures
        c == digit_char(d as nat),
{
    match d {
        0 => '0',
        1 => '1',
        2 => '2',
        3 => '3',
        4 => '4',
        5 => '5',
        6 => '6',
        7 => '7',
        8 => '8',
        _ => '9',
    }
}

/// Appends the decimal digits of `n`.
fn push_decimal(out: &mut String, n: usize)
    ensures
        final(out)@ == old(out)@ + decimal(n as nat),
    decreases n,
{
    if n >= 10 {
        push_decimal(out, n / 10);
    }
    push_char(out, digit(n % 10));
    proof {
        if n < 10 {
            assert(decimal(n as nat) == seq![digit_char(n as nat)]);
        }
    }
    assert(final(out)@ =~= old(out)@ + decimal(n as nat));
}

/// A frequency never exceeds one: at most a thousand thousandths.
pub proof fn lemma_per_mille_bound(count: nat, total: nat)
    requires
        total > 0,
        count <= total,
    ensures
        per_mille(count, total) <= 1000,
{
    let q = (count * 1000) / total;
    let r = (count * 1000) % total;
    vstd::arithmetic::div_mod::lemma_fundamental_div_mod((count * 1000) as int, total as int);
    assert(count * 1000 <= total * 1000) by (nonlinear_arith)
        requires
            count <= total,
    ;
    assert(q <= 1000) by (nonlinear_arith)
        requires
            q * total + r == count * 1000,
            count * 1000 <= total * 1000,
            r >= 0,
            total > 0,
    ;
    if q == 1000 {
        assert(r == 0) by (nonlinear_arith)
            requires
                q * total + r == count * 1000,
                count * 1000 <= total * 1000,
                q == 1000,
                r >= 0,
        ;
    }
}

/// Every frequency in the table of an aligned collection lies between zero
/// and one: at most a thousand thousandths, so its text is at most `1.000`.
pub proof fn lemma_frequencies_in_unit_range(seqs: Seq<Seq<char>>, col: int, k: int)
    requires
        aligned(seqs),
        0 <= col < column_count(seqs),
        0 <= k < ALPHABET_SIZE,
    ensures
        per_mille(model_of(seqs).counts[col][k], model_of(seqs).num_sequences) <= 1000,
{
    lemma_count_at_bound(seqs, col, amino_acids()[k]);
    lemma_per_mille_bound(model_of(seqs).counts[col][k], seqs.len());
}

/// `count / total` in thousandths, rounded half to even.
pub fn frequency_per_mille(count: usize, total: usize) -> (t: usize)
    requires
        total > 0,
        count <= total,
    ensures
        t == per_mille(count as nat, total as nat),
        t <= 1000,
{
    proof {
        lemma_per_mille_bound(count as nat, total as nat);
        assert((count as nat) * 1000 <= (usize::MAX as nat) * 1000) by (nonlinear_arith)
            requires
                count <= usize::MAX,
        ;
    }
    let num: u128 = (count as u128) * 1000;
    let q: u128 = num / (total as u128);
    let r: u128 = num % (total as u128);
    let t = if 2 * r > total as u128 || (2 * r == total as u128 && q % 2 == 1) {
        q + 1
    } else {
        q
    };
    t as usize
}

/// Appends `t` thousandths with three digits after the decimal point.
fn push_thousandths(out: &mut String, t: usize)
    requires
        t <= 1000,
    ensures
        final(out)@ == old(out)@ + thousandths_text(t as nat),
{
    push_decimal(out, t / 1000);
    push_char(out, '.');
    push_char(out, digit((t / 100) % 10));
    push_char(out, digit((t / 10) % 10));
    push_char(out, digit(t % 10));
    assert(final(out)@ =~= old(out)@ + thousandths_text(t as nat));
}

/// The text of the relative frequency `count / total`, with three decimals.
pub fn frequency_string(count: usize, total: usize) -> (s: String)
    requires
        total > 0,
        count <= total,
    ensures
        s@ == frequency_text(count as nat, total as nat),
{
    let mut s = String::new();
    push_thousandths(&mut s, frequency_per_mille(count, total));
    s
}

/// Appends the header line.
fn push_header(out: &mut String)
    ensures
        final(out)@ == old(out)@ + header_line(),
{
    let ghost start = out@;
    push_char(out, 'P');
    push_char(out, 'o');
    push_char(out, 's');
    push_char(out, 'i');
    push_char(out, 't');
    push_char(out, 'i');
    push_char(out, 'o');
    push_char(out, 'n');
    let ghost named = out@;
    assert(named =~= start + seq!['P', 'o', 's', 'i', 't', 'i', 'o', 'n']);
    for k in 0..ALPHABET_SIZE
        invariant
            out@ == named + header_fields(k as nat),
    {
        push_char(out, '\t');
        push_char(out, amino_acid(k));
        assert(out@ =~= named + header_fields((k + 1) as nat));
    }
    push_char(out, '\n');
    assert(out@ =~= old(out)@ + header_line());
}

/// Appends the line of column `col`.
fn push_row(out: &mut String, m: &FrequencyMatrix, col: usize)
    requires
        m@.wf(),
        col < m@.counts.len(),
    ensures
        final(out)@ == old(out)@ + row_line(m@, col as int),
{
    let total = m.num_sequences();
    let ncols = m.num_columns();
    assert(col < ncols);
    push_decimal(out, col + 1);
    let ghost numbered = out@;
    for k in 0..ALPHABET_SIZE
        invariant
            m@.wf(),
            col < m@.counts.len(),
            total == m@.num_sequences,
            out@ == numbered + row_fields(m@, col as int, k as nat),
    {
        let c = m.count(col, k);
        push_char(out, '\t');
        push_thousandths(out, frequency_per_mille(c, total));
        assert(out@ =~= numbered + row_fields(m@, col as int, (k + 1) as nat));
    }
    push_char(out, '\n');
    assert(out@ =~= old(out)@ + row_line(m@, col as int));
}

/// The matrix as a tab-separated table: a header line `Position` and the
/// canonical symbols, then for each column its number, counted from one,
/// and the frequency of each canonical symbol with three decimals.
pub fn pwm_to_tsv(m: &FrequencyMatrix) -> (s: String)
    requires
        m@.wf(),
    ensures
        s@ == tsv_text(m@),
{
    let mut s = String::new();
    push_header(&mut s);
    let ncols = m.num_columns();
    for col in 0..ncols
        invariant
            m@.wf(),
            ncols == m@.counts.len(),
            s@ == header_line() + body_lines(m@, col as nat),
    {
        push_row(&mut s, m, col);
        assert(s@ =~= header_line() + body_lines(m@, (col + 1) as nat));
    }
    s
}

/// The number of times `c` occurs in `s`.
pub open spec fn count_char(s: Seq<char>, c: char) -> nat
    decreases s.len(),
{
    if s.len() == 0 {
        0
    } else {
        count_char(s.drop_last(), c) + if s.last() == c {
            1nat
        } else {
            0nat
        }
    }
}

/// `s` holds no tab, no newline and no carriage return.
pub open spec fn one_field(s: Seq<char>) -> bool {
    forall|i: int| 0 <= i < s.len() ==> s[i] != '\t' && s[i] != '\n' && s[i] != '\r'
}

/// `s` holds no newline and no carriage return.
pub open spec fn one_line(s: Seq<char>) -> bool {
    forall|i: int| 0 <= i < s.len() ==> s[i] != '\n' && s[i] != '\r'
}

/// The header line without its newline.
pub open spec fn header_text() -> Seq<char> {
    seq!['P', 'o', 's', 'i', 't', 'i', 'o', 'n'] + header_fields(ALPHABET_SIZE as nat)
}

/// The line of column `col` without its newline.
pub open spec fn row_text(m: PwmModel, col: int) -> Seq<char> {
    decimal((col + 1) as nat) + row_fields(m, col, ALPHABET_SIZE as nat)
}

proof fn lemma_count_concat(a: Seq<char>, b: Seq<char>, c: char)
    ensures
        count_char(a + b, c) == count_char(a, c) + count_char(b, c),
    decreases b.len(),
{
    if b.len() == 0 {
        assert(a + b =~= a);
    } else {
        lemma_count_concat(a, b.drop_last(), c);
        assert((a + b).drop_last() =~= a + b.drop_last());
    }
}

proof fn lemma_count_absent(s: Seq<char>, c: char)
    requires
        forall|i: int| 0 <= i < s.len() ==> s[i] != c,
    ensures
        count_char(s, c) == 0,
    decreases s.len(),
{
    if s.len() > 0 {
        let p = s.drop_last();
        assert forall|i: int| 0 <= i < p.len() implies p[i] != c by {
            assert(p[i] == s[i]);
        }
        lemma_count_absent(p, c);
        assert(s.last() == s[s.len() - 1]);
    }
}

proof fn lemma_count_single(c: char)
    ensures
        count_char(seq![c], c) == 1,
{
    assert(seq![c].drop_last() =~= Seq::<char>::empty());
    assert(count_char(Seq::<char>::empty(), c) == 0);
    assert(seq![c].last() == c);
}

proof fn lemma_digit_plain(d: nat)
    requires
        d < 10,
    ensures
        digit_char(d) != '\t' && digit_char(d) != '\n' && digit_char(d) != '\r',
{
}

proof fn lemma_decimal_plain(n: nat)
    ensures
        one_field(decimal(n)),
    decreases n,
{
    let d = decimal(n);
    if n < 10 {
        lemma_digit_plain(n);
        assert(d[0] == digit_char(n));
    } else {
        let p = decimal(n / 10);
        lemma_decimal_plain(n / 10);
        lemma_digit_plain(n % 10);
        assert forall|i: int| 0 <= i < d.len() implies d[i] != '\t' && d[i] != '\n' && d[i]
            != '\r' by {
            if i < p.len() {
                assert(d[i] == p[i]);
            } else {
                assert(d[i] == digit_char(n % 10));
            }
        }
    }
}

proof fn lemma_frequency_plain(count: nat, total: nat)
    ensures
        one_line(frequency_text(count, total)),
        count_char(frequency_text(count, total), '\t') == 0,
{
    let t = per_mille(count, total);
    let f = frequency_text(count, total);
    let w = decimal(t / 1000);
    let tail = seq!['.', digit_char((t / 100) % 10), digit_char((t / 10) % 10), digit_char(t % 10)];
    lemma_decimal_plain(t / 1000);
    lemma_digit_plain((t / 100) % 10);
    lemma_digit_plain((t / 10) % 10);
    lemma_digit_plain(t % 10);
    assert(f == w + tail);
    assert forall|i: int| 0 <= i < f.len() implies f[i] != '\t' && f[i] != '\n' && f[i]
        != '\r' by {
        if i < w.len() {
            assert(f[i] == w[i]);
        } else {
            assert(f[i] == tail[i - w.len()]);
        }
    }
    lemma_count_absent(f, '\t');
}

proof fn lemma_row_fields(m: PwmModel, col: int, k: nat)
    ensures
        one_line(row_fields(m, col, k)),
        count_char(row_fields(m, col, k), '\t') == k,
    decreases k,
{
    if k > 0 {
        let prev = row_fields(m, col, (k - 1) as nat);
        let f = frequency_text(m.counts[col][k - 1], m.num_sequences);
        lemma_row_fields(m, col, (k - 1) as nat);
        lemma_frequency_plain(m.counts[col][k - 1], m.num_sequences);
        lemma_count_single('\t');
        lemma_count_concat(prev, seq!['\t'], '\t');
        lemma_count_concat(prev + seq!['\t'], f, '\t');
    }
}

proof fn lemma_header_fields(k: nat)
    requires
        k <= ALPHABET_SIZE,
    ensures
        one_line(header_fields(k)),
        count_char(header_fields(k), '\t') == k,
    decreases k,
{
    if k > 0 {
        let prev = header_fields((k - 1) as nat);
        let aa = amino_acids()[k - 1];
        lemma_header_fields((k - 1) as nat);
        assert(aa != '\t' && aa != '\n' && aa != '\r');
        lemma_count_single('\t');
        lemma_count_absent(seq![aa], '\t');
        lemma_count_concat(seq!['\t'], seq![aa], '\t');
        assert(seq!['\t'] + seq![aa] =~= seq!['\t', aa]);
        lemma_count_concat(prev, seq!['\t', aa], '\t');
    }
}

proof fn lemma_header_text()
    ensures
        one_line(header_text()),
        count_char(header_text(), '\t') == ALPHABET_SIZE,
{
    let name = seq!['P', 'o', 's', 'i', 't', 'i', 'o', 'n'];
    lemma_header_fields(ALPHABET_SIZE as nat);
    lemma_count_absent(name, '\t');
    lemma_count_concat(name, header_fields(ALPHABET_SIZE as nat), '\t');
}

proof fn lemma_row_text(m: PwmModel, col: int)
    requires
        col >= 0,
    ensures
        one_line(row_text(m, col)),
        count_char(row_text(m, col), '\t') == ALPHABET_SIZE,
{
    lemma_decimal_plain((col + 1) as nat);
    lemma_count_absent(decimal((col + 1) as nat), '\t');
    lemma_row_fields(m, col, ALPHABET_SIZE as nat);
    lemma_count_concat(decimal((col + 1) as nat), row_fields(m, col, ALPHABET_SIZE as nat), '\t');
}

/// The pieces of a line of text followed by its newline.
proof fn lemma_segments_line(l: Seq<char>)
    requires
        one_line(l),
    ensures
        segments(l.push('\n')) == seq![l, Seq::<char>::empty()],
{
    lemma_segments_of_line(l);
    assert(l.push('\n').drop_last() =~= l);
    assert(segments(l.push('\n')) =~= seq![l, Seq::<char>::empty()]);
}

/// The lines of the table text, without their newlines.
pub open spec fn table_lines(m: PwmModel, n: nat) -> Seq<Seq<char>> {
    seq![header_text()] + Seq::new(n, |i: int| row_text(m, i))
}

proof fn lemma_table_segments(m: PwmModel, n: nat)
    ensures
        segments(header_line() + body_lines(m, n)) == table_lines(m, n).push(Seq::empty()),
    decreases n,
{
    if n == 0 {
        lemma_header_text();
        assert(header_line() + body_lines(m, 0) =~= header_text().push('\n'));
        lemma_segments_line(header_text());
        assert(table_lines(m, 0) =~= seq![header_text()]);
        assert(seq![header_text(), Seq::<char>::empty()] =~= seq![header_text()].push(
            Seq::empty(),
        ));
    } else {
        let a = header_line() + body_lines(m, (n - 1) as nat);
        let r = row_text(m, n - 1);
        lemma_table_segments(m, (n - 1) as nat);
        lemma_row_text(m, n - 1);
        lemma_segments_line(r);
        assert(row_line(m, n - 1) =~= r.push('\n'));
        assert(header_line() + body_lines(m, n) =~= a + r.push('\n'));
        lemma_segments_concat(a, r.push('\n'));
        assert(table_lines(m, n) =~= table_lines(m, (n - 1) as nat).push(r));
        assert(segments(a + r.push('\n')) =~= table_lines(m, n).push(Seq::empty()));
    }
}

/// The table of an aligned collection, read back as lines, has a header
/// line and one line per alignment column, and each line has exactly one
/// field more than the alphabet has symbols: twenty tabs.
pub proof fn lemma_table_shape(seqs: Seq<Seq<char>>)
    requires
        aligned(seqs),
    ensures
        lines(tsv_text(model_of(seqs))).len() == column_count(seqs) + 1,
        forall|i: int|
            0 <= i < lines(tsv_text(model_of(seqs))).len() ==> count_char(
                #[trigger] lines(tsv_text(model_of(seqs)))[i],
                '\t',
            ) == ALPHABET_SIZE,
{
    let m = model_of(seqs);
    let n = m.counts.len();
    let t = table_lines(m, n);
    lemma_table_segments(m, n);
    let seg = segments(tsv_text(m));
    assert(seg.drop_last() =~= t);
    assert(seg.last() =~= Seq::<char>::empty());
    lemma_header_text();
    assert forall|i: int| 0 <= i < t.len() implies strip_cr(#[trigger] t[i]) == t[i]
        && count_char(t[i], '\t') == ALPHABET_SIZE by {
        if i > 0 {
            assert(t[i] == row_text(m, i - 1));
            lemma_row_text(m, i - 1);
        }
        if t[i].len() > 0 {
            assert(t[i].last() == t[i][t[i].len() - 1]);
        }
    }
    assert(lines(tsv_text(m)) =~= t);
}

} // verus!

use vstd::prelude::*;

use crate::text::{string_of, strings_view};

verus! {

/// The pieces of `s` between newline characters: always one more piece
/// than `s` holds newlines.
pub open spec fn segments(s: Seq<char>) -> Seq<Seq<char>>
    decreases s.len(),
{
    if s.len() == 0 {
        seq![Seq::empty()]
    } else {
        let prev = segments(s.drop_last());
        if s.last() == '\n' {
            prev.push(Seq::empty())
        } else {
            prev.update(prev.len() - 1, prev.last().push(s.last()))
        }
    }
}

/// A line without its carriage return, if it ends in one.
pub open spec fn strip_cr(l: Seq<char>) -> Seq<char> {
    if l.len() > 0 && l.last() == '\r' {
        l.drop_last()
    } else {
        l
    }
}

/// The lines of `s`: every piece ended by a newline, without a carriage
/// return before that newline, then the last piece if it is not empty.
pub open spec fn lines(s: Seq<char>) -> Seq<Seq<char>> {
    let seg = segments(s);
    let ended = seg.drop_last().map_values(|l: Seq<char>| strip_cr(l));
    if seg.last().len() == 0 {
        ended
    } else {
        ended.push(seg.last())
    }
}

/// A header line starts with `>`.
pub open spec fn is_header(l: Seq<char>) -> bool {
    l.len() > 0 && l[0] == '>'
}

/// Ends the record being gathered: it is kept only when it is not empty.
pub open spec fn close_record(recs: Seq<Seq<char>>, cur: Seq<char>) -> Seq<Seq<char>> {
    if cur.len() > 0 {
        recs.push(cur)
    } else {
        recs
    }
}

/// The records ended so far and the record being gathered, after `ls`.
pub open spec fn scan_lines(ls: Seq<Seq<char>>) -> (Seq<Seq<char>>, Seq<char>)
    decreases ls.len(),
{
    if ls.len() == 0 {
        (Seq::empty(), Seq::empty())
    } else {
        let (recs, cur) = scan_lines(ls.drop_last());
        let l = ls.last();
        if is_header(l) {
            (close_record(recs, cur), Seq::empty())
        } else {
            (recs, cur + l)
        }
    }
}

/// The sequences of a FASTA text, in record order. Header lines separate
/// records; the other lines of a record are joined without separator; a
/// record with no sequence characters is left out.
pub open spec fn fasta_records(text: Seq<char>) -> Seq<Seq<char>> {
    let (recs, cur) = scan_lines(lines(text));
    close_record(recs, cur)
}

/// There is always at least one piece.
pub proof fn lemma_segments_nonempty(s: Seq<char>)
    ensures
        segments(s).len() >= 1,
    decreases s.len(),
{
    if s.len() > 0 {
        lemma_segments_nonempty(s.drop_last());
    }
}

/// A text without newlines is a single piece.
pub proof fn lemma_segments_of_line(l: Seq<char>)
    requires
        forall|i: int| 0 <= i < l.len() ==> l[i] != '\n',
    ensures
        segments(l) == seq![l],
    decreases l.len(),
{
    if l.len() > 0 {
        let p = l.drop_last();
        assert forall|i: int| 0 <= i < p.len() implies p[i] != '\n' by {
            assert(p[i] == l[i]);
        }
        lemma_segments_of_line(p);
        assert(l.last() == l[l.len() - 1]);
        assert(p.push(l.last()) =~= l);
        assert(segments(l) =~= seq![l]);
    } else {
        assert(l =~= Seq::<char>::empty());
    }
}

/// After a text whose last piece is empty (it ends in a newline, or is
/// empty), the pieces of what follows are pieces of the whole.
pub proof fn lemma_segments_concat(a: Seq<char>, b: Seq<char>)
    requires
        segments(a).len() > 0 && segments(a).last().len() == 0,
    ensures
        segments(a + b) == segments(a).drop_last() + segments(b),
    decreases b.len(),
{
    lemma_segments_nonempty(a);
    if b.len() == 0 {
        assert(a + b =~= a);
        assert(segments(a).last() =~= Seq::<char>::empty());
        assert(segments(b) =~= seq![Seq::<char>::empty()]);
        assert(segments(a) =~= segments(a).drop_last() + seq![Seq::<char>::empty()]);
    } else {
        lemma_segments_concat(a, b.drop_last());
        lemma_segments_nonempty(b.drop_last());
        assert((a + b).drop_last() =~= a + b.drop_last());
        assert(segments(a + b) =~= segments(a).drop_last() + segments(b));
    }
}

/// Removes a carriage return that ends `l`.
fn strip_cr_exec(l: &mut Vec<char>)
    ensures
        final(l)@ == strip_cr(old(l)@),
{
    let n = l.len();
    if n > 0 && l[n - 1] == '\r' {
        l.pop();
    }
}

/// Feeds one line to the scan: `recs` and `cur` go from the state after
/// some lines to the state after those lines and `l`.
fn scan_step(recs: &mut Vec<String>, cur: &mut Vec<char>, l: &Vec<char>)
    ensures
        ({
            let (r, c) = if is_header(l@) {
                (close_record(strings_view(old(recs)@), old(cur)@), Seq::empty())
            } else {
                (strings_view(old(recs)@), old(cur)@ + l@)
            };
            strings_view(final(recs)@) == r && final(cur)@ == c
        }),
{
    if l.len() > 0 && l[0] == '>' {
        close_exec(recs, cur);
        cur.clear();
    } else {
        let ghost c0 = cur@;
        for i in 0..l.len()
            invariant
                cur@ == c0 + l@.take(i as int),
                recs@ == old(recs)@,
                c0 == old(cur)@,
        {
            cur.push(l[i]);
            assert(l@.take(i + 1) =~= l@.take(i as int).push(l@[i as int]));
            assert(c0 + l@.take(i + 1) =~= (c0 + l@.take(i as int)).push(l@[i as int]));
        }
        assert(l@.take(l.len() as int) =~= l@);
    }
}

/// Adds `cur` to `recs` when it is not empty.
fn close_exec(recs: &mut Vec<String>, cur: &Vec<char>)
    ensures
        strings_view(final(recs)@) == close_record(strings_view(old(recs)@), cur@),
{
    if cur.len() > 0 {
        let s = string_of(cur);
        recs.push(s);
        assert(strings_view(recs@) =~= strings_view(old(recs)@).push(cur@));
    }
}

/// The sequences of a FASTA text, in record order (see `fasta_records`).
pub fn parse_fasta(text: &str) -> (r: Vec<String>)
    ensures
        strings_view(r@) == fasta_records(text@),
{
    let mut recs: Vec<String> = Vec::new();
    let mut cur: Vec<char> = Vec::new();
    let mut line: Vec<char> = Vec::new();
    let ghost s = text@;
    for c in it: text.chars()
        invariant
            it.seq() == s,
            s == text@,
            0 <= it.index() <= s.len(),
            line@ == segments(s.take(it.index() as int)).last(),
            (strings_view(recs@), cur@) == scan_lines(
                segments(s.take(it.index() as int)).drop_last().map_values(
                    |l: Seq<char>| strip_cr(l),
                ),
            ),
    {
        let ghost k = it.index() as int;
        let ghost pre = s.take(k);
        let ghost post = s.take(k + 1);
        proof {
            assert(post.drop_last() =~= pre);
            assert(post.last() == c);
            lemma_segments_nonempty(pre);
        }
        if c == '\n' {
            let ghost done = segments(pre).map_values(|l: Seq<char>| strip_cr(l));
            proof {
                assert(segments(post).drop_last() =~= segments(pre));
                assert(done.drop_last() =~= segments(pre).drop_last().map_values(
                    |l: Seq<char>| strip_cr(l),
                ));
                assert(done.last() == strip_cr(line@));
            }
            strip_cr_exec(&mut line);
            scan_step(&mut recs, &mut cur, &line);
            line.clear();
        } else {
            proof {
                assert(segments(post).drop_last() =~= segments(pre).drop_last());
            }
            line.push(c);
        }
    }
    proof {
        assert(s.take(s.len() as int) =~= s);
        lemma_segments_nonempty(s);
        let seg = segments(s);
        let ended = seg.drop_last().map_values(|l: Seq<char>| strip_cr(l));
        if seg.last().len() != 0 {
            assert(lines(s).drop_last() =~= ended);
        }
    }
    if line.len() > 0 {
        scan_step(&mut recs, &mut cur, &line);
    }
    close_exec(&mut recs, &cur);
    recs
}

} // verus!

//! Preparing a submitted program's text: blank lines and comment lines are
//! dropped before the text is turned into tokens.
use vstd::prelude::*;
use vstd::string::*;
use crate::token::{tokenize, tokenized, Token};

verus! {

/// The pieces of `s` between newlines: one more than there are newlines.
pub open spec fn pieces(s: Seq<char>) -> Seq<Seq<char>>
    decreases s.len(),
{
    if s.len() == 0 {
        seq![Seq::empty()]
    } else {
        let p = pieces(s.drop_last());
        if s.last() == '\n' {
            p.push(Seq::empty())
        } else {
            p.update(p.len() - 1, p.last().push(s.last()))
        }
    }
}

/// A line ended by a newline, without the carriage return before it.
pub open spec fn strip_cr(l: Seq<char>) -> Seq<char> {
    if l.len() > 0 && l.last() == '\r' {
        l.drop_last()
    } else {
        l
    }
}

/// The lines of `s`: line endings are "\n" or "\r\n", and a final empty
/// piece is no line.
pub open spec fn lines(s: Seq<char>) -> Seq<Seq<char>> {
    let p = pieces(s);
    let body = p.drop_last().map_values(|l: Seq<char>| strip_cr(l));
    if p.last().len() == 0 {
        body
    } else {
        body.push(p.last())
    }
}

/// Whether a line is kept: it is not empty and does not start with "//".
pub open spec fn kept(l: Seq<char>) -> bool {
    l.len() > 0 && !(l.len() >= 2 && l[0] == '/' && l[1] == '/')
}

/// The kept lines, joined with newlines.
pub open spec fn join_kept(ls: Seq<Seq<char>>) -> Seq<char>
    decreases ls.len(),
{
    if ls.len() == 0 {
        Seq::empty()
    } else {
        let prev = join_kept(ls.drop_last());
        let l = ls.last();
        if !kept(l) {
            prev
        } else if prev.len() == 0 {
            l
        } else {
            prev + seq!['\n'] + l
        }
    }
}

/// The text of a submission that is turned into tokens.
pub open spec fn submission_text(s: Seq<char>) -> Seq<char> {
    join_kept(lines(s))
}

/// Adds one line to the joined text.
fn add_line(out: &mut String, s: &str, start: usize, end: usize)
    requires
        start <= end <= s@.len(),
    ensures
        final(out)@ == ({
            let l = s@.subrange(start as int, end as int);
            if !kept(l) {
                old(out)@
            } else if old(out)@.len() == 0 {
                l
            } else {
                old(out)@ + seq!['\n'] + l
            }
        }),
{
    let ghost l = s@.subrange(start as int, end as int);
    if end == start {
        return;
    }
    if end - start >= 2 && s.get_char(start) == '/' && s.get_char(start + 1) == '/' {
        return;
    }
    let line = s.substring_char(start, end);
    if out.unicode_len() > 0 {
        out.append("\n");
        proof {
            reveal_strlit("\n");
        }
    }
    out.append(line);
}

/// The text of a submission with blank lines and lines starting with "//"
/// left out, the remaining lines joined with newlines.
pub fn filter_submission(s: &str) -> (r: String)
    ensures
        r@ == submission_text(s@),
{
    let n = s.unicode_len();
    let mut out = String::new();
    let mut start: usize = 0;
    let mut i: usize = 0;
    let ghost mut done: Seq<Seq<char>> = Seq::empty();
    assert(s@.subrange(0, 0) =~= Seq::<char>::empty());
    assert(pieces(s@.subrange(0, 0)) =~= done.push(s@.subrange(0, 0)));
    while i < n
        invariant
            n == s@.len(),
            start <= i <= n,
            pieces(s@.subrange(0, i as int)) == done.push(s@.subrange(start as int, i as int)),
            out@ == join_kept(done.map_values(|l: Seq<char>| strip_cr(l))),
        decreases n - i,
    {
        let c = s.get_char(i);
        let ghost prev = s@.subrange(0, i as int);
        let ghost cur = s@.subrange(0, i + 1);
        assert(cur.drop_last() =~= prev);
        assert(cur.last() == c);
        if c == '\n' {
            let mut end = i;
            if end > start && s.get_char(end - 1) == '\r' {
                end = end - 1;
            }
            let ghost piece = s@.subrange(start as int, i as int);
            assert(strip_cr(piece) == s@.subrange(start as int, end as int));
            add_line(&mut out, s, start, end);
            proof {
                let m = done.push(piece).map_values(|l: Seq<char>| strip_cr(l));
                assert(m.drop_last() =~= done.map_values(|l: Seq<char>| strip_cr(l)));
                done = done.push(piece);
                assert(s@.subrange(i + 1, i + 1) =~= Seq::<char>::empty());
                assert(pieces(cur) =~= done.push(s@.subrange(i + 1, i + 1)));
            }
            start = i + 1;
        } else {
            assert(s@.subrange(start as int, i + 1) =~= s@.subrange(start as int, i as int).push(c));
            assert(pieces(cur) =~= done.push(s@.subrange(start as int, i + 1)));
        }
        i += 1;
    }
    assert(s@.subrange(0, n as int) == s@);
    let ghost p = pieces(s@);
    assert(p.drop_last() =~= done);
    if start < n {
        let ghost body = done.map_values(|l: Seq<char>| strip_cr(l));
        add_line(&mut out, s, start, n);
        assert(lines(s@) == body.push(s@.subrange(start as int, n as int)));
        assert(lines(s@).drop_last() =~= body);
    } else {
        assert(lines(s@) == done.map_values(|l: Seq<char>| strip_cr(l)));
    }
    out
}

/// The tokens of a submission, with blank lines and comment lines left out;
/// `None` where the rest is not made of tokens.
pub fn process_submission(submission: String) -> (r: Option<Vec<Token>>)
    ensures
        r matches Some(v) ==> tokenized(submission_text(submission@)) == Some(v@),
        r is None ==> tokenized(submission_text(submission@)) is None,
{
    let text = filter_submission(submission.as_str());
    tokenize(text.as_str())
}

} // verus!

use vstd::prelude::*;
use crate::parse;
use crate::strutil::{is_space, is_space_char, str_to_chars};

verus! {

/// A line is blank when every character in it is blank.
pub open spec fn is_blank(l: Seq<char>) -> bool {
    forall|j: int| 0 <= j < l.len() ==> is_space(l[j])
}

/// The lines, each as its character sequence.
pub open spec fn lines_view(v: Seq<Vec<char>>) -> Seq<Seq<char>> {
    Seq::new(v.len(), |i: int| v[i]@)
}

/// The space the lines from `i` on can take in a block buffer: each
/// line's length plus one for its newline.
pub open spec fn weight(ls: Seq<Seq<char>>, i: int) -> int
    decreases ls.len() - i,
{
    if i < 0 || i >= ls.len() {
        0
    } else {
        ls[i].len() + 1 + weight(ls, i + 1)
    }
}

pub proof fn lemma_weight_mono(ls: Seq<Seq<char>>, i: int, j: int)
    requires
        0 <= i <= j,
    ensures
        weight(ls, i) >= weight(ls, j) >= 0,
    decreases ls.len() - i,
{
    if i < ls.len() {
        if i < j {
            lemma_weight_mono(ls, i + 1, j);
        } else {
            lemma_weight_mono(ls, i + 1, j + 1);
        }
    } else if j >= ls.len() {
    }
}

/// The first line at or after `i` that is not blank; the end if none is.
pub open spec fn next_nonblank(ls: Seq<Seq<char>>, i: int) -> int
    decreases ls.len() - i,
{
    if 0 <= i < ls.len() && is_blank(ls[i]) {
        next_nonblank(ls, i + 1)
    } else {
        i
    }
}

/// The first line at or after `i` that is blank; the end if none is.
pub open spec fn block_end(ls: Seq<Seq<char>>, i: int) -> int
    decreases ls.len() - i,
{
    if 0 <= i < ls.len() && !is_blank(ls[i]) {
        block_end(ls, i + 1)
    } else {
        i
    }
}

/// The buffered text of the lines `i..j`: each line followed by one
/// newline.
pub open spec fn block_chars(ls: Seq<Seq<char>>, i: int, j: int) -> Seq<char>
    decreases j - i,
{
    if j <= i {
        Seq::empty()
    } else {
        block_chars(ls, i, j - 1) + ls[j - 1] + seq!['\n']
    }
}

pub proof fn lemma_block_chars_len(ls: Seq<Seq<char>>, i: int, j: int)
    requires
        0 <= i <= j <= ls.len(),
    ensures
        block_chars(ls, i, j).len() + weight(ls, j) == weight(ls, i),
    decreases j - i,
{
    if j > i {
        lemma_block_chars_len(ls, i, j - 1);
        lemma_weight_unfold(ls, j - 1);
    }
}

pub proof fn lemma_weight_unfold(ls: Seq<Seq<char>>, i: int)
    requires
        0 <= i < ls.len(),
    ensures
        weight(ls, i) == ls[i].len() + 1 + weight(ls, i + 1),
{
}

/// The position of the first newline at or after `i`, or the end.
pub open spec fn nl_end(s: Seq<char>, i: int) -> int
    decreases s.len() - i,
{
    if 0 <= i < s.len() && s[i] != '\n' {
        nl_end(s, i + 1)
    } else {
        i
    }
}

pub proof fn lemma_nl_end(s: Seq<char>, i: int)
    requires
        0 <= i <= s.len(),
    ensures
        i <= nl_end(s, i) <= s.len(),
        forall|j: int| i <= j < nl_end(s, i) ==> s[j] != '\n',
        nl_end(s, i) < s.len() ==> s[nl_end(s, i)] == '\n',
    decreases s.len() - i,
{
    if 0 <= i < s.len() && s[i] != '\n' {
        lemma_nl_end(s, i + 1);
    }
}

/// A line without its trailing carriage return, if it has one.
pub open spec fn strip_cr(l: Seq<char>) -> Seq<char> {
    if l.len() > 0 && l.last() == '\r' {
        l.drop_last()
    } else {
        l
    }
}

/// The lines of the text, split as a buffered reader splits them: at each
/// newline, dropping the newline and one carriage return before it; the
/// characters after the last newline form a final line.
pub open spec fn split_lines(s: Seq<char>, i: int) -> Seq<Seq<char>>
    decreases s.len() + 1 - i,
    via split_lines_dec
{
    if i < 0 || i >= s.len() {
        Seq::empty()
    } else {
        seq![strip_cr(s.subrange(i, nl_end(s, i)))] + split_lines(s, nl_end(s, i) + 1)
    }
}

#[via_fn]
proof fn split_lines_dec(s: Seq<char>, i: int) {
    if 0 <= i < s.len() {
        lemma_nl_end(s, i);
    }
}

/// The line-buffering front end: it hands the input out block by block,
/// where blocks are runs of non-blank lines separated by blank lines.
#[derive(Debug)]
pub struct Input {
    pub lines: Vec<Vec<char>>,
    pub pos: usize,
}

impl Input {
    /// The blocks do not outgrow a buffer.
    pub open spec fn wf(&self) -> bool {
        &&& self.pos <= self.lines@.len()
        &&& weight(lines_view(self.lines@), 0) <= usize::MAX - 8
    }

    /// The lines still to hand out start at `pos`.
    pub open spec fn spec_lines(&self) -> Seq<Seq<char>> {
        lines_view(self.lines@)
    }

    /// Where the next unread line is.
    pub open spec fn spec_pos(&self) -> int {
        self.pos as int
    }

    /// A reader over the whole input text.
    pub fn new(text: &str) -> (r: Input)
        requires
            text@.len() <= usize::MAX / 2 - 8,
        ensures
            r.wf(),
            r.spec_pos() == 0,
            r.spec_lines() == split_lines(text@, 0),
    {
        let chars = str_to_chars(text);
        let ghost s = text@;
        let mut lines: Vec<Vec<char>> = Vec::new();
        let mut i: usize = 0;
        proof {
            assert(lines_view(lines@) =~= Seq::<Seq<char>>::empty());
            assert(split_lines(s, 0) =~= lines_view(lines@) + split_lines(s, 0));
        }
        while i < chars.len()
            invariant
                chars@ == s,
                s.len() <= usize::MAX / 2 - 8,
                i <= s.len() + 1,
                split_lines(s, 0) == lines_view(lines@) + split_lines(s, i as int),
                weight(lines_view(lines@), 0) <= 2 * i,
            decreases s.len() + 1 - i,
        {
            proof {
                lemma_nl_end(s, i as int);
            }
            let mut e = i;
            while e < chars.len() && chars[e] != '\n'
                invariant
                    chars@ == s,
                    i <= e <= s.len(),
                    forall|j: int| i <= j < e ==> s[j] != '\n',
                decreases s.len() - e,
            {
                e = e + 1;
            }
            proof {
                assert(e == nl_end(s, i as int)) by {
                    lemma_nl_end(s, i as int);
                    crate::parse::lemma_wsv(s, 0);
                    assert(forall|j: int| i <= j < e ==> s[j] != '\n');
                    if e < s.len() {
                        assert(s[e as int] == '\n');
                    }
                    lemma_nl_first(s, i as int, e as int);
                }
            }
            let stop = if e > i && chars[e - 1] == '\r' {
                e - 1
            } else {
                e
            };
            let mut line: Vec<char> = Vec::new();
            let mut j = i;
            while j < stop
                invariant
                    chars@ == s,
                    i <= j <= stop <= s.len(),
                    line@ == s.subrange(i as int, j as int),
                decreases stop - j,
            {
                let c = chars[j];
                line.push(c);
                proof {
                    assert(s.subrange(i as int, j as int).push(s[j as int]) =~= s.subrange(
                        i as int,
                        j + 1,
                    ));
                }
                j = j + 1;
            }
            proof {
                assert(line@ =~= strip_cr(s.subrange(i as int, e as int)));
            }
            let ghost pre_lines = lines@;
            let ghost line_v = line@;
            lines.push(line);
            proof {
                assert(lines_view(lines@) =~= lines_view(pre_lines).push(line_v));
                assert(lines_view(lines@) + split_lines(s, e + 1) =~= lines_view(pre_lines) + (
                seq![line_v] + split_lines(s, e + 1)));
                lemma_weight_push(lines_view(pre_lines), line_v);
            }
            i = e + 1;
        }
        proof {
            assert(split_lines(s, i as int) =~= Seq::<Seq<char>>::empty());
            assert(split_lines(s, 0) =~= lines_view(lines@));
        }
        Input { lines, pos: 0 }
    }

    /// The next block: leading blank lines are skipped, the non-blank
    /// lines up to the next blank line (or the end) are buffered with one
    /// newline after each, and the block carries the first line's number.
    /// An empty block signals the end of the input.
    pub fn next_block(&mut self) -> (r: parse::Block)
        requires
            old(self).wf(),
        ensures
            final(self).wf(),
            final(self).spec_lines() == old(self).spec_lines(),
            r.wf(),
            r.idx == 0,
            ({
                let ls = old(self).spec_lines();
                let nb = next_nonblank(ls, old(self).spec_pos());
                if nb >= ls.len() {
                    &&& r.start is None
                    &&& r.chars@ == Seq::<char>::empty()
                    &&& final(self).spec_pos() == ls.len()
                } else {
                    let be = block_end(ls, nb);
                    &&& r.start == Some(nb as usize)
                    &&& r.chars@ == block_chars(ls, nb, be)
                    &&& final(self).spec_pos() == (if be < ls.len() {
                        be + 1
                    } else {
                        be
                    })
                }
            }),
    {
        let ghost ls = lines_view(self.lines@);
        let ghost p0 = self.pos as int;
        while self.pos < self.lines.len() && is_blank_line(&self.lines[self.pos])
            invariant
                self.lines == old(self).lines,
                self.pos <= self.lines@.len(),
                next_nonblank(ls, p0) == next_nonblank(ls, self.pos as int),
                ls == lines_view(self.lines@),
                p0 <= self.pos as int,
            decreases self.lines@.len() - self.pos,
        {
            self.pos = self.pos + 1;
        }
        let ghost nb = self.pos as int;
        proof {
            assert(next_nonblank(ls, p0) == nb);
        }
        if self.pos >= self.lines.len() {
            let empty: Vec<char> = Vec::new();
            return parse::Block::new(empty, None);
        }
        let start_line = self.pos;
        let mut buffer: Vec<char> = Vec::new();
        proof {
            assert(buffer@ =~= block_chars(ls, nb, nb));
            lemma_weight_mono(ls, 0, nb);
        }
        while self.pos < self.lines.len() && !is_blank_line(&self.lines[self.pos])
            invariant
                self.lines == old(self).lines,
                ls == lines_view(self.lines@),
                nb <= self.pos as int <= self.lines@.len(),
                block_end(ls, nb) == block_end(ls, self.pos as int),
                buffer@ == block_chars(ls, nb, self.pos as int),
                buffer@.len() + weight(ls, self.pos as int) == weight(ls, nb),
                weight(ls, nb) <= usize::MAX - 8,
            decreases self.lines@.len() - self.pos,
        {
            let ghost pre_buf = buffer@;
            let line_len = self.lines[self.pos].len();
            let mut j: usize = 0;
            while j < line_len
                invariant
                    self.lines == old(self).lines,
                    ls == lines_view(self.lines@),
                    self.pos < self.lines@.len(),
                    line_len == ls[self.pos as int].len(),
                    j <= line_len,
                    buffer@ == pre_buf + ls[self.pos as int].take(j as int),
                decreases line_len - j,
            {
                let c = self.lines[self.pos][j];
                buffer.push(c);
                proof {
                    assert(pre_buf + ls[self.pos as int].take(j as int).push(
                        ls[self.pos as int][j as int],
                    ) =~= pre_buf + ls[self.pos as int].take(j + 1));
                }
                j = j + 1;
            }
            buffer.push('\n');
            proof {
                assert(ls[self.pos as int].take(line_len as int) =~= ls[self.pos as int]);
                assert(buffer@ =~= block_chars(ls, nb, self.pos + 1));
                lemma_weight_unfold(ls, self.pos as int);
                lemma_weight_mono(ls, self.pos + 1, self.pos + 1);
            }
            self.pos = self.pos + 1;
        }
        proof {
            assert(block_end(ls, nb) == self.pos as int);
            lemma_weight_mono(ls, self.pos as int, self.pos as int);
        }
        if self.pos < self.lines.len() {
            self.pos = self.pos + 1;
        }
        parse::Block::new(buffer, Some(start_line))
    }
}

pub proof fn lemma_weight_push(ls: Seq<Seq<char>>, l: Seq<char>)
    ensures
        weight(ls.push(l), 0) == weight(ls, 0) + l.len() + 1,
    decreases ls.len(),
{
    lemma_weight_push_from(ls, l, 0);
}

proof fn lemma_weight_push_from(ls: Seq<Seq<char>>, l: Seq<char>, i: int)
    requires
        0 <= i <= ls.len(),
    ensures
        weight(ls.push(l), i) == weight(ls, i) + l.len() + 1,
    decreases ls.len() - i,
{
    if i < ls.len() {
        lemma_weight_push_from(ls, l, i + 1);
    } else {
        assert(ls.push(l)[i] == l);
        assert(weight(ls.push(l), i + 1) == 0);
    }
}

proof fn lemma_nl_first(s: Seq<char>, i: int, e: int)
    requires
        0 <= i <= e <= s.len(),
        forall|j: int| i <= j < e ==> s[j] != '\n',
        e < s.len() ==> s[e] == '\n',
    ensures
        nl_end(s, i) == e,
    decreases e - i,
{
    if i < e {
        lemma_nl_first(s, i + 1, e);
    }
}

/// Whether every character of the line is blank.
fn is_blank_line(l: &Vec<char>) -> (b: bool)
    ensures
        b == is_blank(l@),
{
    let mut j: usize = 0;
    while j < l.len()
        invariant
            j <= l@.len(),
            forall|k: int| 0 <= k < j ==> is_space(l@[k]),
        decreases l@.len() - j,
    {
        if !is_space_char(l[j]) {
            return false;
        }
        j = j + 1;
    }
    true
}

} // verus!

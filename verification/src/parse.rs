use vstd::prelude::*;
use crate::blocks;
use crate::errors::{EndOfBlockKind, ErrorKind, EResult};
use crate::strutil::{is_space, is_space_char};

verus! {

/// The characters of one blank-line-delimited block, with a cursor over
/// them and the block's starting line number (absent for the empty block
/// that signals the end of the input).
#[derive(Debug)]
pub struct Block {
    pub chars: Vec<char>,
    pub start: Option<usize>,
    pub idx: usize,
}

impl Block {
    /// The cursor stays within two places of the end, and the block is
    /// small enough that cursor arithmetic cannot overflow.
    pub open spec fn wf(&self) -> bool {
        &&& self.idx <= self.chars@.len() + 2
        &&& self.chars@.len() <= usize::MAX - 4
    }

    /// A scanner over the given characters.
    pub fn new(chars: Vec<char>, start: Option<usize>) -> (r: Block)
        requires
            chars@.len() <= usize::MAX - 4,
        ensures
            r.wf(),
            r.chars == chars,
            r.start == start,
            r.idx == 0,
    {
        Block { chars, start, idx: 0 }
    }

    /// The starting line number of the block, which is only defined for
    /// non-empty blocks.
    pub fn start(&self) -> (r: Option<usize>)
        ensures
            r == self.start,
    {
        self.start
    }

    /// How many characters the block holds.
    pub fn len(&self) -> (r: usize)
        ensures
            r == self.chars@.len(),
    {
        self.chars.len()
    }

    /// The next character, advancing the cursor.
    pub fn next(&mut self) -> (r: Option<char>)
        requires
            old(self).wf(),
        ensures
            final(self).wf(),
            final(self).chars == old(self).chars,
            final(self).start == old(self).start,
            final(self).idx >= old(self).idx,
            r == (if old(self).idx < old(self).chars@.len() {
                Some(old(self).chars@[old(self).idx as int])
            } else {
                None::<char>
            }),
            old(self).idx <= old(self).chars@.len() ==> final(self).idx == old(self).idx + 1,
            old(self).idx > old(self).chars@.len() ==> final(self).idx == old(self).idx,
    {
        if self.idx < self.chars.len() {
            let c = self.chars[self.idx];
            self.idx = self.idx + 1;
            Some(c)
        } else {
            if self.idx == self.chars.len() {
                self.idx = self.idx + 1;
            }
            None
        }
    }

    /// The next character, without advancing the cursor.
    pub fn peek(&self) -> (r: Option<char>)
        ensures
            r == (if self.idx < self.chars@.len() {
                Some(self.chars@[self.idx as int])
            } else {
                None::<char>
            }),
    {
        if self.idx < self.chars.len() {
            Some(self.chars[self.idx])
        } else {
            None
        }
    }

    /// The cursor position of the next non-blank character, without moving
    /// the cursor.
    pub fn skip_whitespace_virtual(&self) -> (r: usize)
        requires
            self.wf(),
        ensures
            r == wsv(self.chars@, self.idx as int),
            self.idx <= r <= self.chars@.len() + 2,
    {
        proof {
            lemma_wsv(self.chars@, self.idx as int);
        }
        let mut j = self.idx;
        loop
            invariant
                self.wf(),
                self.idx <= j <= self.chars@.len() + 2,
                wsv(self.chars@, self.idx as int) == wsv(self.chars@, j as int),
            decreases self.chars@.len() + 2 - j,
        {
            if j < self.chars.len() && is_space_char(self.chars[j]) {
                j = j + 1;
            } else {
                proof {
                    lemma_wsv(self.chars@, self.idx as int);
                }
                return j;
            }
        }
    }

    /// Moves the cursor to the next non-blank character.
    pub fn skip_whitespace(&mut self)
        requires
            old(self).wf(),
        ensures
            final(self).wf(),
            final(self).chars == old(self).chars,
            final(self).start == old(self).start,
            final(self).idx == wsv(old(self).chars@, old(self).idx as int),
            final(self).idx >= old(self).idx,
    {
        self.idx = self.skip_whitespace_virtual();
    }

    /// Whether `c`, just consumed, ends a record: it is a newline and the
    /// next line starts (after blanks) with `::`, or the block ends there.
    pub fn match_hard_line(&self, c: char) -> (r: bool)
        requires
            self.wf(),
        ensures
            r == hard_line_at(self.chars@, self.idx as int, c),
    {
        if c != '\n' {
            return false;
        }
        let j = self.skip_whitespace_virtual();
        if j >= self.chars.len() {
            true
        } else if self.chars[j] == ':' {
            j + 1 < self.chars.len() && self.chars[j + 1] == ':'
        } else {
            false
        }
    }
}

/// The first position at or after `i` whose character is not blank; the
/// end of the text, or `i` itself when `i` is out of range, otherwise.
pub open spec fn wsv(s: Seq<char>, i: int) -> int
    decreases s.len() - i,
{
    if 0 <= i < s.len() && is_space(s[i]) {
        wsv(s, i + 1)
    } else {
        i
    }
}

pub proof fn lemma_wsv(s: Seq<char>, i: int)
    requires
        i >= 0,
    ensures
        wsv(s, i) >= i,
        i <= s.len() ==> wsv(s, i) <= s.len(),
        i > s.len() ==> wsv(s, i) == i,
        forall|j: int| i <= j < wsv(s, i) ==> is_space(s[j]),
        wsv(s, i) < s.len() ==> !is_space(s[wsv(s, i)]),
    decreases s.len() - i,
{
    if 0 <= i < s.len() && is_space(s[i]) {
        lemma_wsv(s, i + 1);
    }
}

/// Whether the character `c`, consumed just before position `i`, ends a
/// record: `c` is a newline and what follows the blanks from `i` on is
/// `::` or the end of the text.
pub open spec fn hard_line_at(s: Seq<char>, i: int, c: char) -> bool {
    let n = wsv(s, i);
    c == '\n' && (n >= s.len() || (n + 1 < s.len() && s[n] == ':' && s[n + 1] == ':'))
}

/// The result of scanning for a closing delimiter: the characters read
/// (escapes resolved) and the position after the delimiter, or the way the
/// block ended too early.
pub enum CScan {
    Done(Seq<char>, int),
    Fail(EndOfBlockKind),
}

/// Scans from `i` up to an unescaped `:`, appending the characters read
/// onto `acc`: how a directive name is read.
pub open spec fn dir_scan(s: Seq<char>, i: int, acc: Seq<char>) -> CScan
    decreases s.len() - i,
{
    if i < 0 || i >= s.len() {
        CScan::Fail(EndOfBlockKind::Expect(':'))
    } else if s[i] == ':' {
        CScan::Done(acc, i + 1)
    } else if s[i] == '\\' {
        if i + 1 >= s.len() {
            CScan::Fail(EndOfBlockKind::Escape)
        } else {
            dir_scan(s, i + 2, acc.push(s[i + 1]))
        }
    } else {
        dir_scan(s, i + 1, acc.push(s[i]))
    }
}

/// Scans from `i` up to an unescaped `}`, appending the characters read
/// onto `acc`: how a brace-literal group is read.
pub open spec fn br_scan(s: Seq<char>, i: int, acc: Seq<char>) -> CScan
    decreases s.len() - i,
{
    if i < 0 || i >= s.len() {
        CScan::Fail(EndOfBlockKind::Expect('}'))
    } else if s[i] == '}' {
        CScan::Done(acc, i + 1)
    } else if s[i] == '\\' {
        if i + 1 >= s.len() {
            CScan::Fail(EndOfBlockKind::Escape)
        } else {
            br_scan(s, i + 2, acc.push(s[i + 1]))
        }
    } else {
        br_scan(s, i + 1, acc.push(s[i]))
    }
}

pub proof fn lemma_br_scan_ge(s: Seq<char>, i: int, acc: Seq<char>)
    ensures
        br_scan(s, i, acc) matches CScan::Done(_, j) ==> i < j <= s.len(),
    decreases s.len() - i,
{
    if 0 <= i < s.len() && s[i] != '}' {
        if s[i] == '\\' {
            if i + 1 < s.len() {
                lemma_br_scan_ge(s, i + 2, acc.push(s[i + 1]));
            }
        } else {
            lemma_br_scan_ge(s, i + 1, acc.push(s[i]));
        }
    }
}

/// The word with one more character on its end.
pub open spec fn app_char(words: Seq<Seq<char>>, c: char) -> Seq<Seq<char>> {
    words.update(words.len() - 1, words.last().push(c))
}

/// The result of scanning a parameter value: the blank-separated words
/// read and the position after the value, or the way the block ended.
pub enum WScan {
    Done(Seq<Seq<char>>, int),
    Fail(EndOfBlockKind),
}

/// Scans a parameter value from `i`: characters extend the last word of
/// `words`, blank runs start a new word, escapes and brace groups are
/// honoured, and `]` (kept) or `,` (consumed) or the end of the block ends
/// the value.
pub open spec fn val_scan(s: Seq<char>, i: int, words: Seq<Seq<char>>) -> WScan
    decreases s.len() - i,
    via val_scan_dec
{
    if i < 0 || i >= s.len() {
        WScan::Done(words, i)
    } else if s[i] == ']' {
        WScan::Done(words, i)
    } else if s[i] == ',' {
        WScan::Done(words, i + 1)
    } else if s[i] == '\\' {
        if i + 1 >= s.len() {
            WScan::Fail(EndOfBlockKind::Escape)
        } else {
            val_scan(s, i + 2, app_char(words, s[i + 1]))
        }
    } else if s[i] == '{' {
        match br_scan(s, i + 1, words.last()) {
            CScan::Done(w, j) => val_scan(s, j, words.update(words.len() - 1, w)),
            CScan::Fail(k) => WScan::Fail(k),
        }
    } else if is_space(s[i]) {
        val_scan(s, wsv(s, i), words.push(Seq::empty()))
    } else {
        val_scan(s, i + 1, app_char(words, s[i]))
    }
}

#[via_fn]
proof fn val_scan_dec(s: Seq<char>, i: int, words: Seq<Seq<char>>) {
    if 0 <= i < s.len() {
        if s[i] == '{' {
            lemma_br_scan_ge(s, i + 1, words.last());
        }
        if is_space(s[i]) {
            lemma_wsv(s, i + 1);
            assert(wsv(s, i) == wsv(s, i + 1));
        }
    }
}

pub proof fn lemma_val_scan_ge(s: Seq<char>, i: int, words: Seq<Seq<char>>)
    requires
        0 <= i <= s.len(),
    ensures
        val_scan(s, i, words) matches WScan::Done(_, j) ==> i <= j <= s.len(),
    decreases s.len() - i,
{
    if 0 <= i < s.len() && s[i] != ']' && s[i] != ',' {
        if s[i] == '\\' {
            if i + 1 < s.len() {
                lemma_val_scan_ge(s, i + 2, app_char(words, s[i + 1]));
            }
        } else if s[i] == '{' {
            lemma_br_scan_ge(s, i + 1, words.last());
            match br_scan(s, i + 1, words.last()) {
                CScan::Done(w, j) => {
                    lemma_val_scan_ge(s, j, words.update(words.len() - 1, w));
                },
                CScan::Fail(_) => {},
            }
        } else if is_space(s[i]) {
            lemma_wsv(s, i + 1);
            assert(wsv(s, i) == wsv(s, i + 1));
            lemma_val_scan_ge(s, wsv(s, i), words.push(Seq::empty()));
        } else {
            lemma_val_scan_ge(s, i + 1, app_char(words, s[i]));
        }
    }
}

/// The result of scanning one parameter: the words of its name, the words
/// of its value if an `=` followed, and the position after it; or the way
/// the block ended.
pub enum NScan {
    Done { words: Seq<Seq<char>>, value: Option<Seq<Seq<char>>>, j: int },
    Fail(EndOfBlockKind),
}

/// Scans one parameter from `i`: like a value, but an unescaped `=` ends
/// the name and a value follows.
pub open spec fn name_scan(s: Seq<char>, i: int, words: Seq<Seq<char>>) -> NScan
    decreases s.len() - i,
    via name_scan_dec
{
    if i < 0 || i >= s.len() {
        NScan::Done { words, value: None, j: i }
    } else if s[i] == ']' {
        NScan::Done { words, value: None, j: i }
    } else if s[i] == ',' {
        NScan::Done { words, value: None, j: i + 1 }
    } else if s[i] == '=' {
        match val_scan(s, wsv(s, i + 1), seq![Seq::empty()]) {
            WScan::Done(vw, j) => NScan::Done { words, value: Some(vw), j },
            WScan::Fail(k) => NScan::Fail(k),
        }
    } else if s[i] == '\\' {
        if i + 1 >= s.len() {
            NScan::Fail(EndOfBlockKind::Escape)
        } else {
            name_scan(s, i + 2, app_char(words, s[i + 1]))
        }
    } else if s[i] == '{' {
        match br_scan(s, i + 1, words.last()) {
            CScan::Done(w, j) => name_scan(s, j, words.update(words.len() - 1, w)),
            CScan::Fail(k) => NScan::Fail(k),
        }
    } else if is_space(s[i]) {
        name_scan(s, wsv(s, i), words.push(Seq::empty()))
    } else {
        name_scan(s, i + 1, app_char(words, s[i]))
    }
}

#[via_fn]
proof fn name_scan_dec(s: Seq<char>, i: int, words: Seq<Seq<char>>) {
    if 0 <= i < s.len() {
        if s[i] == '{' {
            lemma_br_scan_ge(s, i + 1, words.last());
        }
        if is_space(s[i]) {
            lemma_wsv(s, i + 1);
            assert(wsv(s, i) == wsv(s, i + 1));
        }
    }
}

pub proof fn lemma_name_scan_ge(s: Seq<char>, i: int, words: Seq<Seq<char>>)
    requires
        0 <= i <= s.len(),
    ensures
        name_scan(s, i, words) matches NScan::Done { j, .. } ==> i <= j <= s.len() && (i < s.len()
            && s[i] != ']' ==> j > i),
    decreases s.len() - i,
{
    if 0 <= i < s.len() && s[i] != ']' && s[i] != ',' {
        if s[i] == '=' {
            lemma_wsv(s, i + 1);
            lemma_val_scan_ge(s, wsv(s, i + 1), seq![Seq::empty()]);
        } else if s[i] == '\\' {
            if i + 1 < s.len() {
                lemma_name_scan_ge(s, i + 2, app_char(words, s[i + 1]));
            }
        } else if s[i] == '{' {
            lemma_br_scan_ge(s, i + 1, words.last());
            match br_scan(s, i + 1, words.last()) {
                CScan::Done(w, j) => {
                    lemma_name_scan_ge(s, j, words.update(words.len() - 1, w));
                },
                CScan::Fail(_) => {},
            }
        } else if is_space(s[i]) {
            lemma_wsv(s, i + 1);
            assert(wsv(s, i) == wsv(s, i + 1));
            lemma_name_scan_ge(s, wsv(s, i), words.push(Seq::empty()));
        } else {
            lemma_name_scan_ge(s, i + 1, app_char(words, s[i]));
        }
    }
}

/// The words that are not empty, in order.
pub open spec fn keep_nonempty(ws: Seq<Seq<char>>) -> Seq<Seq<char>>
    decreases ws.len(),
{
    if ws.len() == 0 {
        Seq::empty()
    } else if ws.last().len() > 0 {
        keep_nonempty(ws.drop_last()).push(ws.last())
    } else {
        keep_nonempty(ws.drop_last())
    }
}

/// The parameter name or value the words form: the non-empty words joined
/// by single spaces.
pub open spec fn joined_words(ws: Seq<Seq<char>>) -> Seq<char> {
    crate::strutil::spec_join(keep_nonempty(ws), " "@)
}

/// The model of one parameter: its optional key and its value.
pub open spec fn param_view(p: blocks::Parameter) -> (Option<Seq<char>>, Seq<char>) {
    (
        match p.0 {
            Some(n) => Some(n@),
            None => None,
        },
        p.1@,
    )
}

/// The models of a parameter list.
pub open spec fn params_view(v: Seq<blocks::Parameter>) -> Seq<(Option<Seq<char>>, Seq<char>)> {
    Seq::new(v.len(), |i: int| param_view(v[i]))
}

/// What one scanned parameter contributes to the list: nothing when its
/// name is empty; a keyless parameter when it has no value; a keyed one
/// otherwise.
pub open spec fn param_opt(words: Seq<Seq<char>>, value: Option<Seq<Seq<char>>>) -> Seq<
    (Option<Seq<char>>, Seq<char>),
> {
    let name = joined_words(words);
    if name.len() == 0 {
        Seq::empty()
    } else {
        match value {
            None => seq![(None, name)],
            Some(vw) => seq![(Some(name), joined_words(vw))],
        }
    }
}

/// The result of scanning a parameter list body: the parameters and the
/// position after the closing `]`, or the way the block ended.
pub enum PsScan {
    Done(Seq<(Option<Seq<char>>, Seq<char>)>, int),
    Fail(EndOfBlockKind),
}

/// Scans parameters from `i` until the closing `]`.
pub open spec fn ps_scan(s: Seq<char>, i: int, acc: Seq<(Option<Seq<char>>, Seq<char>)>) -> PsScan
    decreases s.len() - i,
    via ps_scan_dec
{
    if i < 0 || i >= s.len() {
        PsScan::Fail(EndOfBlockKind::Expect(']'))
    } else if s[i] == ']' {
        PsScan::Done(acc, i + 1)
    } else {
        match name_scan(s, wsv(s, i), seq![Seq::empty()]) {
            NScan::Done { words, value, j } => ps_scan(s, j, acc + param_opt(words, value)),
            NScan::Fail(k) => PsScan::Fail(k),
        }
    }
}

#[via_fn]
proof fn ps_scan_dec(s: Seq<char>, i: int, acc: Seq<(Option<Seq<char>>, Seq<char>)>) {
    if 0 <= i < s.len() && s[i] != ']' {
        lemma_wsv(s, i);
        lemma_name_scan_ge(s, wsv(s, i), seq![Seq::empty()]);
    }
}

impl Block {
    /// An error: the block ended while `kind` was expected.
    pub fn end_of_block<T>(&self, kind: EndOfBlockKind) -> (r: EResult<T>)
        requires
            self.start is Some,
        ensures
            r matches Err(e) && e.kinds@ == seq![
                ErrorKind::Block(self.start->0),
                ErrorKind::EndOfBlock(kind),
            ],
    {
        Err(ErrorKind::EndOfBlock(kind).at_block(self.start.unwrap()))
    }

    /// An error: no object in the chain recognised the parameter key.
    pub fn parameter_error<T>(&self, parameter: String) -> (r: EResult<T>)
        requires
            self.start is Some,
        ensures
            r matches Err(e) && e.kinds@ == seq![
                ErrorKind::Block(self.start->0),
                ErrorKind::Parameter(parameter),
            ],
    {
        Err(ErrorKind::Parameter(parameter).at_block(self.start.unwrap()))
    }

    /// The next character; reaching the end of the block instead is an
    /// error naming the character that was being looked for.
    pub fn expect(&mut self, expected: char) -> (r: EResult<char>)
        requires
            old(self).wf(),
            old(self).start is Some,
        ensures
            final(self).wf(),
            final(self).chars == old(self).chars,
            final(self).start == old(self).start,
            final(self).idx >= old(self).idx,
            old(self).idx < old(self).chars@.len() ==> r == Ok::<char, crate::errors::Error>(
                old(self).chars@[old(self).idx as int],
            ) && final(self).idx == old(self).idx + 1,
            old(self).idx >= old(self).chars@.len() ==> (r matches Err(e) && e.kinds@ == seq![
                ErrorKind::Block(old(self).start->0),
                ErrorKind::EndOfBlock(EndOfBlockKind::Expect(expected)),
            ]),
    {
        match self.next() {
            Some(c) => Ok(c),
            None => self.end_of_block(EndOfBlockKind::Expect(expected)),
        }
    }

    /// The next character; reaching the end of the block instead is an
    /// error saying a character had to follow a backslash.
    pub fn expect_escaped(&mut self) -> (r: EResult<char>)
        requires
            old(self).wf(),
            old(self).start is Some,
        ensures
            final(self).wf(),
            final(self).chars == old(self).chars,
            final(self).start == old(self).start,
            final(self).idx >= old(self).idx,
            old(self).idx < old(self).chars@.len() ==> r == Ok::<char, crate::errors::Error>(
                old(self).chars@[old(self).idx as int],
            ) && final(self).idx == old(self).idx + 1,
            old(self).idx >= old(self).chars@.len() ==> (r matches Err(e) && e.kinds@ == seq![
                ErrorKind::Block(old(self).start->0),
                ErrorKind::EndOfBlock(EndOfBlockKind::Escape),
            ]),
    {
        match self.next() {
            Some(c) => Ok(c),
            None => self.end_of_block(EndOfBlockKind::Escape),
        }
    }

    /// Demands exactly the given character next; any other character, or
    /// the end of the block, is an error.
    pub fn expect_exact(&mut self, expected: char) -> (r: EResult<()>)
        requires
            old(self).wf(),
            old(self).start is Some,
        ensures
            final(self).wf(),
            final(self).chars == old(self).chars,
            final(self).start == old(self).start,
            final(self).idx >= old(self).idx,
            old(self).idx < old(self).chars@.len() ==> final(self).idx == old(self).idx + 1 && (
            if old(self).chars@[old(self).idx as int] == expected {
                r is Ok
            } else {
                r matches Err(e) && e.kinds@ == seq![
                    ErrorKind::Block(old(self).start->0),
                    ErrorKind::Expected(expected, old(self).chars@[old(self).idx as int]),
                ]
            }),
            old(self).idx >= old(self).chars@.len() ==> (r matches Err(e) && e.kinds@ == seq![
                ErrorKind::Block(old(self).start->0),
                ErrorKind::EndOfBlock(EndOfBlockKind::Expect(expected)),
            ]),
    {
        match self.next() {
            Some(c) => {
                if c == expected {
                    Ok(())
                } else {
                    Err(ErrorKind::Expected(expected, c).at_block(self.start.unwrap()))
                }
            },
            None => self.end_of_block(EndOfBlockKind::Expect(expected)),
        }
    }

    /// Reads a directive name, the first `:` already consumed, up to the
    /// closing unescaped `:`.
    pub fn directive(&mut self) -> (r: EResult<String>)
        requires
            old(self).wf(),
            old(self).start is Some,
        ensures
            final(self).wf(),
            final(self).chars == old(self).chars,
            final(self).start == old(self).start,
            final(self).idx >= old(self).idx,
            match dir_scan(old(self).chars@, old(self).idx as int, Seq::empty()) {
                CScan::Done(d, j) => r matches Ok(v) && v@ == d && final(self).idx == j,
                CScan::Fail(k) => r matches Err(e) && e.kinds@ == seq![
                    ErrorKind::Block(old(self).start->0),
                    ErrorKind::EndOfBlock(k),
                ],
            },
    {
        let ghost s = self.chars@;
        let ghost i0 = self.idx as int;
        let mut acc = String::new();
        loop
            invariant
                self.wf(),
                self.chars == old(self).chars,
                self.chars@ == s,
                self.start == old(self).start,
                old(self).start is Some,
                self.idx >= old(self).idx,
                s == old(self).chars@,
                i0 == old(self).idx as int,
                dir_scan(s, i0, Seq::empty()) == dir_scan(s, self.idx as int, acc@),
            decreases s.len() + 2 - self.idx,
        {
            let ghost pre_idx = self.idx as int;
            let ghost pre_acc = acc@;
            match self.expect(':') {
                Err(e) => {
                    proof {
                        assert(dir_scan(s, pre_idx, pre_acc) == CScan::Fail(
                            EndOfBlockKind::Expect(':'),
                        ));
                    }
                    return Err(e);
                },
                Ok(c) => {
                    if c == ':' {
                        proof {
                            assert(dir_scan(s, pre_idx, pre_acc) == CScan::Done(
                                pre_acc,
                                pre_idx + 1,
                            ));
                        }
                        return Ok(acc);
                    } else if c == '\\' {
                        match self.expect_escaped() {
                            Err(e) => {
                                proof {
                                    assert(dir_scan(s, pre_idx, pre_acc) == CScan::Fail(
                                        EndOfBlockKind::Escape,
                                    ));
                                }
                                return Err(e);
                            },
                            Ok(c2) => {
                                acc.push(c2);
                                proof {
                                    assert(dir_scan(s, pre_idx, pre_acc) == dir_scan(
                                        s,
                                        pre_idx + 2,
                                        pre_acc.push(c2),
                                    ));
                                }
                            },
                        }
                    } else {
                        acc.push(c);
                        proof {
                            assert(dir_scan(s, pre_idx, pre_acc) == dir_scan(
                                s,
                                pre_idx + 1,
                                pre_acc.push(c),
                            ));
                        }
                    }
                },
            }
        }
    }

    /// Reads a brace group, the opening `{` already consumed, appending
    /// its contents (escapes resolved) onto `buffer`.
    pub fn bracketed(&mut self, buffer: &mut String) -> (r: EResult<()>)
        requires
            old(self).wf(),
            old(self).start is Some,
        ensures
            final(self).wf(),
            final(self).chars == old(self).chars,
            final(self).start == old(self).start,
            final(self).idx >= old(self).idx,
            match br_scan(old(self).chars@, old(self).idx as int, old(buffer)@) {
                CScan::Done(d, j) => r is Ok && final(buffer)@ == d && final(self).idx == j,
                CScan::Fail(k) => r matches Err(e) && e.kinds@ == seq![
                    ErrorKind::Block(old(self).start->0),
                    ErrorKind::EndOfBlock(k),
                ],
            },
    {
        let ghost s = self.chars@;
        let ghost i0 = self.idx as int;
        let ghost b0 = old(buffer)@;
        loop
            invariant
                self.wf(),
                self.chars == old(self).chars,
                self.chars@ == s,
                self.start == old(self).start,
                old(self).start is Some,
                self.idx >= old(self).idx,
                s == old(self).chars@,
                i0 == old(self).idx as int,
                b0 == old(buffer)@,
                br_scan(s, i0, b0) == br_scan(s, self.idx as int, buffer@),
            decreases s.len() + 2 - self.idx,
        {
            let ghost pre_idx = self.idx as int;
            let ghost pre_acc = buffer@;
            match self.expect('}') {
                Err(e) => {
                    proof {
                        assert(br_scan(s, pre_idx, pre_acc) == CScan::Fail(
                            EndOfBlockKind::Expect('}'),
                        ));
                    }
                    return Err(e);
                },
                Ok(c) => {
                    if c == '}' {
                        proof {
                            assert(br_scan(s, pre_idx, pre_acc) == CScan::Done(
                                pre_acc,
                                pre_idx + 1,
                            ));
                        }
                        return Ok(());
                    } else if c == '\\' {
                        match self.expect_escaped() {
                            Err(e) => {
                                proof {
                                    assert(br_scan(s, pre_idx, pre_acc) == CScan::Fail(
                                        EndOfBlockKind::Escape,
                                    ));
                                }
                                return Err(e);
                            },
                            Ok(c2) => {
                                buffer.push(c2);
                                proof {
                                    assert(br_scan(s, pre_idx, pre_acc) == br_scan(
                                        s,
                                        pre_idx + 2,
                                        pre_acc.push(c2),
                                    ));
                                }
                            },
                        }
                    } else {
                        buffer.push(c);
                        proof {
                            assert(br_scan(s, pre_idx, pre_acc) == br_scan(
                                s,
                                pre_idx + 1,
                                pre_acc.push(c),
                            ));
                        }
                    }
                },
            }
        }
    }
}

/// The words of a builder, each as its character sequence.
pub open spec fn strs_view(v: Seq<String>) -> Seq<Seq<char>> {
    Seq::new(v.len(), |i: int| v[i]@)
}

impl Block {
    /// Reads a parameter value: blank-separated words with escapes and
    /// brace groups, ended by `]` (kept), `,` (consumed) or the end of the
    /// block; the non-empty words joined by single spaces.
    pub fn parameter_value(&mut self) -> (r: EResult<String>)
        requires
            old(self).wf(),
            old(self).start is Some,
        ensures
            final(self).wf(),
            final(self).chars == old(self).chars,
            final(self).start == old(self).start,
            final(self).idx >= old(self).idx,
            match val_scan(
                old(self).chars@,
                wsv(old(self).chars@, old(self).idx as int),
                seq![Seq::empty()],
            ) {
                WScan::Done(ws, j) => r matches Ok(v) && v@ == joined_words(ws) && final(self).idx
                    == j,
                WScan::Fail(k) => r matches Err(e) && e.kinds@ == seq![
                    ErrorKind::Block(old(self).start->0),
                    ErrorKind::EndOfBlock(k),
                ],
            },
    {
        let ghost s = self.chars@;
        self.skip_whitespace();
        let ghost i1 = self.idx as int;
        let mut done: Vec<String> = Vec::new();
        let mut cur = String::new();
        proof {
            assert(strs_view(done@).push(cur@) =~= seq![Seq::<char>::empty()]);
        }
        loop
            invariant_except_break
                self.wf(),
                self.chars == old(self).chars,
                self.chars@ == s,
                self.start == old(self).start,
                old(self).start is Some,
                self.idx >= old(self).idx,
                s == old(self).chars@,
                i1 == wsv(s, old(self).idx as int),
                val_scan(s, i1, seq![Seq::empty()]) == val_scan(
                    s,
                    self.idx as int,
                    strs_view(done@).push(cur@),
                ),
            ensures
                self.wf(),
                self.chars == old(self).chars,
                self.start == old(self).start,
                self.idx >= old(self).idx,
                val_scan(s, i1, seq![Seq::empty()]) == WScan::Done(
                    strs_view(done@).push(cur@),
                    self.idx as int,
                ),
            decreases s.len() + 2 - self.idx,
        {
            let ghost pre_idx = self.idx as int;
            let ghost pre_words = strs_view(done@).push(cur@);
            match self.peek() {
                Option::None => {
                    break ;
                },
                Option::Some(c) => {
                    if c == ']' {
                        break ;
                    } else if c == ',' {
                        self.idx = self.idx + 1;
                        break ;
                    } else if c == '\\' {
                        self.idx = self.idx + 1;
                        match self.expect_escaped() {
                            Err(e) => {
                                proof {
                                    assert(val_scan(s, pre_idx, pre_words) == WScan::Fail(
                                        EndOfBlockKind::Escape,
                                    ));
                                }
                                return Err(e);
                            },
                            Ok(c2) => {
                                cur.push(c2);
                                proof {
                                    assert(strs_view(done@).push(cur@) =~= app_char(
                                        pre_words,
                                        c2,
                                    ));
                                    assert(val_scan(s, pre_idx, pre_words) == val_scan(
                                        s,
                                        pre_idx + 2,
                                        app_char(pre_words, c2),
                                    ));
                                }
                            },
                        }
                    } else if c == '{' {
                        self.idx = self.idx + 1;
                        let ghost b0 = cur@;
                        match self.bracketed(&mut cur) {
                            Err(e) => {
                                proof {
                                    assert(pre_words.last() == b0);
                                    assert(val_scan(s, pre_idx, pre_words) matches WScan::Fail(_));
                                }
                                return Err(e);
                            },
                            Ok(()) => {
                                proof {
                                    assert(pre_words.last() == b0);
                                    assert(strs_view(done@).push(cur@) =~= pre_words.update(
                                        pre_words.len() - 1,
                                        cur@,
                                    ));
                                }
                            },
                        }
                    } else if is_space_char(c) {
                        done.push(cur);
                        cur = String::new();
                        proof {
                            lemma_wsv(s, pre_idx + 1);
                            assert(wsv(s, pre_idx) == wsv(s, pre_idx + 1));
                            assert(strs_view(done@).push(cur@) =~= pre_words.push(Seq::empty()));
                            assert(val_scan(s, pre_idx, pre_words) == val_scan(
                                s,
                                wsv(s, pre_idx),
                                pre_words.push(Seq::empty()),
                            ));
                        }
                        self.skip_whitespace();
                    } else {
                        self.idx = self.idx + 1;
                        cur.push(c);
                        proof {
                            assert(strs_view(done@).push(cur@) =~= app_char(pre_words, c));
                            assert(val_scan(s, pre_idx, pre_words) == val_scan(
                                s,
                                pre_idx + 1,
                                app_char(pre_words, c),
                            ));
                        }
                    }
                },
            }
        }
        let ghost pre_done = done@;
        let ghost cur_v = cur@;
        done.push(cur);
        proof {
            assert(done@.drop_last() =~= pre_done);
            assert(strs_view(done@) =~= strs_view(pre_done).push(cur_v));
        }
        Ok(self.join_builder(done))
    }

    /// Joins the non-empty words of the builder with single spaces.
    fn join_builder(&self, done: Vec<String>) -> (r: String)
        ensures
            r@ == joined_words(strs_view(done@)),
    {
        let mut filtered: Vec<String> = Vec::new();
        let mut i: usize = 0;
        proof {
            assert(keep_nonempty(strs_view(done@).take(0)) =~= strs_view(filtered@));
        }
        while i < done.len()
            invariant
                i <= done@.len(),
                strs_view(filtered@) == keep_nonempty(strs_view(done@).take(i as int)),
            decreases done@.len() - i,
        {
            proof {
                assert(strs_view(done@).take(i + 1).drop_last() =~= strs_view(done@).take(i as int));
                assert(strs_view(done@).take(i + 1).last() == done@[i as int]@);
            }
            if !crate::strutil::str_empty(&done[i]) {
                let w = done[i].clone();
                filtered.push(w);
                proof {
                    assert(strs_view(filtered@) =~= keep_nonempty(strs_view(done@).take(i + 1)));
                }
            } else {
                proof {
                    assert(strs_view(filtered@) =~= keep_nonempty(strs_view(done@).take(i + 1)));
                }
            }
            i = i + 1;
        }
        proof {
            assert(strs_view(done@).take(done@.len() as int) =~= strs_view(done@));
            assert(filtered@.map_values(|p: String| p@) =~= strs_view(filtered@));
        }
        crate::strutil::join_with(&filtered, " ")
    }
}

impl Block {
    /// Reads one parameter: a name, optionally `=` and a value, ended by
    /// `]` (kept), `,` (consumed) or the end of the block. A parameter
    /// whose name collapses to nothing is dropped.
    pub fn parameter(&mut self) -> (r: EResult<Option<blocks::Parameter>>)
        requires
            old(self).wf(),
            old(self).start is Some,
        ensures
            final(self).wf(),
            final(self).chars == old(self).chars,
            final(self).start == old(self).start,
            final(self).idx >= old(self).idx,
            match name_scan(
                old(self).chars@,
                wsv(old(self).chars@, old(self).idx as int),
                seq![Seq::empty()],
            ) {
                NScan::Done { words, value, j } => r is Ok && final(self).idx == j && ({
                    let name = joined_words(words);
                    if name.len() == 0 {
                        r->Ok_0 is None
                    } else {
                        match value {
                            Option::None => r->Ok_0 matches Some(p) && p.0 is None && p.1@ == name,
                            Option::Some(vw) => r->Ok_0 matches Some(p) && p.0 matches Some(n)
                                && n@ == name && p.1@ == joined_words(vw),
                        }
                    }
                }),
                NScan::Fail(k) => r matches Err(e) && e.kinds@ == seq![
                    ErrorKind::Block(old(self).start->0),
                    ErrorKind::EndOfBlock(k),
                ],
            },
    {
        let ghost s = self.chars@;
        self.skip_whitespace();
        let ghost i1 = self.idx as int;
        let mut done: Vec<String> = Vec::new();
        let mut cur = String::new();
        let mut vopt: Option<String> = None;
        proof {
            assert(strs_view(done@).push(cur@) =~= seq![Seq::<char>::empty()]);
        }
        loop
            invariant_except_break
                self.wf(),
                self.chars == old(self).chars,
                self.chars@ == s,
                self.start == old(self).start,
                old(self).start is Some,
                self.idx >= old(self).idx,
                s == old(self).chars@,
                i1 == wsv(s, old(self).idx as int),
                vopt is None,
                name_scan(s, i1, seq![Seq::empty()]) == name_scan(
                    s,
                    self.idx as int,
                    strs_view(done@).push(cur@),
                ),
            ensures
                self.wf(),
                self.chars == old(self).chars,
                self.start == old(self).start,
                self.idx >= old(self).idx,
                name_scan(s, i1, seq![Seq::empty()]) matches (NScan::Done { words, value, j })
                    && j == self.idx as int && words == strs_view(done@).push(cur@) && (match (
                    vopt,
                    value,
                ) {
                    (Option::None, Option::None) => true,
                    (Option::Some(v0), Option::Some(vw)) => v0@ == joined_words(vw),
                    _ => false,
                }),
            decreases s.len() + 2 - self.idx,
        {
            let ghost pre_idx = self.idx as int;
            let ghost pre_words = strs_view(done@).push(cur@);
            match self.peek() {
                Option::None => {
                    break ;
                },
                Option::Some(c) => {
                    if c == ']' {
                        break ;
                    } else if c == ',' {
                        self.idx = self.idx + 1;
                        break ;
                    } else if c == '=' {
                        self.idx = self.idx + 1;
                        match self.parameter_value() {
                            Err(e) => {
                                proof {
                                    assert(name_scan(s, pre_idx, pre_words) matches NScan::Fail(
                                        _,
                                    ));
                                }
                                return Err(e);
                            },
                            Ok(v) => {
                                vopt = Some(v);
                                proof {
                                    assert(name_scan(s, pre_idx, pre_words) matches (
                                    NScan::Done { words, value, j }) && words == pre_words
                                        && value is Some && j == self.idx as int);
                                }
                                break ;
                            },
                        }
                    } else if c == '\\' {
                        self.idx = self.idx + 1;
                        match self.expect_escaped() {
                            Err(e) => {
                                proof {
                                    assert(name_scan(s, pre_idx, pre_words) == NScan::Fail(
                                        EndOfBlockKind::Escape,
                                    ));
                                }
                                return Err(e);
                            },
                            Ok(c2) => {
                                cur.push(c2);
                                proof {
                                    assert(strs_view(done@).push(cur@) =~= app_char(
                                        pre_words,
                                        c2,
                                    ));
                                }
                            },
                        }
                    } else if c == '{' {
                        self.idx = self.idx + 1;
                        let ghost b0 = cur@;
                        match self.bracketed(&mut cur) {
                            Err(e) => {
                                proof {
                                    assert(pre_words.last() == b0);
                                    assert(name_scan(s, pre_idx, pre_words) matches NScan::Fail(
                                        _,
                                    ));
                                }
                                return Err(e);
                            },
                            Ok(()) => {
                                proof {
                                    assert(pre_words.last() == b0);
                                    assert(strs_view(done@).push(cur@) =~= pre_words.update(
                                        pre_words.len() - 1,
                                        cur@,
                                    ));
                                }
                            },
                        }
                    } else if is_space_char(c) {
                        done.push(cur);
                        cur = String::new();
                        proof {
                            lemma_wsv(s, pre_idx + 1);
                            assert(wsv(s, pre_idx) == wsv(s, pre_idx + 1));
                            assert(strs_view(done@).push(cur@) =~= pre_words.push(Seq::empty()));
                        }
                        self.skip_whitespace();
                    } else {
                        self.idx = self.idx + 1;
                        cur.push(c);
                        proof {
                            assert(strs_view(done@).push(cur@) =~= app_char(pre_words, c));
                        }
                    }
                },
            }
        }
        let ghost pre_done = done@;
        let ghost cur_v = cur@;
        done.push(cur);
        proof {
            assert(done@.drop_last() =~= pre_done);
            assert(strs_view(done@) =~= strs_view(pre_done).push(cur_v));
        }
        let name = self.join_builder(done);
        if crate::strutil::str_empty(&name) {
            Ok(None)
        } else {
            match vopt {
                Option::Some(v) => Ok(Some(blocks::Parameter(Some(name), v))),
                Option::None => Ok(Some(blocks::Parameter(None, name))),
            }
        }
    }

    /// Reads a `[...]` parameter list if one is present; without one the
    /// cursor is left untouched and the list is empty.
    pub fn parameters(&mut self) -> (r: EResult<Vec<blocks::Parameter>>)
        requires
            old(self).wf(),
            old(self).start is Some,
        ensures
            final(self).wf(),
            final(self).chars == old(self).chars,
            final(self).start == old(self).start,
            final(self).idx >= old(self).idx,
            ({
                let s = old(self).chars@;
                let w = wsv(s, old(self).idx as int);
                if w < s.len() && s[w] == '[' {
                    match ps_scan(s, wsv(s, w + 1), Seq::empty()) {
                        PsScan::Done(ps, j) => r matches Ok(v) && params_view(v@) == ps
                            && final(self).idx == j,
                        PsScan::Fail(k) => r matches Err(e) && e.kinds@ == seq![
                            ErrorKind::Block(old(self).start->0),
                            ErrorKind::EndOfBlock(k),
                        ],
                    }
                } else {
                    r matches Ok(v) && v@ == Seq::<blocks::Parameter>::empty() && final(self).idx
                        == old(self).idx
                }
            }),
    {
        let ghost s = self.chars@;
        let idx0 = self.idx;
        self.skip_whitespace();
        let is_open = match self.peek() {
            Option::Some(c) => c == '[',
            Option::None => false,
        };
        if !is_open {
            self.idx = idx0;
            let v: Vec<blocks::Parameter> = Vec::new();
            return Ok(v);
        }
        self.idx = self.idx + 1;
        self.skip_whitespace();
        let ghost i1 = self.idx as int;
        let mut params: Vec<blocks::Parameter> = Vec::new();
        proof {
            assert(params_view(params@) =~= Seq::<(Option<Seq<char>>, Seq<char>)>::empty());
        }
        loop
            invariant_except_break
                self.wf(),
                self.chars == old(self).chars,
                self.chars@ == s,
                self.start == old(self).start,
                old(self).start is Some,
                s == old(self).chars@,
                i1 == wsv(s, wsv(s, old(self).idx as int) + 1),
                wsv(s, old(self).idx as int) < s.len(),
                s[wsv(s, old(self).idx as int)] == '[',
                self.idx >= old(self).idx,
                ps_scan(s, i1, Seq::empty()) == ps_scan(s, self.idx as int, params_view(params@)),
            ensures
                self.wf(),
                self.chars == old(self).chars,
                self.start == old(self).start,
                self.idx >= old(self).idx,
                ps_scan(s, i1, Seq::empty()) == PsScan::Done(
                    params_view(params@),
                    self.idx as int,
                ),
            decreases s.len() + 2 - self.idx,
        {
            let ghost pre_idx = self.idx as int;
            let ghost pre_ps = params_view(params@);
            match self.expect(']') {
                Err(e) => {
                    proof {
                        assert(ps_scan(s, pre_idx, pre_ps) == PsScan::Fail(
                            EndOfBlockKind::Expect(']'),
                        ));
                    }
                    return Err(e);
                },
                Ok(c) => {
                    if c == ']' {
                        proof {
                            assert(ps_scan(s, pre_idx, pre_ps) == PsScan::Done(
                                pre_ps,
                                pre_idx + 1,
                            ));
                        }
                        break ;
                    }
                    self.idx = self.idx - 1;
                    proof {
                        lemma_wsv(s, pre_idx);
                        lemma_name_scan_ge(s, wsv(s, pre_idx), seq![Seq::empty()]);
                    }
                    match self.parameter() {
                        Err(e) => {
                            proof {
                                assert(ps_scan(s, pre_idx, pre_ps) matches PsScan::Fail(_));
                            }
                            return Err(e);
                        },
                        Ok(popt) => {
                            match popt {
                                Option::Some(p) => {
                                    let ghost pv = param_view(p);
                                    params.push(p);
                                    proof {
                                        assert(params_view(params@) =~= pre_ps.push(pv));
                                        assert(name_scan(s, wsv(s, pre_idx), seq![Seq::empty()])
                                            matches (NScan::Done { words, value, j }) && (pre_ps
                                            + param_opt(words, value) =~= params_view(params@)));
                                    }
                                },
                                Option::None => {
                                    proof {
                                        assert(name_scan(s, wsv(s, pre_idx), seq![Seq::empty()])
                                            matches (NScan::Done { words, value, j }) && (pre_ps
                                            + param_opt(words, value) =~= params_view(params@)));
                                    }
                                },
                            }
                        },
                    }
                },
            }
        }
        Ok(params)
    }
}

/// Where an inline text scan stops.
#[derive(Clone, Copy, Debug)]
pub enum StopCond {
    /// Never: read to the end of the block.
    Never,
    /// At the given character.
    AtChar(char),
    /// At a newline followed by `::` or the end of the block.
    HardLine,
    /// At a cell boundary: `|` or a hard line.
    CellEnd,
    /// At any blank character.
    AtSpace,
}

impl StopCond {
    /// Whether the scan stops on `c`, consumed just before position `i`.
    pub open spec fn spec_stops(self, s: Seq<char>, i: int, c: char) -> bool {
        match self {
            StopCond::Never => false,
            StopCond::AtChar(ch) => c == ch,
            StopCond::HardLine => hard_line_at(s, i, c),
            StopCond::CellEnd => c == '|' || hard_line_at(s, i, c),
            StopCond::AtSpace => is_space(c),
        }
    }
}

impl Block {
    /// Whether the stop condition matches `c` at the current cursor.
    pub fn stop_matches(&self, stop: StopCond, c: char) -> (r: bool)
        requires
            self.wf(),
        ensures
            r == stop.spec_stops(self.chars@, self.idx as int, c),
    {
        match stop {
            StopCond::Never => false,
            StopCond::AtChar(ch) => c == ch,
            StopCond::HardLine => self.match_hard_line(c),
            StopCond::CellEnd => c == '|' || self.match_hard_line(c),
            StopCond::AtSpace => is_space_char(c),
        }
    }

    /// Whether `c` is plain literal text to the inline reader: it opens no
    /// markup, escapes nothing, and is not blank.
    pub open spec fn is_plain_lit(c: char) -> bool {
        c != '{' && c != ':' && c != '*' && c != '_' && c != '^' && c != '`' && c != '\\'
            && !is_space(c)
    }

    /// The position at which a run of plain literal characters starting at
    /// `i` ends: the first position whose character stops the reader, opens
    /// markup, is blank, or lies past the end.
    pub open spec fn lit_end(s: Seq<char>, i: int, stop: StopCond) -> int
        decreases s.len() - i,
    {
        if 0 <= i < s.len() && !stop.spec_stops(s, i + 1, s[i]) && Block::is_plain_lit(s[i]) {
            Block::lit_end(s, i + 1, stop)
        } else {
            i
        }
    }

    /// Reads inline markup until the stop condition matches outside any
    /// element, or the block ends: literal runs with blank runs collapsed
    /// to one space, brace groups, inline directives (`ref`, `link`, any
    /// other name a replacement), emphasis and strong (`*`), italics and
    /// bold (`_`), small caps (`^`), spans with the default class
    /// `conlang` (a backtick), and backslash escapes.
    /// Where the characters from the cursor form a plain run up to the
    /// stop or the end of the block, the contract pins the result: exactly
    /// that run is appended as one literal element.
    pub fn text_until(&mut self, text: &mut crate::text::Text, stop: StopCond) -> (r: EResult<()>)
        requires
            old(self).wf(),
            old(self).start is Some,
        ensures
            final(self).wf(),
            final(self).chars == old(self).chars,
            final(self).start == old(self).start,
            final(self).idx >= old(self).idx,
            old(self).idx <= old(self).chars@.len() ==> final(self).idx > old(self).idx,
            r is Ok && old(self).idx < old(self).chars@.len() ==> (final(self).idx > old(self).idx
                + 1 || (final(self).idx == old(self).idx + 1 && stop.spec_stops(
                old(self).chars@,
                old(self).idx + 1,
                old(self).chars@[old(self).idx as int],
            ))),
            old(text)@.is_prefix_of(final(text)@),
            ({
                let s = old(self).chars@;
                let o = old(self).idx as int;
                let e = Block::lit_end(s, o, stop);
                (o < s.len() && (e >= s.len() || stop.spec_stops(s, e + 1, s[e]))) ==> r is Ok
            }),
            ({
                let s = old(self).chars@;
                let o = old(self).idx as int;
                let e = Block::lit_end(s, o, stop);
                (r is Ok && o < s.len() && (e >= s.len() || stop.spec_stops(s, e + 1, s[e])))
                    ==> (final(text)@ == old(text)@ + (if e > o {
                    seq![
                        crate::text::InlineV {
                            kind: crate::text::InlineTypeV::Lit(s.subrange(o, e)),
                            class: Seq::empty(),
                        },
                    ]
                } else {
                    Seq::<crate::text::InlineV>::empty()
                }) && final(self).idx == e + 1)
            }),
        decreases self.chars@.len() + 2 - self.idx, 0int,
    {
        let mut buffer = String::new();
        proof {
            lemma_lit_end(old(self).chars@, old(self).idx as int, stop);
            if (old(self).idx as int) < old(self).chars@.len() {
                assert(buffer@ =~= old(self).chars@.subrange(
                    old(self).idx as int,
                    old(self).idx as int,
                ));
            }
        }
        loop
            invariant_except_break
                self.wf(),
                self.chars == old(self).chars,
                self.start == old(self).start,
                old(self).start is Some,
                self.idx >= old(self).idx,
                old(text)@.is_prefix_of(text@),
                ({
                    let s = old(self).chars@;
                    let o = old(self).idx as int;
                    let e = Block::lit_end(s, o, stop);
                    (o < s.len() && (e >= s.len() || stop.spec_stops(s, e + 1, s[e]))) ==> (
                    self.idx <= e && buffer@ == s.subrange(o, self.idx as int) && text@ == old(
                        text,
                    )@)
                }),
            ensures
                self.wf(),
                self.chars == old(self).chars,
                self.start == old(self).start,
                self.idx >= old(self).idx,
                old(self).idx <= old(self).chars@.len() ==> self.idx > old(self).idx,
                old(self).idx < old(self).chars@.len() ==> (self.idx > old(self).idx + 1 || (
                self.idx == old(self).idx + 1 && stop.spec_stops(
                    old(self).chars@,
                    old(self).idx + 1,
                    old(self).chars@[old(self).idx as int],
                ))),
                old(text)@.is_prefix_of(text@),
                ({
                    let s = old(self).chars@;
                    let o = old(self).idx as int;
                    let e = Block::lit_end(s, o, stop);
                    (o < s.len() && (e >= s.len() || stop.spec_stops(s, e + 1, s[e]))) ==> (
                    buffer@ == s.subrange(o, e) && text@ == old(text)@ && self.idx == e + 1)
                }),
            decreases self.chars@.len() + 2 - self.idx,
        {
            proof {
                lemma_lit_end(old(self).chars@, old(self).idx as int, stop);
            }
            let ghost pre_text = text@;
            match self.next() {
                Option::None => {
                    break ;
                },
                Option::Some(c) => {
                    if self.stop_matches(stop, c) {
                        break ;
                    } else if c == '{' {
                        buffer = flush_buffer(text, buffer);
                        match self.text_until_char(text, '}') {
                            Ok(()) => {},
                            Err(e) => {
                                return Err(e);
                            },
                        }
                    } else if c == ':' {
                        buffer = flush_buffer(text, buffer);
                        let d = match self.directive() {
                            Ok(d) => d,
                            Err(e) => {
                                return Err(e);
                            },
                        };
                        let kind = if crate::strutil::str_is(&d, "ref") {
                            crate::text::InlineType::reference()
                        } else if crate::strutil::str_is(&d, "link") {
                            crate::text::InlineType::link()
                        } else {
                            crate::text::InlineType::Replace(d)
                        };
                        match self.simple_inline(kind) {
                            Ok(inline) => {
                                text.push(inline);
                            },
                            Err(e) => {
                                return Err(e);
                            },
                        }
                    } else if c == '*' {
                        buffer = flush_buffer(text, buffer);
                        match self.formatting_inline('*', true) {
                            Ok(inline) => {
                                text.push(inline);
                            },
                            Err(e) => {
                                return Err(e);
                            },
                        }
                    } else if c == '_' {
                        buffer = flush_buffer(text, buffer);
                        match self.formatting_inline('_', false) {
                            Ok(inline) => {
                                text.push(inline);
                            },
                            Err(e) => {
                                return Err(e);
                            },
                        }
                    } else if c == '^' {
                        buffer = flush_buffer(text, buffer);
                        let mut inner = crate::text::Text::new();
                        match self.text_until_char(&mut inner, '^') {
                            Ok(()) => {},
                            Err(e) => {
                                return Err(e);
                            },
                        }
                        match self.simple_inline(crate::text::InlineType::SmallCaps(inner)) {
                            Ok(inline) => {
                                text.push(inline);
                            },
                            Err(e) => {
                                return Err(e);
                            },
                        }
                    } else if c == '`' {
                        buffer = flush_buffer(text, buffer);
                        let mut inner = crate::text::Text::new();
                        match self.text_until_char(&mut inner, '`') {
                            Ok(()) => {},
                            Err(e) => {
                                return Err(e);
                            },
                        }
                        let kind = crate::text::InlineType::Span(inner);
                        let mut common = crate::text::InlineCommon::new();
                        common.class = "conlang".to_owned();
                        match self.apply_common_params(&mut common) {
                            Ok(()) => {},
                            Err(e) => {
                                return Err(e);
                            },
                        }
                        text.push(crate::text::Inline { kind, common });
                    } else if c == '\\' {
                        match self.expect_escaped() {
                            Ok(e) => {
                                buffer.push(e);
                            },
                            Err(e) => {
                                return Err(e);
                            },
                        }
                    } else if is_space_char(c) {
                        self.skip_whitespace();
                        buffer.push(' ');
                    } else {
                        buffer.push(c);
                        proof {
                            let s = old(self).chars@;
                            let o = old(self).idx as int;
                            let e = Block::lit_end(s, o, stop);
                            if o < s.len() && (e >= s.len() || stop.spec_stops(s, e + 1, s[e])) {
                                assert(buffer@ =~= s.subrange(o, self.idx as int));
                            }
                        }
                    }
                },
            }
        }
        let ghost bufv = buffer@;
        if !crate::strutil::str_empty(&buffer) {
            text.push_string(buffer);
        }
        proof {
            let s = old(self).chars@;
            let o = old(self).idx as int;
            let e = Block::lit_end(s, o, stop);
            if o < s.len() && (e >= s.len() || stop.spec_stops(s, e + 1, s[e])) {
                if e > o {
                    assert(bufv.len() > 0);
                    assert(text@ =~= old(text)@ + seq![
                        crate::text::InlineV {
                            kind: crate::text::InlineTypeV::Lit(s.subrange(o, e)),
                            class: Seq::empty(),
                        },
                    ]);
                } else {
                    assert(text@ =~= old(text)@ + Seq::<crate::text::InlineV>::empty());
                }
            }
        }
        Ok(())
    }

    /// Reads inline markup to the end of the block.
    pub fn text_rest(&mut self, text: &mut crate::text::Text) -> (r: EResult<()>)
        requires
            old(self).wf(),
            old(self).start is Some,
        ensures
            final(self).wf(),
            final(self).chars == old(self).chars,
            final(self).start == old(self).start,
            final(self).idx >= old(self).idx,
            old(self).idx <= old(self).chars@.len() ==> final(self).idx > old(self).idx,
            r is Ok && old(self).idx < old(self).chars@.len() ==> (final(self).idx > old(self).idx
                + 1 || (final(self).idx == old(self).idx + 1 && (StopCond::Never).spec_stops(
                old(self).chars@,
                old(self).idx + 1,
                old(self).chars@[old(self).idx as int],
            ))),
            old(text)@.is_prefix_of(final(text)@),
            ({
                let s = old(self).chars@;
                let o = old(self).idx as int;
                let e = Block::lit_end(s, o, StopCond::Never);
                (o < s.len() && e >= s.len()) ==> r is Ok
            }),
            ({
                let s = old(self).chars@;
                let o = old(self).idx as int;
                let e = Block::lit_end(s, o, StopCond::Never);
                (r is Ok && o < s.len() && e >= s.len()) ==> (final(text)@ == old(text)@ + (if e
                    > o {
                    seq![
                        crate::text::InlineV {
                            kind: crate::text::InlineTypeV::Lit(s.subrange(o, e)),
                            class: Seq::empty(),
                        },
                    ]
                } else {
                    Seq::<crate::text::InlineV>::empty()
                }) && final(self).idx == e + 1)
            }),
        decreases self.chars@.len() + 2 - self.idx, 1int,
    {
        self.text_until(text, StopCond::Never)
    }

    /// Reads inline markup until the given character.
    pub fn text_until_char(&mut self, text: &mut crate::text::Text, until: char) -> (r: EResult<
        (),
    >)
        requires
            old(self).wf(),
            old(self).start is Some,
        ensures
            final(self).wf(),
            final(self).chars == old(self).chars,
            final(self).start == old(self).start,
            final(self).idx >= old(self).idx,
            old(self).idx <= old(self).chars@.len() ==> final(self).idx > old(self).idx,
            r is Ok && old(self).idx < old(self).chars@.len() ==> (final(self).idx > old(self).idx
                + 1 || (final(self).idx == old(self).idx + 1 && (StopCond::AtChar(until)).spec_stops(
                old(self).chars@,
                old(self).idx + 1,
                old(self).chars@[old(self).idx as int],
            ))),
            old(text)@.is_prefix_of(final(text)@),
            ({
                let s = old(self).chars@;
                let o = old(self).idx as int;
                let e = Block::lit_end(s, o, StopCond::AtChar(until));
                (o < s.len() && (e >= s.len() || s[e] == until)) ==> r is Ok
            }),
            ({
                let s = old(self).chars@;
                let o = old(self).idx as int;
                let e = Block::lit_end(s, o, StopCond::AtChar(until));
                (r is Ok && o < s.len() && (e >= s.len() || s[e] == until)) ==> (final(text)@
                    == old(text)@ + (if e > o {
                    seq![
                        crate::text::InlineV {
                            kind: crate::text::InlineTypeV::Lit(s.subrange(o, e)),
                            class: Seq::empty(),
                        },
                    ]
                } else {
                    Seq::<crate::text::InlineV>::empty()
                }) && final(self).idx == e + 1)
            }),
        decreases self.chars@.len() + 2 - self.idx, 1int,
    {
        self.text_until(text, StopCond::AtChar(until))
    }

    /// Reads inline markup until a hard line: a newline whose next line
    /// starts with `::`, or the end of the block.
    pub fn text_until_hard_line(&mut self, text: &mut crate::text::Text) -> (r: EResult<()>)
        requires
            old(self).wf(),
            old(self).start is Some,
        ensures
            final(self).wf(),
            final(self).chars == old(self).chars,
            final(self).start == old(self).start,
            final(self).idx >= old(self).idx,
            old(self).idx <= old(self).chars@.len() ==> final(self).idx > old(self).idx,
            r is Ok && old(self).idx < old(self).chars@.len() ==> (final(self).idx > old(self).idx
                + 1 || (final(self).idx == old(self).idx + 1 && (StopCond::HardLine).spec_stops(
                old(self).chars@,
                old(self).idx + 1,
                old(self).chars@[old(self).idx as int],
            ))),
            old(text)@.is_prefix_of(final(text)@),
            ({
                let s = old(self).chars@;
                let o = old(self).idx as int;
                let e = Block::lit_end(s, o, StopCond::HardLine);
                (o < s.len() && (e >= s.len() || (StopCond::HardLine).spec_stops(s, e + 1, s[e])))
                    ==> r is Ok
            }),
            ({
                let s = old(self).chars@;
                let o = old(self).idx as int;
                let e = Block::lit_end(s, o, StopCond::HardLine);
                (r is Ok && o < s.len() && (e >= s.len() || (StopCond::HardLine).spec_stops(
                    s,
                    e + 1,
                    s[e],
                ))) ==> (final(text)@ == old(text)@ + (if e > o {
                    seq![
                        crate::text::InlineV {
                            kind: crate::text::InlineTypeV::Lit(s.subrange(o, e)),
                            class: Seq::empty(),
                        },
                    ]
                } else {
                    Seq::<crate::text::InlineV>::empty()
                }) && final(self).idx == e + 1)
            }),
        decreases self.chars@.len() + 2 - self.idx, 1int,
    {
        self.text_until(text, StopCond::HardLine)
    }

    /// Builds one parameterised inline element: reads the parameter list
    /// that follows and applies it to the element, then to its common
    /// attributes; a keyed parameter neither recognises is an error.
    pub fn simple_inline(&mut self, kind: crate::text::InlineType) -> (r: EResult<
        crate::text::Inline,
    >)
        requires
            old(self).wf(),
            old(self).start is Some,
        ensures
            final(self).wf(),
            final(self).chars == old(self).chars,
            final(self).start == old(self).start,
            final(self).idx >= old(self).idx,
            ({
                let s = old(self).chars@;
                let w = wsv(s, old(self).idx as int);
                !(w < s.len() && s[w] == '[') ==> (r matches Ok(inl) && inl.kind == kind
                    && inl.common.class@ == Seq::<char>::empty() && final(self).idx == old(
                    self,
                ).idx)
            }),
    {
        let ghost kind0 = kind;
        let mut kind = kind;
        let mut common = crate::text::InlineCommon::new();
        let mut params = self.parameters()?;
        while params.len() > 0
            invariant
                self.wf(),
                self.chars == old(self).chars,
                self.start == old(self).start,
                old(self).start is Some,
                self.idx >= old(self).idx,
                ({
                    let s = old(self).chars@;
                    let w = wsv(s, old(self).idx as int);
                    !(w < s.len() && s[w] == '[') ==> (params@
                        == Seq::<blocks::Parameter>::empty() && kind == kind0 && common.class@
                        == Seq::<char>::empty() && self.idx == old(self).idx)
                }),
            decreases params.len(),
        {
            let p = params.remove(0);
            match kind.update_param(p)? {
                Option::None => {},
                Option::Some(p2) => {
                    match common.update_param(p2)? {
                        Option::None => {},
                        Option::Some(p3) => {
                            return self.parameter_error(p3.0.unwrap());
                        },
                    }
                },
            }
        }
        Ok(crate::text::Inline { kind, common })
    }

    /// Applies a parameter list to common inline attributes alone: for a
    /// span, which has no parameters of its own.
    fn apply_common_params(&mut self, common: &mut crate::text::InlineCommon) -> (r: EResult<()>)
        requires
            old(self).wf(),
            old(self).start is Some,
        ensures
            final(self).wf(),
            final(self).chars == old(self).chars,
            final(self).start == old(self).start,
            final(self).idx >= old(self).idx,
    {
        let mut params = self.parameters()?;
        while params.len() > 0
            invariant
                self.wf(),
                self.chars == old(self).chars,
                self.start == old(self).start,
                old(self).start is Some,
                self.idx >= old(self).idx,
            decreases params.len(),
        {
            let p = params.remove(0);
            match common.update_param(p)? {
                Option::None => {},
                Option::Some(p2) => {
                    return self.parameter_error(p2.0.unwrap());
                },
            }
        }
        Ok(())
    }

    /// Reads an emphasis-like element: a doubled delimiter gives the
    /// strong variant, a single one the plain variant. `semantic` picks
    /// emphasis/strong over italics/bold.
    pub fn formatting_inline(&mut self, delim: char, semantic: bool) -> (r: EResult<
        crate::text::Inline,
    >)
        requires
            old(self).wf(),
            old(self).start is Some,
        ensures
            final(self).wf(),
            final(self).chars == old(self).chars,
            final(self).start == old(self).start,
            final(self).idx >= old(self).idx,
            ({
                let s = old(self).chars@;
                let o = old(self).idx as int;
                let e = Block::lit_end(s, o, StopCond::AtChar(delim));
                (o < s.len() && s[o] != delim && e < s.len() && s[e] == delim && !(wsv(s, e + 1)
                    < s.len() && s[wsv(s, e + 1)] == '[')) ==> (r matches Ok(inl)
                    && final(self).idx == e + 1 && inl.common.class@ == Seq::<char>::empty() && ({
                    let tv = if e > o {
                        seq![
                            crate::text::InlineV {
                                kind: crate::text::InlineTypeV::Lit(s.subrange(o, e)),
                                class: Seq::empty(),
                            },
                        ]
                    } else {
                        Seq::<crate::text::InlineV>::empty()
                    };
                    if semantic {
                        inl.kind matches crate::text::InlineType::Emphasis(t) && t@ == tv
                    } else {
                        inl.kind matches crate::text::InlineType::Italics(t) && t@ == tv
                    }
                }))
            }),
        decreases self.chars@.len() + 2 - self.idx, 2int,
    {
        let c = self.expect(delim)?;
        let kind = if c == delim {
            let mut inner = crate::text::Text::new();
            self.text_until_char(&mut inner, delim)?;
            self.expect_exact(delim)?;
            if semantic {
                crate::text::InlineType::Strong(inner)
            } else {
                crate::text::InlineType::Bold(inner)
            }
        } else {
            self.idx = self.idx - 1;
            let mut inner = crate::text::Text::new();
            self.text_until_char(&mut inner, delim)?;
            if semantic {
                crate::text::InlineType::Emphasis(inner)
            } else {
                crate::text::InlineType::Italics(inner)
            }
        };
        self.simple_inline(kind)
    }
}

/// The characters before the end of a plain run are plain and do not
/// stop the reader; the run ends at the stop, at markup, or at the end.
pub proof fn lemma_lit_end(s: Seq<char>, i: int, stop: StopCond)
    requires
        i >= 0,
    ensures
        Block::lit_end(s, i, stop) >= i,
        i <= s.len() ==> Block::lit_end(s, i, stop) <= s.len(),
        i > s.len() ==> Block::lit_end(s, i, stop) == i,
        forall|j: int|
            i <= j < Block::lit_end(s, i, stop) ==> Block::is_plain_lit(#[trigger] s[j])
                && !stop.spec_stops(s, j + 1, s[j]),
        Block::lit_end(s, i, stop) < s.len() ==> (stop.spec_stops(
            s,
            Block::lit_end(s, i, stop) + 1,
            s[Block::lit_end(s, i, stop)],
        ) || !Block::is_plain_lit(s[Block::lit_end(s, i, stop)])),
    decreases s.len() - i,
{
    if 0 <= i < s.len() && !stop.spec_stops(s, i + 1, s[i]) && Block::is_plain_lit(s[i]) {
        lemma_lit_end(s, i + 1, stop);
    }
}

/// Moves a non-empty literal buffer into the text as one plain element
/// and hands back an empty buffer.
fn flush_buffer(text: &mut crate::text::Text, buffer: String) -> (r: String)
    ensures
        old(text)@.is_prefix_of(final(text)@),
        r@ == Seq::<char>::empty(),
{
    if !crate::strutil::str_empty(&buffer) {
        text.push_string(buffer);
    }
    String::new()
}

/// The first position at or after `i` whose character is not `#`.
pub open spec fn hash_end(s: Seq<char>, i: int) -> int
    decreases s.len() - i,
{
    if 0 <= i < s.len() && s[i] == '#' {
        hash_end(s, i + 1)
    } else {
        i
    }
}

pub proof fn lemma_hash_end(s: Seq<char>, i: int)
    requires
        i >= 0,
    ensures
        hash_end(s, i) >= i,
        i <= s.len() ==> hash_end(s, i) <= s.len(),
        forall|j: int| i <= j < hash_end(s, i) ==> s[j] == '#',
        hash_end(s, i) < s.len() ==> s[hash_end(s, i)] != '#',
    decreases s.len() - i,
{
    if 0 <= i < s.len() && s[i] == '#' {
        lemma_hash_end(s, i + 1);
    }
}

pub proof fn lemma_hash_end_extend(s: Seq<char>, i: int, k: int)
    requires
        0 <= i <= k <= s.len(),
        forall|j: int| i <= j < k ==> s[j] == '#',
    ensures
        hash_end(s, i) >= k,
    decreases k - i,
{
    lemma_hash_end(s, i);
    if i < k {
        lemma_hash_end_extend(s, i + 1, k);
    }
}

impl Block {
    /// Parses the whole block: an empty block gives nothing; a leading
    /// `#`-run a heading; a leading known `:name:` directive its block
    /// kind; anything else a paragraph.
    pub fn parse(&mut self) -> (r: EResult<Option<blocks::Block>>)
        requires
            old(self).wf(),
            old(self).start is Some || wsv(old(self).chars@, old(self).idx as int) >= old(
                self,
            ).chars@.len(),
        ensures
            final(self).wf(),
            final(self).chars == old(self).chars,
            final(self).start == old(self).start,
            r matches Ok(Some(blk)) ==> crate::document::Document::block_ok(blk),
            ({
                let s = old(self).chars@;
                let w = wsv(s, old(self).idx as int);
                let e = Block::lit_end(s, w, StopCond::Never);
                (w < s.len() && s[w] != '#' && s[w] != ':' && e >= s.len()) ==> (r matches Ok(
                    Some(b),
                ) && b.kind matches blocks::BlockKind::Paragraph(t) && t@ == seq![
                    crate::text::InlineV {
                        kind: crate::text::InlineTypeV::Lit(s.subrange(w, e)),
                        class: Seq::empty(),
                    },
                ])
            }),
            ({
                let s = old(self).chars@;
                let w = wsv(s, old(self).idx as int);
                let h0 = hash_end(s, w);
                let w0 = wsv(s, h0);
                let e = Block::lit_end(s, h0, StopCond::Never);
                (w < s.len() && s[w] == '#' && !(w0 < s.len() && s[w0] == '[') && h0 < s.len()
                    && e >= s.len()) ==> (r matches Ok(Some(b)) ==> (b.kind matches
                    blocks::BlockKind::Heading(h) && h.numbered && h.toc && h.title@ == (if e
                    > h0 {
                    seq![
                        crate::text::InlineV {
                            kind: crate::text::InlineTypeV::Lit(s.subrange(h0, e)),
                            class: Seq::empty(),
                        },
                    ]
                } else {
                    Seq::<crate::text::InlineV>::empty()
                })))
            }),
            ({
                let s = old(self).chars@;
                let w = wsv(s, old(self).idx as int);
                &&& (r matches Ok(b) && b is None <==> w >= s.len())
                &&& (match r {
                    Ok(Some(b)) => b.common.start_line == old(self).start->0 && ({
                        let c = s[w];
                        if c == '#' {
                            &&& b.kind matches blocks::BlockKind::Heading(h)
                            &&& h.level == hash_end(s, w) - w
                            &&& 1 <= h.level
                            &&& h.number@ == Seq::<usize>::empty()
                            &&& h.children.headings@ == Seq::<usize>::empty()
                            &&& h.children.last_child_number == 0
                            &&& h.children.level == h.level + 1
                        } else if c == ':' {
                            match dir_scan(s, w + 1, Seq::empty()) {
                                CScan::Done(d, _) => {
                                    if d == "toc"@ {
                                        b.kind is Contents
                                    } else if d == "list"@ {
                                        b.kind is List
                                    } else if d == "table"@ {
                                        b.kind is Table
                                    } else if d == "gloss"@ {
                                        b.kind is Gloss
                                    } else if d == "replace"@ {
                                        b.kind is Replacements
                                    } else {
                                        b.kind is Paragraph
                                    }
                                },
                                CScan::Fail(_) => false,
                            }
                        } else {
                            b.kind is Paragraph
                        }
                    }),
                    _ => true,
                })
            }),
    {
        self.skip_whitespace();
        let start = self.idx;
        match self.next() {
            Option::None => Ok(None),
            Option::Some(c) => {
                proof {
                    lemma_wsv(old(self).chars@, old(self).idx as int);
                }
                let b = if c == ':' {
                    let d = self.directive()?;
                    if crate::strutil::str_is(&d, "toc") {
                        self.parse_toc()?
                    } else if crate::strutil::str_is(&d, "list") {
                        self.parse_list()?
                    } else if crate::strutil::str_is(&d, "table") {
                        self.parse_table()?
                    } else if crate::strutil::str_is(&d, "gloss") {
                        self.parse_gloss()?
                    } else if crate::strutil::str_is(&d, "replace") {
                        self.parse_replace_block()?
                    } else {
                        self.parse_paragraph(start)?
                    }
                } else if c == '#' {
                    self.parse_heading(start)?
                } else {
                    self.parse_paragraph(start)?
                };
                Ok(Some(b))
            },
        }
    }

    /// Parses a table-of-contents block.
    fn parse_toc(&mut self) -> (r: EResult<blocks::Block>)
        requires
            old(self).wf(),
            old(self).start is Some,
        ensures
            final(self).wf(),
            final(self).chars == old(self).chars,
            final(self).start == old(self).start,
            r matches Ok(b) ==> b.kind is Contents && b.common.start_line == old(self).start->0,
    {
        let mut toc = crate::blocks::contents::Contents::new();
        let mut common = blocks::BlockCommon::new(self.start.unwrap());
        let mut params = self.parameters()?;
        while params.len() > 0
            invariant
                self.wf(),
                self.chars == old(self).chars,
                self.start == old(self).start,
                old(self).start is Some,
                common.start_line == old(self).start->0,
            decreases params.len(),
        {
            let p = params.remove(0);
            match toc.update_param(p)? {
                Option::None => {},
                Option::Some(p2) => {
                    match common.update_param(p2)? {
                        Option::None => {},
                        Option::Some(p3) => {
                            let blocks::Parameter(k, _) = p3;
                            match k {
                                Option::Some(name) => {
                                    return self.parameter_error(name);
                                },
                                Option::None => {
                                    proof {
                                        assert(false);
                                    }
                                },
                            }
                        },
                    }
                },
            }
        }
        self.text_rest(&mut toc.title)?;
        Ok(blocks::Block { kind: blocks::BlockKind::Contents(toc), common })
    }

    /// Parses a list block: each item starts on a `::` line, nesting by
    /// indentation.
    fn parse_list(&mut self) -> (r: EResult<blocks::Block>)
        requires
            old(self).wf(),
            old(self).start is Some,
        ensures
            final(self).wf(),
            final(self).chars == old(self).chars,
            final(self).start == old(self).start,
            r matches Ok(b) ==> b.kind is List && b.common.start_line == old(self).start->0,
    {
        let mut list = crate::blocks::list::List::new();
        let mut common = blocks::BlockCommon::new(self.start.unwrap());
        let mut params = self.parameters()?;
        while params.len() > 0
            invariant
                self.wf(),
                self.chars == old(self).chars,
                self.start == old(self).start,
                old(self).start is Some,
                common.start_line == old(self).start->0,
            decreases params.len(),
        {
            let p = params.remove(0);
            match list.update_param(p)? {
                Option::None => {},
                Option::Some(p2) => {
                    match common.update_param(p2)? {
                        Option::None => {},
                        Option::Some(p3) => {
                            let blocks::Parameter(k, _) = p3;
                            match k {
                                Option::Some(name) => {
                                    return self.parameter_error(name);
                                },
                                Option::None => {
                                    proof {
                                        assert(false);
                                    }
                                },
                            }
                        },
                    }
                },
            }
        }
        while self.idx < self.chars.len()
            invariant
                self.wf(),
                self.chars == old(self).chars,
                self.start == old(self).start,
                old(self).start is Some,
            decreases self.chars@.len() + 2 - self.idx,
        {
            let sw = self.skip_whitespace_virtual();
            proof {
                lemma_wsv(self.chars@, self.idx as int);
            }
            let indent = sw - self.idx;
            self.idx = sw + 2;
            let mut item = crate::blocks::list::ListItem::new();
            self.text_until_hard_line(&mut item.text)?;
            self.list_tree(indent, &mut item.sublist)?;
            list.items.push(item);
        }
        Ok(blocks::Block { kind: blocks::BlockKind::List(list), common })
    }

    /// Recursively appends nested list items while their indentation
    /// exceeds `last_indent`.
    fn list_tree(
        &mut self,
        last_indent: usize,
        parent: &mut Vec<crate::blocks::list::ListItem>,
    ) -> (r: EResult<()>)
        requires
            old(self).wf(),
            old(self).start is Some,
        ensures
            final(self).wf(),
            final(self).chars == old(self).chars,
            final(self).start == old(self).start,
            final(self).idx >= old(self).idx,
        decreases self.chars@.len() + 2 - self.idx, 3int,
    {
        loop
            invariant_except_break
                self.wf(),
                self.chars == old(self).chars,
                self.start == old(self).start,
                old(self).start is Some,
                self.idx >= old(self).idx,
            ensures
                self.wf(),
                self.chars == old(self).chars,
                self.start == old(self).start,
                self.idx >= old(self).idx,
            decreases self.chars@.len() + 2 - self.idx,
        {
            let sw = self.skip_whitespace_virtual();
            proof {
                lemma_wsv(self.chars@, self.idx as int);
            }
            let indent = sw - self.idx;
            if indent <= last_indent {
                break ;
            }
            self.idx = sw + 2;
            let mut item = crate::blocks::list::ListItem::new();
            match self.text_until_hard_line(&mut item.text) {
                Ok(()) => {},
                Err(e) => {
                    return Err(e);
                },
            }
            match self.list_tree(indent, &mut item.sublist) {
                Ok(()) => {},
                Err(e) => {
                    return Err(e);
                },
            }
            parent.push(item);
        }
        Ok(())
    }

    /// Parses a heading block: the level is the length of the `#`-run.
    fn parse_heading(&mut self, start: usize) -> (r: EResult<blocks::Block>)
        requires
            old(self).wf(),
            old(self).start is Some,
            old(self).idx == start + 1,
            start < old(self).chars@.len(),
            old(self).chars@[start as int] == '#',
        ensures
            final(self).wf(),
            final(self).chars == old(self).chars,
            final(self).start == old(self).start,
            r matches Ok(b) ==> b.common.start_line == old(self).start->0 && ({
                let s = old(self).chars@;
                &&& b.kind matches blocks::BlockKind::Heading(h)
                &&& h.level == hash_end(s, start as int) - start
                &&& 1 <= h.level
                &&& h.number@ == Seq::<usize>::empty()
                &&& h.children.headings@ == Seq::<usize>::empty()
                &&& h.children.last_child_number == 0
                &&& h.children.level == h.level + 1
            }),
            ({
                let s = old(self).chars@;
                let h0 = hash_end(s, start as int);
                let w0 = wsv(s, h0);
                let e = Block::lit_end(s, h0, StopCond::Never);
                (!(w0 < s.len() && s[w0] == '[') && h0 < s.len() && e >= s.len()) ==> (r matches
                    Ok(b) ==> (b.kind matches blocks::BlockKind::Heading(h) && h.numbered && h.toc
                    && h.title@ == (if e > h0 {
                    seq![
                        crate::text::InlineV {
                            kind: crate::text::InlineTypeV::Lit(s.subrange(h0, e)),
                            class: Seq::empty(),
                        },
                    ]
                } else {
                    Seq::<crate::text::InlineV>::empty()
                })))
            }),
    {
        let ghost s = self.chars@;
        proof {
            lemma_hash_end(s, start as int);
        }
        loop
            invariant_except_break
                self.wf(),
                self.chars == old(self).chars,
                self.start == old(self).start,
                old(self).start is Some,
                s == old(self).chars@,
                start + 1 <= self.idx <= s.len(),
                forall|j: int| start <= j < self.idx ==> s[j] == '#',
            ensures
                self.wf(),
                self.chars == old(self).chars,
                self.start == old(self).start,
                s == old(self).chars@,
                self.idx == hash_end(s, start as int) + 1,
            decreases s.len() + 2 - self.idx,
        {
            let ghost pre_idx = self.idx as int;
            match self.next() {
                Option::Some(c) => {
                    if c != '#' {
                        proof {
                            lemma_hash_end(s, start as int);
                            lemma_hash_end_extend(s, start as int, pre_idx);
                            assert(hash_end(s, start as int) == pre_idx);
                        }
                        break ;
                    }
                },
                Option::None => {
                    proof {
                        lemma_hash_end(s, start as int);
                        lemma_hash_end_extend(s, start as int, pre_idx);
                        assert(hash_end(s, start as int) == s.len());
                    }
                    break ;
                },
            }
        }
        let level = self.idx - start - 1;
        self.idx = self.idx - 1;
        let mut heading = crate::blocks::heading::Heading::new(level);
        let mut common = blocks::BlockCommon::new(self.start.unwrap());
        let mut params = self.parameters()?;
        while params.len() > 0
            invariant
                self.wf(),
                self.chars == old(self).chars,
                self.start == old(self).start,
                old(self).start is Some,
                common.start_line == old(self).start->0,
                heading.level == level,
                heading.number@ == Seq::<usize>::empty(),
                heading.children.headings@ == Seq::<usize>::empty(),
                heading.children.last_child_number == 0,
                heading.children.level == level + 1,
                heading.title@ == Seq::<crate::text::InlineV>::empty(),
                ({
                    let h0 = hash_end(s, start as int);
                    let w0 = wsv(s, h0);
                    !(w0 < s.len() && s[w0] == '[') ==> (params@.len() == 0 && heading.numbered
                        && heading.toc && self.idx == h0)
                }),
            decreases params.len(),
        {
            let p = params.remove(0);
            match heading.update_param(p)? {
                Option::None => {},
                Option::Some(p2) => {
                    match common.update_param(p2)? {
                        Option::None => {},
                        Option::Some(p3) => {
                            let blocks::Parameter(k, _) = p3;
                            match k {
                                Option::Some(name) => {
                                    return self.parameter_error(name);
                                },
                                Option::None => {
                                    proof {
                                        assert(false);
                                    }
                                },
                            }
                        },
                    }
                },
            }
        }
        self.text_rest(&mut heading.title)?;
        proof {
            let h0 = hash_end(s, start as int);
            let w0 = wsv(s, h0);
            let e = Block::lit_end(s, h0, StopCond::Never);
            if !(w0 < s.len() && s[w0] == '[') && h0 < s.len() && e >= s.len() {
                if e > h0 {
                    assert(heading.title@ =~= seq![
                        crate::text::InlineV {
                            kind: crate::text::InlineTypeV::Lit(s.subrange(h0, e)),
                            class: Seq::empty(),
                        },
                    ]);
                } else {
                    assert(heading.title@ =~= Seq::<crate::text::InlineV>::empty());
                }
            }
        }
        Ok(blocks::Block { kind: blocks::BlockKind::Heading(heading), common })
    }

    /// Parses a paragraph, rewinding to where the block's content began.
    fn parse_paragraph(&mut self, start: usize) -> (r: EResult<blocks::Block>)
        requires
            old(self).wf(),
            old(self).start is Some,
            start <= old(self).chars@.len() + 2,
        ensures
            final(self).wf(),
            final(self).chars == old(self).chars,
            final(self).start == old(self).start,
            r matches Ok(b) ==> b.kind is Paragraph && b.common.start_line == old(self).start->0,
            ({
                let s = old(self).chars@;
                let e = Block::lit_end(s, start as int, StopCond::Never);
                ((start as int) < s.len() && e >= s.len()) ==> (r matches Ok(b) && b.kind matches
                    blocks::BlockKind::Paragraph(t) && t@ == seq![
                    crate::text::InlineV {
                        kind: crate::text::InlineTypeV::Lit(s.subrange(start as int, e)),
                        class: Seq::empty(),
                    },
                ])
            }),
    {
        self.idx = start;
        let mut text = crate::text::Text::new();
        let common = blocks::BlockCommon::new(self.start.unwrap());
        self.text_rest(&mut text)?;
        proof {
            let s = old(self).chars@;
            let e = Block::lit_end(s, start as int, StopCond::Never);
            if (start as int) < s.len() && e >= s.len() {
                lemma_lit_end(s, start as int, StopCond::Never);
                assert(text@ =~= seq![
                    crate::text::InlineV {
                        kind: crate::text::InlineTypeV::Lit(s.subrange(start as int, e)),
                        class: Seq::empty(),
                    },
                ]);
            }
        }
        Ok(blocks::Block { kind: blocks::BlockKind::Paragraph(text), common })
    }
}

impl Block {
    /// Parses a table block: a caption, a column-definition row, then
    /// `|`-delimited rows of parameterised cells.
    fn parse_table(&mut self) -> (r: EResult<blocks::Block>)
        requires
            old(self).wf(),
            old(self).start is Some,
        ensures
            final(self).wf(),
            final(self).chars == old(self).chars,
            final(self).start == old(self).start,
            r matches Ok(b) ==> b.kind is Table && b.common.start_line == old(self).start->0,
            ({
                let s = old(self).chars@;
                let o = old(self).idx as int;
                let w0 = wsv(s, o);
                let e = Block::lit_end(s, o, StopCond::AtChar('\n'));
                (!(w0 < s.len() && s[w0] == '[') && o < s.len() && (e >= s.len() || s[e] == '\n'))
                    ==> (r matches Ok(b) ==> (b.kind matches blocks::BlockKind::Table(t)
                    && t.title@ == (if e > o {
                    seq![
                        crate::text::InlineV {
                            kind: crate::text::InlineTypeV::Lit(s.subrange(o, e)),
                            class: Seq::empty(),
                        },
                    ]
                } else {
                    Seq::<crate::text::InlineV>::empty()
                })))
            }),
    {
        let mut table = crate::blocks::table::Table::new();
        let mut common = blocks::BlockCommon::new(self.start.unwrap());
        let mut params = self.parameters()?;
        while params.len() > 0
            invariant
                self.wf(),
                self.chars == old(self).chars,
                self.start == old(self).start,
                old(self).start is Some,
                common.start_line == old(self).start->0,
                table.title@ == Seq::<crate::text::InlineV>::empty(),
            decreases params.len(),
        {
            let p = params.remove(0);
            match table.update_param(p)? {
                Option::None => {},
                Option::Some(p2) => {
                    match common.update_param(p2)? {
                        Option::None => {},
                        Option::Some(p3) => {
                            let blocks::Parameter(k, _) = p3;
                            match k {
                                Option::Some(name) => {
                                    return self.parameter_error(name);
                                },
                                Option::None => {
                                    proof {
                                        assert(false);
                                    }
                                },
                            }
                        },
                    }
                },
            }
        }
        self.text_until_char(&mut table.title, '\n')?;
        self.idx = self.idx - 1;
        proof {
            let s = old(self).chars@;
            let o = old(self).idx as int;
            let w0 = wsv(s, o);
            let e = Block::lit_end(s, o, StopCond::AtChar('\n'));
            if !(w0 < s.len() && s[w0] == '[') && o < s.len() && (e >= s.len() || s[e] == '\n') {
                if e > o {
                    assert(table.title@ =~= seq![
                        crate::text::InlineV {
                            kind: crate::text::InlineTypeV::Lit(s.subrange(o, e)),
                            class: Seq::empty(),
                        },
                    ]);
                } else {
                    assert(table.title@ =~= Seq::<crate::text::InlineV>::empty());
                }
            }
        }
        let ghost tgv = table.title@;
        loop
            invariant_except_break
                self.wf(),
                self.chars == old(self).chars,
                self.start == old(self).start,
                old(self).start is Some,
                table.title@ == tgv,
            ensures
                self.wf(),
                self.chars == old(self).chars,
                self.start == old(self).start,
                table.title@ == tgv,
            decreases self.chars@.len() + 2 - self.idx,
        {
            match self.next() {
                Option::None => {
                    break ;
                },
                Option::Some(c) => {
                    if c == '|' {
                        let mut col = crate::blocks::table::Column::new();
                        let mut cparams = self.parameters()?;
                        while cparams.len() > 0
                            invariant
                                self.wf(),
                                self.chars == old(self).chars,
                                self.start == old(self).start,
                                old(self).start is Some,
                            decreases cparams.len(),
                        {
                            let p = cparams.remove(0);
                            match col.update_param(p)? {
                                Option::None => {},
                                Option::Some(p2) => {
                                    let blocks::Parameter(k, _) = p2;
                                    match k {
                                        Option::Some(name) => {
                                            return self.parameter_error(name);
                                        },
                                        Option::None => {
                                            proof {
                                                assert(false);
                                            }
                                        },
                                    }
                                },
                            }
                        }
                        table.columns.push(col);
                    } else if self.match_hard_line(c) {
                        break ;
                    } else if is_space_char(c) {
                    } else {
                        return Err(
                            ErrorKind::Expected('|', c).at_block(self.start.unwrap()),
                        );
                    }
                },
            }
        }
        while self.idx < self.chars.len()
            invariant
                self.wf(),
                self.chars == old(self).chars,
                self.start == old(self).start,
                old(self).start is Some,
                table.title@ == tgv,
            decreases self.chars@.len() + 2 - self.idx,
        {
            proof {
                lemma_wsv(self.chars@, self.idx as int);
            }
            self.skip_whitespace();
            self.idx = self.idx + 2;
            let ghost row_mark = self.idx;
            let mut row = crate::blocks::table::Row::new();
            let mut rparams = self.parameters()?;
            while rparams.len() > 0
                invariant
                    self.wf(),
                    self.chars == old(self).chars,
                    self.start == old(self).start,
                    old(self).start is Some,
                decreases rparams.len(),
            {
                let p = rparams.remove(0);
                match row.update_param(p)? {
                    Option::None => {},
                    Option::Some(p2) => {
                        let blocks::Parameter(k, _) = p2;
                        match k {
                            Option::Some(name) => {
                                return self.parameter_error(name);
                            },
                            Option::None => {
                                proof {
                                    assert(false);
                                }
                            },
                        }
                    },
                }
            }
            loop
                invariant_except_break
                    self.wf(),
                    self.chars == old(self).chars,
                    self.start == old(self).start,
                    old(self).start is Some,
                    self.idx >= row_mark,
                ensures
                    self.wf(),
                    self.chars == old(self).chars,
                    self.start == old(self).start,
                    self.idx >= row_mark,
                decreases self.chars@.len() + 2 - self.idx,
            {
                match self.next() {
                    Option::None => {
                        break ;
                    },
                    Option::Some(c) => {
                        if c == '|' {
                            let mut cell = crate::blocks::table::Cell::new();
                            let mut cparams = self.parameters()?;
                            while cparams.len() > 0
                                invariant
                                    self.wf(),
                                    self.chars == old(self).chars,
                                    self.start == old(self).start,
                                    old(self).start is Some,
                                decreases cparams.len(),
                            {
                                let p = cparams.remove(0);
                                match cell.update_param(p)? {
                                    Option::None => {},
                                    Option::Some(p2) => {
                                        let blocks::Parameter(k, _) = p2;
                                        match k {
                                            Option::Some(name) => {
                                                return self.parameter_error(name);
                                            },
                                            Option::None => {
                                                proof {
                                                    assert(false);
                                                }
                                            },
                                        }
                                    },
                                }
                            }
                            self.text_until(&mut cell.text, StopCond::CellEnd)?;
                            self.idx = self.idx - 1;
                            row.cells.push(cell);
                            match self.peek() {
                                Option::Some(c2) => {
                                    if c2 != '|' {
                                        break ;
                                    }
                                },
                                Option::None => {
                                    break ;
                                },
                            }
                        } else if c == '\n' && self.match_hard_line(c) {
                            break ;
                        } else if is_space_char(c) {
                        } else {
                            return Err(
                                ErrorKind::Expected('|', c).at_block(self.start.unwrap()),
                            );
                        }
                    },
                }
            }
            if row.cells.len() > 0 {
                table.rows.push(row);
            }
        }
        Ok(blocks::Block { kind: blocks::BlockKind::Table(table), common })
    }

    /// Parses a gloss block: a title, then lines that are either kept
    /// whole (preamble or postamble) or split into aligned words.
    fn parse_gloss(&mut self) -> (r: EResult<blocks::Block>)
        requires
            old(self).wf(),
            old(self).start is Some,
        ensures
            final(self).wf(),
            final(self).chars == old(self).chars,
            final(self).start == old(self).start,
            r matches Ok(b) ==> b.kind is Gloss && b.common.start_line == old(self).start->0,
            ({
                let s = old(self).chars@;
                let o = old(self).idx as int;
                let w0 = wsv(s, o);
                let e = Block::lit_end(s, o, StopCond::HardLine);
                (!(w0 < s.len() && s[w0] == '[') && o < s.len() && (e >= s.len() || (
                StopCond::HardLine).spec_stops(s, e + 1, s[e]))) ==> (r matches Ok(b) ==> (
                b.kind matches blocks::BlockKind::Gloss(g) && g.title@ == (if e > o {
                    seq![
                        crate::text::InlineV {
                            kind: crate::text::InlineTypeV::Lit(s.subrange(o, e)),
                            class: Seq::empty(),
                        },
                    ]
                } else {
                    Seq::<crate::text::InlineV>::empty()
                })))
            }),
    {
        let mut gloss = crate::blocks::gloss::Gloss::new();
        let mut common = blocks::BlockCommon::new(self.start.unwrap());
        let mut params = self.parameters()?;
        while params.len() > 0
            invariant
                self.wf(),
                self.chars == old(self).chars,
                self.start == old(self).start,
                old(self).start is Some,
                common.start_line == old(self).start->0,
                gloss.title@ == Seq::<crate::text::InlineV>::empty(),
            decreases params.len(),
        {
            let p = params.remove(0);
            match gloss.update_param(p)? {
                Option::None => {},
                Option::Some(p2) => {
                    match common.update_param(p2)? {
                        Option::None => {},
                        Option::Some(p3) => {
                            let blocks::Parameter(k, _) = p3;
                            match k {
                                Option::Some(name) => {
                                    return self.parameter_error(name);
                                },
                                Option::None => {
                                    proof {
                                        assert(false);
                                    }
                                },
                            }
                        },
                    }
                },
            }
        }
        self.text_until_hard_line(&mut gloss.title)?;
        proof {
            let s = old(self).chars@;
            let o = old(self).idx as int;
            let w0 = wsv(s, o);
            let e = Block::lit_end(s, o, StopCond::HardLine);
            if !(w0 < s.len() && s[w0] == '[') && o < s.len() && (e >= s.len() || (
            StopCond::HardLine).spec_stops(s, e + 1, s[e])) {
                if e > o {
                    assert(gloss.title@ =~= seq![
                        crate::text::InlineV {
                            kind: crate::text::InlineTypeV::Lit(s.subrange(o, e)),
                            class: Seq::empty(),
                        },
                    ]);
                } else {
                    assert(gloss.title@ =~= Seq::<crate::text::InlineV>::empty());
                }
            }
        }
        let ghost tgv = gloss.title@;
        while self.idx < self.chars.len()
            invariant
                self.wf(),
                self.chars == old(self).chars,
                self.start == old(self).start,
                old(self).start is Some,
                gloss.title@ == tgv,
            decreases self.chars@.len() + 2 - self.idx,
        {
            proof {
                lemma_wsv(self.chars@, self.idx as int);
            }
            self.skip_whitespace();
            self.idx = self.idx + 2;
            let ghost line_mark = self.idx;
            let mut class = String::new();
            let mut kind = crate::blocks::gloss::GlossLineType::Split;
            let mut lparams = self.parameters()?;
            while lparams.len() > 0
                invariant
                    self.wf(),
                    self.chars == old(self).chars,
                    self.start == old(self).start,
                    old(self).start is Some,
                decreases lparams.len(),
            {
                let p = lparams.remove(0);
                match kind.update_param(p)? {
                    Option::None => {},
                    Option::Some(p2) => {
                        match blocks::update_string_param(&mut class, p2)? {
                            Option::None => {},
                            Option::Some(p3) => {
                                let blocks::Parameter(k, _) = p3;
                                match k {
                                    Option::Some(name) => {
                                        return self.parameter_error(name);
                                    },
                                    Option::None => {
                                        proof {
                                            assert(false);
                                        }
                                    },
                                }
                            },
                        }
                    },
                }
            }
            match kind {
                crate::blocks::gloss::GlossLineType::NoSplit => {
                    let mut line = crate::text::Text::new();
                    self.text_until_hard_line(&mut line)?;
                    if !crate::strutil::str_empty(&class) {
                        line = line.with_class(class);
                    }
                    gloss.push_nosplit_line(line);
                },
                crate::blocks::gloss::GlossLineType::Split => {
                    if gloss.postamble.len() > 0 {
                        return Err(ErrorKind::GlossLine.at_block(self.start.unwrap()));
                    }
                    let mut line = crate::blocks::gloss::GlossLine::new();
                    line.class = class;
                    loop
                        invariant_except_break
                            self.wf(),
                            self.chars == old(self).chars,
                            self.start == old(self).start,
                            old(self).start is Some,
                            self.idx >= line_mark,
                        ensures
                            self.wf(),
                            self.chars == old(self).chars,
                            self.start == old(self).start,
                            self.idx >= line_mark,
                        decreases self.chars@.len() + 2 - self.idx,
                    {
                        match self.next() {
                            Option::None => {
                                break ;
                            },
                            Option::Some(c) => {
                                if c == '\n' && self.match_hard_line(c) {
                                    break ;
                                } else if is_space_char(c) {
                                } else {
                                    let mut word = crate::text::Text::new();
                                    self.idx = self.idx - 1;
                                    self.text_until(&mut word, StopCond::AtSpace)?;
                                    self.idx = self.idx - 1;
                                    line.push(word);
                                }
                            },
                        }
                    }
                    match gloss.push_gloss_line(line) {
                        Ok(()) => {},
                        Err(e) => {
                            return Err(e.context(ErrorKind::Block(self.start.unwrap())));
                        },
                    }
                },
            }
        }
        Ok(blocks::Block { kind: blocks::BlockKind::Gloss(gloss), common })
    }

    /// Parses a replacement-definitions block: `:key:` lines each define
    /// the key as the rest of the line; a repeated key is a fault.
    fn parse_replace_block(&mut self) -> (r: EResult<blocks::Block>)
        requires
            old(self).wf(),
            old(self).start is Some,
        ensures
            final(self).wf(),
            final(self).chars == old(self).chars,
            final(self).start == old(self).start,
            r matches Ok(b) ==> b.kind is Replacements && b.common.start_line == old(
                self,
            ).start->0,
            r matches Ok(b) ==> (b.kind matches blocks::BlockKind::Replacements(rp) && rp.wf()),
    {
        let mut replacements = crate::blocks::replacements::Replacements::new();
        let mut common = blocks::BlockCommon::new(self.start.unwrap());
        let mut params = self.parameters()?;
        while params.len() > 0
            invariant
                self.wf(),
                self.chars == old(self).chars,
                self.start == old(self).start,
                old(self).start is Some,
                common.start_line == old(self).start->0,
            decreases params.len(),
        {
            let p = params.remove(0);
            match common.update_param(p)? {
                Option::None => {},
                Option::Some(p2) => {
                    let blocks::Parameter(k, _) = p2;
                    match k {
                        Option::Some(name) => {
                            return self.parameter_error(name);
                        },
                        Option::None => {
                            proof {
                                assert(false);
                            }
                        },
                    }
                },
            }
        }
        self.skip_whitespace();
        loop
            invariant_except_break
                self.wf(),
                self.chars == old(self).chars,
                self.start == old(self).start,
                old(self).start is Some,
                replacements.wf(),
            ensures
                self.wf(),
                self.chars == old(self).chars,
                self.start == old(self).start,
                replacements.wf(),
            decreases self.chars@.len() + 2 - self.idx,
        {
            match self.next() {
                Option::Some(c) => {
                    if c == ':' {
                        let d = self.directive()?;
                        let mut text = crate::text::Text::new();
                        self.text_until_char(&mut text, '\n')?;
                        match replacements.insert(d, text) {
                            Ok(()) => {},
                            Err(e) => {
                                return Err(e.context(ErrorKind::Block(self.start.unwrap())));
                            },
                        }
                    } else {
                        break ;
                    }
                },
                Option::None => {
                    break ;
                },
            }
        }
        Ok(blocks::Block { kind: blocks::BlockKind::Replacements(replacements), common })
    }
}

} // verus!

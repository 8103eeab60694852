use vstd::prelude::*;
use crate::strutil::{dec_seq, fmt_usize};

verus! {

/// What was being looked for when a block ended early.
#[derive(Clone, Copy, Debug, PartialEq, Eq)]
pub enum EndOfBlockKind {
    /// A character after a backslash.
    Escape,
    /// A specific character.
    Expect(char),
}

/// The kinds of fault a compile can report.
#[derive(Clone, Debug, PartialEq, Eq)]
pub enum ErrorKind {
    /// A block starting on the given line could not be parsed.
    Block(usize),
    /// The block ended while something else was expected.
    EndOfBlock(EndOfBlockKind),
    /// One character was expected, another was found.
    Expected(char, char),
    /// A gloss body line appeared after the postamble had begun.
    GlossLine,
    /// A number could not be parsed.
    Parse,
    /// A parameter key no object in the chain recognises.
    Parameter(String),
    /// A block id that is already taken.
    Id(String),
    /// A replacement key that is already taken.
    Replace(String),
    /// A line that is not valid UTF-8.
    Unicode(usize),
    /// Reading a line failed.
    ReadIo(usize),
    /// An imported file could not be opened.
    FileNotFound(String),
    /// Writing a block failed.
    WriteIo(usize),
    /// Writing the head matter failed.
    WriteIoHead,
    /// Writing the tail matter failed.
    WriteIoTail,
}

/// A fault, with the chain of contexts it was wrapped in: the outermost
/// context first, the originating kind last.
#[derive(Clone, Debug, PartialEq, Eq)]
pub struct Error {
    pub kinds: Vec<ErrorKind>,
}

/// The message of an end-of-block kind.
pub open spec fn eob_message(k: EndOfBlockKind) -> Seq<char> {
    match k {
        EndOfBlockKind::Escape => "expected a character after `\\`"@,
        EndOfBlockKind::Expect(c) => "expected `"@ + seq![c] + "`"@,
    }
}

/// The message of an error kind.
pub open spec fn kind_message(k: ErrorKind) -> Seq<char> {
    match k {
        ErrorKind::Block(n) => "Failed to parse block starting on line "@ + dec_seq(n as nat),
        ErrorKind::EndOfBlock(e) => "Unexpected end of block, "@ + eob_message(e),
        ErrorKind::Expected(a, b) => "Expected `"@ + seq![a] + "`, got `"@ + seq![b] + "`"@,
        ErrorKind::GlossLine => "Gloss line after postamble"@,
        ErrorKind::Parse => "Parsing error"@,
        ErrorKind::Parameter(s) => "Unknown parameter "@ + s@,
        ErrorKind::Id(s) => "Duplicate ID "@ + s@,
        ErrorKind::Replace(s) => "Duplicate replace directive "@ + s@,
        ErrorKind::Unicode(n) => "Invalid UTF-8 in line "@ + dec_seq(n as nat),
        ErrorKind::ReadIo(n) => "An IO error occurred while reading line "@ + dec_seq(n as nat),
        ErrorKind::FileNotFound(s) => "File "@ + s@ + " not found"@,
        ErrorKind::WriteIo(n) => "An IO error occurred while writing block starting on line "@
            + dec_seq(n as nat),
        ErrorKind::WriteIoHead => "An IO error occurred while writing head matter"@,
        ErrorKind::WriteIoTail => "An IO error occurred while writing tail matter"@,
    }
}

impl ErrorKind {
    /// The message of this error kind.
    pub fn message(&self) -> (r: String)
        ensures
            r@ == kind_message(*self),
    {
        let mut out = String::new();
        match self {
            ErrorKind::Block(n) => {
                out.push_str("Failed to parse block starting on line ");
                let d = fmt_usize(*n);
                out.push_str(d.as_str());
            },
            ErrorKind::EndOfBlock(e) => {
                out.push_str("Unexpected end of block, ");
                match e {
                    EndOfBlockKind::Escape => {
                        out.push_str("expected a character after `\\`");
                    },
                    EndOfBlockKind::Expect(c) => {
                        out.push_str("expected `");
                        out.push(*c);
                        out.push_str("`");
                    },
                }
            },
            ErrorKind::Expected(a, b) => {
                out.push_str("Expected `");
                out.push(*a);
                out.push_str("`, got `");
                out.push(*b);
                out.push_str("`");
            },
            ErrorKind::GlossLine => {
                out.push_str("Gloss line after postamble");
            },
            ErrorKind::Parse => {
                out.push_str("Parsing error");
            },
            ErrorKind::Parameter(s) => {
                out.push_str("Unknown parameter ");
                out.push_str(s.as_str());
            },
            ErrorKind::Id(s) => {
                out.push_str("Duplicate ID ");
                out.push_str(s.as_str());
            },
            ErrorKind::Replace(s) => {
                out.push_str("Duplicate replace directive ");
                out.push_str(s.as_str());
            },
            ErrorKind::Unicode(n) => {
                out.push_str("Invalid UTF-8 in line ");
                let d = fmt_usize(*n);
                out.push_str(d.as_str());
            },
            ErrorKind::ReadIo(n) => {
                out.push_str("An IO error occurred while reading line ");
                let d = fmt_usize(*n);
                out.push_str(d.as_str());
            },
            ErrorKind::FileNotFound(s) => {
                out.push_str("File ");
                out.push_str(s.as_str());
                out.push_str(" not found");
            },
            ErrorKind::WriteIo(n) => {
                out.push_str("An IO error occurred while writing block starting on line ");
                let d = fmt_usize(*n);
                out.push_str(d.as_str());
            },
            ErrorKind::WriteIoHead => {
                out.push_str("An IO error occurred while writing head matter");
            },
            ErrorKind::WriteIoTail => {
                out.push_str("An IO error occurred while writing tail matter");
            },
        }
        proof {
            assert(out@ =~= kind_message(*self));
        }
        out
    }

    /// Wraps the kind as an error with no outer context.
    pub fn into_error(self) -> (r: Error)
        ensures
            r.kinds@ == seq![self],
    {
        let mut kinds: Vec<ErrorKind> = Vec::new();
        kinds.push(self);
        proof {
            assert(kinds@ =~= seq![self]);
        }
        Error { kinds }
    }

    /// Wraps the kind in the context of the block starting on `line`.
    pub fn at_block(self, line: usize) -> (r: Error)
        ensures
            r.kinds@ == seq![ErrorKind::Block(line), self],
    {
        let mut kinds: Vec<ErrorKind> = Vec::new();
        kinds.push(ErrorKind::Block(line));
        kinds.push(self);
        proof {
            assert(kinds@ =~= seq![ErrorKind::Block(line), self]);
        }
        Error { kinds }
    }

    /// The error raised when reading a line fails: an encoding fault where
    /// the line is not valid UTF-8, otherwise a read fault.
    pub fn input_error(invalid_data: bool, line: usize) -> (r: Error)
        ensures
            r.kinds@ == seq![
                if invalid_data {
                    ErrorKind::Unicode(line)
                } else {
                    ErrorKind::ReadIo(line)
                },
            ],
    {
        if invalid_data {
            ErrorKind::Unicode(line).into_error()
        } else {
            ErrorKind::ReadIo(line).into_error()
        }
    }
}

impl Error {
    /// Wraps the error in one more, outer, context.
    pub fn context(self, outer: ErrorKind) -> (r: Error)
        ensures
            r.kinds@ == seq![outer] + self.kinds@,
    {
        let mut kinds: Vec<ErrorKind> = Vec::new();
        kinds.push(outer);
        let Error { kinds: mut inner } = self;
        let ghost all = inner@;
        while inner.len() > 0
            invariant
                kinds@ + inner@ == seq![outer] + all,
            decreases inner.len(),
        {
            let ghost pre_kinds = kinds@;
            let ghost pre_inner = inner@;
            let k = inner.remove(0);
            kinds.push(k);
            proof {
                assert(kinds@ + inner@ =~= pre_kinds + pre_inner);
            }
        }
        proof {
            assert(kinds@ =~= seq![outer] + all);
        }
        Error { kinds }
    }

    /// The messages of the chain, outermost context first.
    pub fn messages(&self) -> (r: Vec<String>)
        ensures
            r@.len() == self.kinds@.len(),
            forall|i: int|
                0 <= i < r@.len() ==> #[trigger] r@[i]@ == kind_message(self.kinds@[i]),
    {
        let mut r: Vec<String> = Vec::new();
        let mut i: usize = 0;
        while i < self.kinds.len()
            invariant
                i <= self.kinds.len(),
                r@.len() == i,
                forall|j: int|
                    0 <= j < i ==> #[trigger] r@[j]@ == kind_message(self.kinds@[j]),
            decreases self.kinds.len() - i,
        {
            r.push(self.kinds[i].message());
            i = i + 1;
        }
        r
    }
}

/// The result of an operation that can abort the compile.
pub type EResult<T> = Result<T, Error>;

} // verus!

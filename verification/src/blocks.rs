use vstd::prelude::*;
use crate::errors::Error;
use crate::strutil::str_is;
use crate::text::Text;

pub mod contents;
pub mod control;
pub mod gloss;
pub mod heading;
pub mod list;
pub mod replacements;
pub mod table;

use contents::Contents;
use control::DocumentControl;
use gloss::Gloss;
use heading::{FillerHeading, Heading};
use list::List;
use replacements::Replacements;
use table::Table;

verus! {

/// One parameter from a `[...]` group: an optional key and a value.
#[derive(Debug, PartialEq, Eq)]
pub struct Parameter(pub Option<String>, pub String);

/// Whether the parameter is keyless or its key is `lit`.
pub open spec fn param_is(p: Parameter, lit: Seq<char>) -> bool {
    p.0 is None || p.0->0@ == lit
}

/// Whether the parameter has exactly the key `lit`.
pub open spec fn param_key_is(p: Parameter, lit: Seq<char>) -> bool {
    p.0 is Some && p.0->0@ == lit
}

/// Consumes `class` (keyed or bare) parameters into a bare class string;
/// hands every other parameter back.
pub fn update_string_param(target: &mut String, param: Parameter) -> (r: Result<
    Option<Parameter>,
    Error,
>)
    ensures
        r is Ok,
        ({
            let back = r->Ok_0;
            if param_is(param, "class"@) {
                back is None && final(target)@ == param.1@
            } else {
                back == Some(param) && final(target)@ == old(target)@
            }
        }),
{
    let is_class = match &param.0 {
        Option::None => true,
        Option::Some(name) => str_is(name, "class"),
    };
    if is_class {
        *target = param.1;
        Ok(None)
    } else {
        Ok(Some(param))
    }
}

/// One parsed block: its kind and the attributes every block carries.
#[derive(Debug)]
pub struct Block {
    pub kind: BlockKind,
    pub common: BlockCommon,
}

/// The closed set of block kinds.
#[derive(Debug)]
pub enum BlockKind {
    Heading(Heading),
    Filler(FillerHeading),
    Contents(Contents),
    List(List),
    Table(Table),
    Gloss(Gloss),
    Replacements(Replacements),
    Control(DocumentControl),
    Paragraph(Text),
}

/// The attributes every block carries.
#[derive(Debug, PartialEq, Eq)]
pub struct BlockCommon {
    pub class: String,
    pub id: String,
    pub start_line: usize,
}

impl BlockCommon {
    /// Fresh common attributes for a block starting on `start_line`.
    pub fn new(start_line: usize) -> (r: BlockCommon)
        ensures
            r.class@ == Seq::<char>::empty(),
            r.id@ == Seq::<char>::empty(),
            r.start_line == start_line,
    {
        BlockCommon { class: String::new(), id: String::new(), start_line }
    }

    /// Consumes `class` (keyed or bare) and `id` parameters; hands every
    /// other parameter back. A bare word is always taken as the class, the
    /// fallback of last resort for the whole parameter chain.
    pub fn update_param(&mut self, param: Parameter) -> (r: Result<Option<Parameter>, Error>)
        ensures
            r is Ok,
            ({
                let back = r->Ok_0;
                if param_is(param, "class"@) {
                    back is None && final(self).class@ == param.1@ && final(self).id == old(self).id && final(self).start_line == old(self).start_line
                } else if param_key_is(param, "id"@) {
                    back is None && final(self).id@ == param.1@ && final(self).class == old(self).class && final(self).start_line == old(self).start_line
                } else {
                    back == Some(param) && *final(self) == *old(self)
                }
            }),
    {
        let is_class = match &param.0 {
            Option::None => true,
            Option::Some(name) => str_is(name, "class"),
        };
        if is_class {
            self.class = param.1;
            return Ok(None);
        }
        let is_id = match &param.0 {
            Option::None => false,
            Option::Some(name) => str_is(name, "id"),
        };
        if is_id {
            self.id = param.1;
            Ok(None)
        } else {
            Ok(Some(param))
        }
    }
}

impl Block {
    /// Whether the block is heading-like: a real heading or a filler.
    pub open spec fn is_heading_like(&self) -> bool {
        self.kind is Heading || self.kind is Filler
    }
}

impl BlockKind {
    /// The level of a heading-like kind.
    pub open spec fn hl_level(&self) -> int {
        match self {
            BlockKind::Heading(h) => h.level as int,
            BlockKind::Filler(f) => f.children.level - 1,
            _ => 0,
        }
    }

    /// The child list of a heading-like kind.
    pub open spec fn hl_children(&self) -> heading::SectionList {
        match self {
            BlockKind::Heading(h) => h.children,
            BlockKind::Filler(f) => f.children,
            _ => arbitrary(),
        }
    }

    /// Whether a heading-like kind takes part in numbering: a real heading
    /// does when it is numbered and visible in the table of contents, a
    /// filler never does.
    pub open spec fn hl_numbered(&self) -> bool {
        match self {
            BlockKind::Heading(h) => h.numbered && h.toc,
            _ => false,
        }
    }
}

} // verus!

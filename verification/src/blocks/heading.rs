use vstd::prelude::*;
use crate::blocks::{BlockCommon, Parameter};
use crate::document::Document;
use crate::errors::Error;
use crate::html::encode_seq;
use crate::strutil::{dec_seq, fmt_usize, str_is};
use crate::text::{doc_fuel, render_inlines, view_inlines, Text};

verus! {

/// The nested numbered-section spans a dotted number renders as.
pub open spec fn sec_num_seq(nums: Seq<usize>) -> Seq<char>
    decreases nums.len(),
{
    if nums.len() == 0 {
        Seq::empty()
    } else {
        "<span class=\"secnum\">"@ + sec_num_seq(nums.drop_last()) + dec_seq(
            nums.last() as nat,
        ) + ".</span>"@
    }
}

/// Writes a section number as nested `secnum` spans, each component
/// followed by a dot.
pub fn write_section_number(w: &mut String, number: &Vec<usize>)
    ensures
        final(w)@ == old(w)@ + sec_num_seq(number@),
{
    let n = number.len();
    proof {
        assert(number@.take(n as int) =~= number@);
    }
    write_section_number_upto(w, number, n);
}

fn write_section_number_upto(w: &mut String, number: &Vec<usize>, upto: usize)
    requires
        upto <= number@.len(),
    ensures
        final(w)@ == old(w)@ + sec_num_seq(number@.take(upto as int)),
    decreases upto,
{
    if upto == 0 {
        proof {
            assert(sec_num_seq(number@.take(0)) =~= Seq::<char>::empty());
            assert(w@ =~= old(w)@ + sec_num_seq(number@.take(0)));
        }
    } else {
        w.push_str("<span class=\"secnum\">");
        write_section_number_upto(w, number, upto - 1);
        let d = fmt_usize(number[upto - 1]);
        w.push_str(d.as_str());
        w.push_str(".</span>");
        proof {
            assert(number@.take(upto as int).drop_last() =~= number@.take(upto - 1));
            assert(number@.take(upto as int).last() == number@[upto - 1]);
            assert(w@ =~= old(w)@ + sec_num_seq(number@.take(upto as int)));
        }
    }
}

/// The tag a heading renders with: `h1` to `h6` by level, `p` beyond.
pub open spec fn heading_tag(level: int) -> Seq<char> {
    if level == 1 {
        "h1"@
    } else if level == 2 {
        "h2"@
    } else if level == 3 {
        "h3"@
    } else if level == 4 {
        "h4"@
    } else if level == 5 {
        "h5"@
    } else if level == 6 {
        "h6"@
    } else {
        "p"@
    }
}

/// The opening tag of a heading: its tag with id and classes, with a
/// level class beyond level 6.
pub open spec fn heading_open(h: Heading, common: BlockCommon) -> Seq<char> {
    let tag = heading_tag(h.level as int);
    "<"@ + tag + " "@ + "id=\""@ + encode_seq(common.id@) + "\" "@ + "class=\""@ + encode_seq(
        common.class@,
    ) + " "@ + (if h.level > 6 {
        " h"@ + dec_seq(h.level as nat) + "\">"@
    } else {
        "\">"@
    })
}

/// The full rendering of a heading block: its opening tag, its section
/// number when numbered, its title, and the closing tag.
pub open spec fn render_heading(h: Heading, common: BlockCommon, doc: Document) -> Seq<char> {
    heading_open(h, common) + (if h.numbered {
        sec_num_seq(h.number@)
    } else {
        Seq::empty()
    }) + render_inlines(view_inlines(h.title.0@), doc, doc_fuel(doc), false) + "</"@ + heading_tag(
        h.level as int,
    ) + ">\n\n"@
}

/// A section heading.
#[derive(Debug)]
pub struct Heading {
    pub title: Text,
    pub numbered: bool,
    pub toc: bool,
    pub level: usize,
    pub children: SectionList,
    pub number: Vec<usize>,
}

impl Heading {
    /// A fresh numbered heading of the given level, with an empty child
    /// list one level deeper.
    pub fn new(level: usize) -> (r: Heading)
        requires
            level < usize::MAX,
        ensures
            r.title@ == Seq::<crate::text::InlineV>::empty(),
            r.numbered,
            r.toc,
            r.level == level,
            r.children.headings@ == Seq::<usize>::empty(),
            r.children.last_child_number == 0,
            r.children.level == level + 1,
            r.number@ == Seq::<usize>::empty(),
    {
        Heading {
            title: Text::new(),
            numbered: true,
            toc: true,
            level,
            children: SectionList::new(level + 1),
            number: Vec::new(),
        }
    }

    /// Whether the heading takes part in numbering: it must both be
    /// numbered and appear in the table of contents.
    pub fn numbered(&self) -> (b: bool)
        ensures
            b == (self.numbered && self.toc),
    {
        self.numbered && self.toc
    }

    /// Consumes the bare words a heading recognises: `nonumber` and
    /// `notoc`. Hands every other parameter back.
    pub fn update_param(&mut self, param: Parameter) -> (r: Result<Option<Parameter>, Error>)
        ensures
            r is Ok,
            ({
                let back = r->Ok_0;
                if param.0 is None && param.1@ == "nonumber"@ {
                    back is None && *final(self) == Heading { numbered: false, ..*old(self) }
                } else if param.0 is None && param.1@ == "notoc"@ {
                    back is None && *final(self) == Heading { toc: false, ..*old(self) }
                } else {
                    back == Some(param) && *final(self) == *old(self)
                }
            }),
    {
        match &param.0 {
            Option::Some(_) => Ok(Some(param)),
            Option::None => {
                if str_is(&param.1, "nonumber") {
                    self.numbered = false;
                    Ok(None)
                } else if str_is(&param.1, "notoc") {
                    self.toc = false;
                    Ok(None)
                } else {
                    Ok(Some(param))
                }
            },
        }
    }
}

/// A synthetic heading that bridges a skipped level. It owns the child
/// list for the level below it and is never numbered nor shown.
#[derive(Debug)]
pub struct FillerHeading {
    pub children: SectionList,
}

impl FillerHeading {
    /// A filler heading owning the child list for the given level: the
    /// filler itself stands one level above the children it holds.
    pub fn new(level: usize) -> (r: FillerHeading)
        ensures
            r.children.headings@ == Seq::<usize>::empty(),
            r.children.last_child_number == 0,
            r.children.level == level,
    {
        FillerHeading { children: SectionList::new(level) }
    }
}

/// The ordered children of one section (or of the document root): the
/// block indices of the headings directly below it, the count of numbered
/// children seen so far, and the level this list accepts.
#[derive(Debug, PartialEq, Eq)]
pub struct SectionList {
    pub headings: Vec<usize>,
    pub last_child_number: usize,
    pub level: usize,
}

impl SectionList {
    /// An empty list accepting headings of the given level.
    pub fn new(level: usize) -> (r: SectionList)
        ensures
            r.headings@ == Seq::<usize>::empty(),
            r.last_child_number == 0,
            r.level == level,
    {
        SectionList { headings: Vec::new(), last_child_number: 0, level }
    }

    /// Records one child heading; a numbered child advances the counter.
    pub fn push(&mut self, index: usize, numbered: bool)
        requires
            numbered ==> old(self).last_child_number < usize::MAX,
        ensures
            final(self).headings@ == old(self).headings@.push(index),
            final(self).last_child_number == old(self).last_child_number + (if numbered {
                1int
            } else {
                0int
            }),
            final(self).level == old(self).level,
    {
        self.headings.push(index);
        if numbered {
            self.last_child_number = self.last_child_number + 1;
        }
    }
}

impl Heading {
    /// The tag the heading renders with.
    pub fn tag(&self) -> (r: &'static str)
        ensures
            r@ == heading_tag(self.level as int),
    {
        if self.level == 1 {
            "h1"
        } else if self.level == 2 {
            "h2"
        } else if self.level == 3 {
            "h3"
        } else if self.level == 4 {
            "h4"
        } else if self.level == 5 {
            "h5"
        } else if self.level == 6 {
            "h6"
        } else {
            "p"
        }
    }

    /// Renders the heading block.
    pub fn write(&self, w: &mut String, common: &BlockCommon, document: &Document)
        ensures
            final(w)@ == old(w)@ + render_heading(*self, *common, *document),
    {
        self.write_open(w, common);
        if self.numbered {
            write_section_number(w, &self.number);
        }
        let fuel = crate::text::document_fuel(document);
        self.title.write_fueled(w, document, fuel, false);
        let tag = self.tag();
        w.push_str("</");
        w.push_str(tag);
        w.push_str(">\n\n");
        proof {
            assert(final(w)@ =~= old(w)@ + render_heading(*self, *common, *document));
        }
    }

    /// Renders the opening tag of the heading.
    fn write_open(&self, w: &mut String, common: &BlockCommon)
        ensures
            final(w)@ == old(w)@ + heading_open(*self, *common),
    {
        let tag = self.tag();
        w.push_str("<");
        w.push_str(tag);
        w.push_str(" ");
        w.push_str("id=\"");
        crate::html::encode_into(w, common.id.as_str());
        w.push_str("\" ");
        w.push_str("class=\"");
        crate::html::encode_into(w, common.class.as_str());
        w.push_str(" ");
        if self.level > 6 {
            w.push_str(" h");
            let d = fmt_usize(self.level);
            w.push_str(d.as_str());
            w.push_str("\">");
        } else {
            w.push_str("\">");
        }
        proof {
            assert(final(w)@ =~= old(w)@ + heading_open(*self, *common));
        }
    }
}

} // verus!

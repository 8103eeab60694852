use vstd::prelude::*;
use crate::blocks::{param_key_is, BlockKind, Parameter};
use crate::document::Document;
use crate::errors::{Error, ErrorKind};
use crate::html::encode_into;
use crate::strutil::{digits_val, fmt_usize, parse_usize, parses_as_usize, str_is, strip_plus};
use crate::text::{InlineTypeV, InlineV, Text};

verus! {

/// A generated table of contents.
#[derive(Debug)]
pub struct Contents {
    pub title: Text,
    pub max_level: usize,
}

impl Contents {
    /// A fresh table of contents: the default title, listing headings down
    /// to level 6.
    pub fn new() -> (r: Contents)
        ensures
            r.title@ == seq![
                InlineV { kind: InlineTypeV::Lit("Table of Contents"@), class: Seq::empty() },
            ],
            r.max_level == 6,
    {
        let mut title = Text::new();
        title.push_string("Table of Contents".to_owned());
        proof {
            assert(title@ =~= seq![
                InlineV { kind: InlineTypeV::Lit("Table of Contents"@), class: Seq::empty() },
            ]);
        }
        Contents { title, max_level: 6 }
    }

    /// Consumes a `maxlevel` parameter, a parse fault if its value is not
    /// a number. Hands every other parameter back.
    pub fn update_param(&mut self, param: Parameter) -> (r: Result<Option<Parameter>, Error>)
        ensures
            ({
                if param_key_is(param, "maxlevel"@) {
                    if parses_as_usize(param.1@) {
                        r is Ok && r->Ok_0 is None && final(self).max_level == digits_val(
                            strip_plus(param.1@),
                        ) && final(self).title == old(self).title
                    } else {
                        r is Err && r->Err_0.kinds@ == seq![ErrorKind::Parse]
                    }
                } else {
                    r is Ok && r->Ok_0 == Some(param) && *final(self) == *old(self)
                }
            }),
    {
        let is_maxlevel = match &param.0 {
            Option::None => false,
            Option::Some(name) => str_is(name, "maxlevel"),
        };
        if is_maxlevel {
            match parse_usize(&param.1) {
                Option::Some(n) => {
                    self.max_level = n;
                    Ok(None)
                },
                Option::None => Err(ErrorKind::Parse.into_error()),
            }
        } else {
            Ok(Some(param))
        }
    }
}

/// Whether the first entry of a list forces explicit numbering: its
/// heading carries a number that does not start the count at one.
pub open spec fn init_manual(list: crate::blocks::heading::SectionList, doc: Document) -> bool {
    doc.blocks@[list.headings@[0] as int].kind matches BlockKind::Heading(h) && h.number@.len() > 0
        && h.number@.last() != 1
}

/// Whether the entry at `k` interrupts the numbering for the sibling
/// after it: an unnumbered heading or a filler does.
pub open spec fn next_manual(
    list: crate::blocks::heading::SectionList,
    k: int,
    doc: Document,
) -> bool {
    match doc.blocks@[list.headings@[k] as int].kind {
        BlockKind::Heading(h) => !(h.numbered && h.toc),
        _ => true,
    }
}

/// The rendering of one contents entry: its list item (with an anchor
/// for a visible heading, an explicit value where numbering was
/// interrupted), then its children one level deeper.
pub open spec fn render_entry(
    cts: Contents,
    level: int,
    list: crate::blocks::heading::SectionList,
    k: int,
    manual: bool,
    doc: Document,
) -> Seq<char>
    decreases cts.max_level as int + 1 - level, list.headings@.len() - k, 0int,
{
    if k < 0 || k >= list.headings@.len() || level > cts.max_level as int {
        Seq::empty()
    } else {
        let e = list.headings@[k] as int;
        match doc.blocks@[e].kind {
            BlockKind::Heading(h) => {
                let numbered = h.numbered && h.toc;
                let open = if !numbered {
                    "<li class=\"nonumber\">"@
                } else if manual {
                    "<li value=\""@ + (if h.number@.len() > 0 {
                        crate::strutil::dec_seq(h.number@.last() as nat)
                    } else {
                        Seq::empty()
                    }) + "\">"@
                } else {
                    "<li>"@
                };
                let anchor = if h.toc {
                    "<a href=\"#"@ + crate::html::encode_seq(doc.blocks@[e].common.id@) + "\">"@
                        + crate::text::render_inlines(
                        h.title@,
                        doc,
                        crate::text::doc_fuel(doc),
                        false,
                    ) + "</a>"@
                } else {
                    Seq::empty()
                };
                open + anchor + render_sublist(cts, level + 1, h.children, doc) + "</li>\n"@
            },
            BlockKind::Filler(f) => {
                "<li class=\"nonumber\">"@ + render_sublist(cts, level + 1, f.children, doc)
                    + "</li>\n"@
            },
            _ => Seq::empty(),
        }
    }
}

/// The rendering of the contents entries from `k` on, each threading to
/// the next whether numbering was interrupted.
pub open spec fn render_entries(
    cts: Contents,
    level: int,
    list: crate::blocks::heading::SectionList,
    k: int,
    manual: bool,
    doc: Document,
) -> Seq<char>
    decreases cts.max_level as int + 1 - level, list.headings@.len() - k, 1int,
{
    if k < 0 || k >= list.headings@.len() || level > cts.max_level as int {
        Seq::empty()
    } else {
        render_entry(cts, level, list, k, manual, doc) + render_entries(
            cts,
            level,
            list,
            k + 1,
            next_manual(list, k, doc),
            doc,
        )
    }
}

/// The rendering of one level of the contents tree: nothing for an empty
/// list or below the depth limit, else an ordered list of its entries.
pub open spec fn render_sublist(
    cts: Contents,
    level: int,
    list: crate::blocks::heading::SectionList,
    doc: Document,
) -> Seq<char>
    decreases cts.max_level as int + 1 - level, list.headings@.len() + 1, 0int,
{
    if list.headings@.len() == 0 || level > cts.max_level as int {
        Seq::empty()
    } else {
        "<ol>\n"@ + render_entries(cts, level, list, 0, init_manual(list, doc), doc)
            + "</ol>\n\n"@
    }
}

/// The full rendering of a contents block: its identifying attributes,
/// its title, and the nested lists from the root of the section tree.
pub open spec fn render_contents(
    cts: Contents,
    common: crate::blocks::BlockCommon,
    doc: Document,
) -> Seq<char> {
    "<div "@ + "id=\""@ + crate::html::encode_seq(common.id@) + "\" "@ + "class=\""@
        + crate::html::encode_seq(common.class@) + " toc\">"@ + "<p class=\"toc-heading\">"@
        + crate::text::render_inlines(cts.title@, doc, crate::text::doc_fuel(doc), false)
        + "</p>\n"@ + render_sublist(cts, 1, doc.sections, doc) + "</div>\n\n"@
}

impl Contents {
    /// Renders the table of contents: its title, then nested ordered
    /// lists of the headings down to `max_level`, with explicit numbering
    /// where unnumbered headings interrupt the sequence.
    pub fn write(&self, w: &mut String, common: &crate::blocks::BlockCommon, document: &Document)
        requires
            document.wf(),
        ensures
            final(w)@ == old(w)@ + render_contents(*self, *common, *document),
    {
        let ghost base = w@;
        let fuel = crate::text::document_fuel(document);
        w.push_str("<div ");
        w.push_str("id=\"");
        encode_into(w, common.id.as_str());
        w.push_str("\" ");
        w.push_str("class=\"");
        encode_into(w, common.class.as_str());
        w.push_str(" toc\">");
        w.push_str("<p class=\"toc-heading\">");
        self.title.write_fueled(w, document, fuel, false);
        w.push_str("</p>\n");
        let root = document.get_section_list(None);
        self.write_sublist(w, 1, root, document);
        w.push_str("</div>\n\n");
        proof {
            assert(w@ =~= base + render_contents(*self, *common, *document));
        }
    }

    /// Renders one level of the contents tree.
    #[verifier::rlimit(100)]
    pub fn write_sublist(
        &self,
        w: &mut String,
        level: usize,
        list: &crate::blocks::heading::SectionList,
        document: &Document,
    )
        requires
            document.wf(),
            document.list_ok(*list),
        ensures
            final(w)@ == old(w)@ + render_sublist(*self, level as int, *list, *document),
        decreases self.max_level + 1 - level, 1int,
    {
        let ghost base = w@;
        if list.headings.len() == 0 || level > self.max_level {
            proof {
                assert(w@ =~= base + render_sublist(*self, level as int, *list, *document));
            }
            return ;
        }
        let fuel = crate::text::document_fuel(document);
        w.push_str("<ol>\n");
        let ghost wol = w@;
        let mut manual_number = false;
        let first = list.headings[0];
        proof {
            assert(document.hl_at(first as int));
        }
        match &document.blocks[first].kind {
            BlockKind::Heading(h) => {
                if h.number.len() > 0 {
                    manual_number = h.number[h.number.len() - 1] != 1;
                }
            },
            _ => {},
        }
        proof {
            assert(manual_number == init_manual(*list, *document));
        }
        let ghost all_entries = render_entries(
            *self,
            level as int,
            *list,
            0,
            manual_number,
            *document,
        );
        let ghost mut eout: Seq<char> = Seq::empty();
        proof {
            assert(eout + all_entries =~= all_entries);
        }
        let mut k: usize = 0;
        while k < list.headings.len()
            invariant
                k <= list.headings@.len(),
                document.wf(),
                document.list_ok(*list),
                level <= self.max_level,
                fuel as nat == crate::text::doc_fuel(*document),
                w@ == wol + eout,
                eout + render_entries(
                    *self,
                    level as int,
                    *list,
                    k as int,
                    manual_number,
                    *document,
                ) == all_entries,
                all_entries == render_entries(
                    *self,
                    level as int,
                    *list,
                    0,
                    init_manual(*list, *document),
                    *document,
                ),
            decreases list.headings@.len() - k,
        {
            let ghost manual0 = manual_number;
            manual_number = self.write_entry(w, level, list, k, manual_number, document, fuel);
            proof {
                assert(render_entries(
                    *self,
                    level as int,
                    *list,
                    k as int,
                    manual0,
                    *document,
                ) == render_entry(*self, level as int, *list, k as int, manual0, *document)
                    + render_entries(
                    *self,
                    level as int,
                    *list,
                    k as int + 1,
                    next_manual(*list, k as int, *document),
                    *document,
                ));
                eout = eout + render_entry(
                    *self,
                    level as int,
                    *list,
                    k as int,
                    manual0,
                    *document,
                );
                assert(w@ =~= wol + eout);
            }
            k = k + 1;
        }
        proof {
            assert(eout == all_entries);
        }
        w.push_str("</ol>\n\n");
        proof {
            assert(w@ =~= base + render_sublist(*self, level as int, *list, *document));
        }
    }

    /// Renders one contents entry and hands back whether the next sibling
    /// needs an explicit number.
    #[verifier::rlimit(100)]
    fn write_entry(
        &self,
        w: &mut String,
        level: usize,
        list: &crate::blocks::heading::SectionList,
        k: usize,
        manual: bool,
        document: &Document,
        fuel: usize,
    ) -> (r: bool)
        requires
            document.wf(),
            document.list_ok(*list),
            (k as int) < list.headings@.len(),
            level <= self.max_level,
            fuel as nat == crate::text::doc_fuel(*document),
        ensures
            final(w)@ == old(w)@ + render_entry(
                *self,
                level as int,
                *list,
                k as int,
                manual,
                *document,
            ),
            r == next_manual(*list, k as int, *document),
        decreases self.max_level + 1 - level, 0int,
    {
        let ghost base = w@;
        let e = list.headings[k];
        proof {
            assert(document.hl_at(e as int));
        }
        match &document.blocks[e].kind {
            BlockKind::Heading(h) => {
                let ghost hv = *h;
                let ghost openv: Seq<char> = if !(hv.numbered && hv.toc) {
                    "<li class=\"nonumber\">"@
                } else if manual {
                    "<li value=\""@ + (if hv.number@.len() > 0 {
                        crate::strutil::dec_seq(hv.number@.last() as nat)
                    } else {
                        Seq::empty()
                    }) + "\">"@
                } else {
                    "<li>"@
                };
                let ghost anchorv: Seq<char> = if hv.toc {
                    "<a href=\"#"@ + crate::html::encode_seq(
                        document.blocks@[e as int].common.id@,
                    ) + "\">"@ + crate::text::render_inlines(
                        hv.title@,
                        *document,
                        crate::text::doc_fuel(*document),
                        false,
                    ) + "</a>"@
                } else {
                    Seq::empty()
                };
                let numbered = h.numbered && h.toc;
                if !numbered {
                    w.push_str("<li class=\"nonumber\">");
                } else if manual {
                    w.push_str("<li value=\"");
                    if h.number.len() > 0 {
                        let d = fmt_usize(h.number[h.number.len() - 1]);
                        w.push_str(d.as_str());
                    }
                    w.push_str("\">");
                } else {
                    w.push_str("<li>");
                }
                proof {
                    assert(w@ =~= base + openv);
                }
                if h.toc {
                    w.push_str("<a href=\"#");
                    encode_into(w, document.blocks[e].common.id.as_str());
                    w.push_str("\">");
                    h.title.write_fueled(w, document, fuel, false);
                    w.push_str("</a>");
                }
                let ghost wanchor = w@;
                proof {
                    assert(wanchor =~= base + openv + anchorv);
                }
                if level < usize::MAX {
                    proof {
                        assert(document.list_ok(document.blocks@[e as int].kind.hl_children()));
                    }
                    let children = document.get_section_list(Some(e));
                    self.write_sublist(w, level + 1, children, document);
                } else {
                    proof {
                        assert(render_sublist(*self, level as int + 1, hv.children, *document)
                            =~= Seq::<char>::empty());
                    }
                }
                w.push_str("</li>\n");
                proof {
                    assert(w@ =~= base + (openv + anchorv + render_sublist(
                        *self,
                        level as int + 1,
                        hv.children,
                        *document,
                    ) + "</li>\n"@));
                    assert(render_entry(*self, level as int, *list, k as int, manual, *document)
                        == openv + anchorv + render_sublist(
                        *self,
                        level as int + 1,
                        hv.children,
                        *document,
                    ) + "</li>\n"@);
                }
                !numbered
            },
            BlockKind::Filler(f) => {
                let ghost fv = *f;
                w.push_str("<li class=\"nonumber\">");
                if level < usize::MAX {
                    proof {
                        assert(document.list_ok(document.blocks@[e as int].kind.hl_children()));
                    }
                    let children = document.get_section_list(Some(e));
                    self.write_sublist(w, level + 1, children, document);
                } else {
                    proof {
                        assert(render_sublist(*self, level as int + 1, fv.children, *document)
                            =~= Seq::<char>::empty());
                    }
                }
                w.push_str("</li>\n");
                proof {
                    assert(w@ =~= base + render_entry(
                        *self,
                        level as int,
                        *list,
                        k as int,
                        manual,
                        *document,
                    ));
                }
                true
            },
            _ => {
                proof {
                    assert(false);
                }
                false
            },
        }
    }
}

} // verus!

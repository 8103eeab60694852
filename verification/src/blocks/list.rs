use vstd::prelude::*;
use crate::blocks::Parameter;
use crate::document::Document;
use crate::errors::Error;
use crate::strutil::str_is;
use crate::text::{render_inlines, view_inlines, Text};

verus! {

/// The tag a list renders with.
pub open spec fn list_tag_seq(ordered: bool) -> Seq<char> {
    if ordered {
        "ol"@
    } else {
        "ul"@
    }
}

/// The rendering of a run of list items: each item's text, then its
/// nested sublist if it has one.
pub open spec fn render_items(
    items: Seq<ListItem>,
    ordered: bool,
    doc: Document,
    fuel: nat,
) -> Seq<char>
    decreases items,
{
    if items.len() == 0 {
        Seq::empty()
    } else {
        let it = items.last();
        render_items(items.drop_last(), ordered, doc, fuel) + ("<li>"@ + render_inlines(
            view_inlines(it.text.0@),
            doc,
            fuel,
            false,
        ) + (if it.sublist@.len() > 0 {
            "<"@ + list_tag_seq(ordered) + ">\n"@ + render_items(it.sublist@, ordered, doc, fuel)
                + "</"@ + list_tag_seq(ordered) + ">\n"@
        } else {
            Seq::empty()
        }) + "</li>\n"@)
    }
}

/// A bulleted or numbered list of items.
#[derive(Debug)]
pub struct List {
    pub items: Vec<ListItem>,
    pub ordered: bool,
}

impl List {
    /// A fresh, unordered, empty list.
    pub fn new() -> (r: List)
        ensures
            r.items@ == Seq::<ListItem>::empty(),
            !r.ordered,
    {
        List { items: Vec::new(), ordered: false }
    }

    /// Consumes the bare word `ordered`; hands every other parameter back.
    pub fn update_param(&mut self, param: Parameter) -> (r: Result<Option<Parameter>, Error>)
        ensures
            r is Ok,
            ({
                let back = r->Ok_0;
                if param.0 is None && param.1@ == "ordered"@ {
                    back is None && final(self).ordered && final(self).items == old(self).items
                } else {
                    back == Some(param) && *final(self) == *old(self)
                }
            }),
    {
        match &param.0 {
            Option::Some(_) => Ok(Some(param)),
            Option::None => {
                if str_is(&param.1, "ordered") {
                    self.ordered = true;
                    Ok(None)
                } else {
                    Ok(Some(param))
                }
            },
        }
    }
}

/// One list item: its text and its nested sublist.
#[derive(Debug, PartialEq, Eq)]
pub struct ListItem {
    pub text: Text,
    pub sublist: Vec<ListItem>,
}

impl ListItem {
    /// A fresh, empty item.
    pub fn new() -> (r: ListItem)
        ensures
            r.text@ == Seq::<crate::text::InlineV>::empty(),
            r.sublist@ == Seq::<ListItem>::empty(),
    {
        ListItem { text: Text::new(), sublist: Vec::new() }
    }
}

impl List {
    /// The tag the list renders with: `ol` when ordered, `ul` otherwise.
    pub fn tag(ordered: bool) -> (r: &'static str)
        ensures
            r@ == list_tag_seq(ordered),
    {
        if ordered {
            "ol"
        } else {
            "ul"
        }
    }

    /// Renders a run of items.
    #[verifier::rlimit(100)]
    pub fn write_list(
        w: &mut String,
        items: &Vec<ListItem>,
        ordered: bool,
        document: &Document,
        fuel: usize,
    )
        ensures
            final(w)@ == old(w)@ + render_items(items@, ordered, *document, fuel as nat),
        decreases items@, 1int,
    {
        let mut i: usize = 0;
        proof {
            assert(items@.take(0) =~= Seq::<ListItem>::empty());
            assert(w@ =~= old(w)@ + render_items(items@.take(0), ordered, *document, fuel as nat));
        }
        while i < items.len()
            invariant
                i <= items@.len(),
                w@ == old(w)@ + render_items(items@.take(i as int), ordered, *document, fuel as nat),
            decreases items@.len() - i,
        {
            proof {
                assert(items@.take(i + 1).drop_last() =~= items@.take(i as int));
                assert(items@.take(i + 1).last() == items@[i as int]);
                assert(seq![items@[i as int]].drop_last() =~= Seq::<ListItem>::empty());
                assert(seq![items@[i as int]].last() == items@[i as int]);
                assert(render_items(Seq::<ListItem>::empty(), ordered, *document, fuel as nat)
                    == Seq::<char>::empty());
            }
            items[i].write(w, ordered, document, fuel);
            proof {
                assert(w@ =~= old(w)@ + render_items(
                    items@.take(i + 1),
                    ordered,
                    *document,
                    fuel as nat,
                ));
            }
            i = i + 1;
        }
        proof {
            assert(items@.take(items@.len() as int) =~= items@);
        }
    }

    /// Renders the list block.
    #[verifier::rlimit(100)]
    pub fn write(&self, w: &mut String, common: &crate::blocks::BlockCommon, document: &Document)
        ensures
            final(w)@ == old(w)@ + ("<"@ + list_tag_seq(self.ordered) + " "@
                + crate::document::attr_seq("id"@, common.id@) + crate::document::attr_seq(
                "class"@,
                common.class@,
            ) + ">\n"@ + render_items(
                self.items@,
                self.ordered,
                *document,
                crate::text::doc_fuel(*document),
            ) + "</"@ + list_tag_seq(self.ordered) + ">\n"@),
    {
        let tag = List::tag(self.ordered);
        w.push_str("<");
        w.push_str(tag);
        w.push_str(" ");
        crate::document::write_attribute(w, "id", common.id.as_str());
        crate::document::write_attribute(w, "class", common.class.as_str());
        w.push_str(">\n");
        let fuel = crate::text::document_fuel(document);
        List::write_list(w, &self.items, self.ordered, document, fuel);
        w.push_str("</");
        w.push_str(tag);
        w.push_str(">\n");
        proof {
            assert(final(w)@ =~= old(w)@ + ("<"@ + list_tag_seq(self.ordered) + " "@
                + crate::document::attr_seq("id"@, common.id@) + crate::document::attr_seq(
                "class"@,
                common.class@,
            ) + ">\n"@ + render_items(
                self.items@,
                self.ordered,
                *document,
                crate::text::doc_fuel(*document),
            ) + "</"@ + list_tag_seq(self.ordered) + ">\n"@));
        }
    }
}

impl ListItem {
    /// Renders one item: its text, then its sublist nested in its own
    /// list tags.
    #[verifier::rlimit(100)]
    pub fn write(&self, w: &mut String, ordered: bool, document: &Document, fuel: usize)
        ensures
            final(w)@ == old(w)@ + render_items(seq![*self], ordered, *document, fuel as nat),
        decreases *self, 0int,
    {
        proof {
            assert(seq![*self].drop_last() =~= Seq::<ListItem>::empty());
            assert(seq![*self].last() == *self);
            assert(render_items(Seq::<ListItem>::empty(), ordered, *document, fuel as nat)
                == Seq::<char>::empty());
        }
        w.push_str("<li>");
        self.text.write_fueled(w, document, fuel, false);
        if self.sublist.len() > 0 {
            let tag = List::tag(ordered);
            w.push_str("<");
            w.push_str(tag);
            w.push_str(">\n");
            List::write_list(w, &self.sublist, ordered, document, fuel);
            w.push_str("</");
            w.push_str(tag);
            w.push_str(">\n");
        }
        w.push_str("</li>\n");
        proof {
            assert(final(w)@ =~= old(w)@ + render_items(
                seq![*self],
                ordered,
                *document,
                fuel as nat,
            ));
        }
    }
}

} // verus!

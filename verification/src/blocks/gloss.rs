use vstd::prelude::*;
use crate::blocks::Parameter;
use crate::document::Document;
use crate::errors::{Error, ErrorKind, EResult};
use crate::html::encode_into;
use crate::strutil::{fmt_usize, str_is};
use crate::text::{InlineV, Text};

verus! {

/// An interlinear gloss: a title, whole preamble lines, word-aligned body
/// lines, and whole postamble lines.
#[derive(Debug)]
pub struct Gloss {
    pub title: Text,
    pub numbered: bool,
    pub number: usize,
    pub preamble: Vec<Text>,
    pub gloss: Vec<GlossLine>,
    pub postamble: Vec<Text>,
}

impl Gloss {
    /// A fresh, numbered, empty gloss.
    pub fn new() -> (r: Gloss)
        ensures
            r.title@ == Seq::<InlineV>::empty(),
            r.numbered,
            r.number == 0,
            r.preamble@ == Seq::<Text>::empty(),
            r.gloss@ == Seq::<GlossLine>::empty(),
            r.postamble@ == Seq::<Text>::empty(),
    {
        Gloss {
            title: Text::new(),
            numbered: true,
            number: 0,
            preamble: Vec::new(),
            gloss: Vec::new(),
            postamble: Vec::new(),
        }
    }

    /// Consumes the bare word `nonumber`; hands every other parameter back.
    pub fn update_param(&mut self, param: Parameter) -> (r: Result<Option<Parameter>, Error>)
        ensures
            r is Ok,
            ({
                let back = r->Ok_0;
                if param.0 is None && param.1@ == "nonumber"@ {
                    back is None && *final(self) == (Gloss { numbered: false, ..*old(self) })
                } else {
                    back == Some(param) && *final(self) == *old(self)
                }
            }),
    {
        match &param.0 {
            Option::Some(_) => Ok(Some(param)),
            Option::None => {
                if str_is(&param.1, "nonumber") {
                    self.numbered = false;
                    Ok(None)
                } else {
                    Ok(Some(param))
                }
            },
        }
    }

    /// Records a whole (no-split) line: in the preamble while no body line
    /// exists yet, in the postamble afterwards.
    pub fn push_nosplit_line(&mut self, line: Text)
        ensures
            old(self).gloss@.len() == 0 ==> final(self).preamble@ == old(self).preamble@.push(line)
                && final(self).postamble == old(self).postamble,
            old(self).gloss@.len() > 0 ==> final(self).postamble@ == old(self).postamble@.push(
                line,
            ) && final(self).preamble == old(self).preamble,
            final(self).gloss == old(self).gloss,
            final(self).title == old(self).title,
            final(self).numbered == old(self).numbered,
            final(self).number == old(self).number,
    {
        if self.gloss.len() == 0 {
            self.preamble.push(line);
        } else {
            self.postamble.push(line);
        }
    }

    /// Records a word-aligned body line. Once any postamble line has been
    /// recorded this is a gloss-order fault: preamble, body and postamble
    /// must be contiguous, in that order.
    pub fn push_gloss_line(&mut self, line: GlossLine) -> (r: EResult<()>)
        ensures
            r is Ok <==> old(self).postamble@.len() == 0,
            r is Ok ==> final(self).gloss@ == old(self).gloss@.push(line)
                && final(self).preamble == old(self).preamble
                && final(self).postamble == old(self).postamble
                && final(self).title == old(self).title
                && final(self).numbered == old(self).numbered
                && final(self).number == old(self).number,
            r is Err ==> *final(self) == *old(self) && r->Err_0.kinds@ == seq![
                ErrorKind::GlossLine,
            ],
    {
        if self.postamble.len() > 0 {
            Err(ErrorKind::GlossLine.into_error())
        } else {
            self.gloss.push(line);
            Ok(())
        }
    }
}

/// One body line of a gloss: its words and its class.
#[derive(Debug)]
pub struct GlossLine {
    pub words: Vec<Text>,
    pub class: String,
}

impl GlossLine {
    /// A fresh, empty line.
    pub fn new() -> (r: GlossLine)
        ensures
            r.words@ == Seq::<Text>::empty(),
            r.class@ == Seq::<char>::empty(),
    {
        GlossLine { words: Vec::new(), class: String::new() }
    }

    /// Appends one word.
    pub fn push(&mut self, word: Text)
        ensures
            final(self).words@ == old(self).words@.push(word),
            final(self).class == old(self).class,
    {
        self.words.push(word);
    }
}

/// How one gloss line is treated: split into words, or kept whole.
#[derive(Debug, PartialEq, Eq)]
pub enum GlossLineType {
    /// The line is kept whole.
    NoSplit,
    /// The line is split into words and aligned.
    Split,
}

impl GlossLineType {
    /// Consumes the bare word `nosplit`; hands every other parameter back.
    pub fn update_param(&mut self, param: Parameter) -> (r: Result<Option<Parameter>, Error>)
        ensures
            r is Ok,
            ({
                let back = r->Ok_0;
                if param.0 is None && param.1@ == "nosplit"@ {
                    back is None && *final(self) is NoSplit
                } else {
                    back == Some(param) && *final(self) == *old(self)
                }
            }),
    {
        match &param.0 {
            Option::Some(_) => Ok(Some(param)),
            Option::None => {
                if str_is(&param.1, "nosplit") {
                    *self = GlossLineType::NoSplit;
                    Ok(None)
                } else {
                    Ok(Some(param))
                }
            },
        }
    }
}

/// The word count of the longest body line.
pub open spec fn max_words(lines: Seq<GlossLine>) -> int
    decreases lines.len(),
{
    if lines.len() == 0 {
        0
    } else {
        let rest = max_words(lines.drop_last());
        if lines.last().words@.len() > rest {
            lines.last().words@.len() as int
        } else {
            rest
        }
    }
}

/// The rendering of whole lines, each in a paragraph opened by `open`.
pub open spec fn render_paras(lines: Seq<Text>, open: Seq<char>, doc: Document, fuel: nat) -> Seq<
    char,
>
    decreases lines.len(),
{
    if lines.len() == 0 {
        Seq::empty()
    } else {
        open + crate::text::render_inlines(
            crate::text::view_inlines(lines[0].0@),
            doc,
            fuel,
            false,
        ) + "</p>\n"@ + render_paras(lines.drop_first(), open, doc, fuel)
    }
}

/// The `dd` cells of one aligned group: the word at position `wi` of
/// each line, an empty cell where the line is short.
pub open spec fn render_dds(lines: Seq<GlossLine>, wi: int, doc: Document, fuel: nat) -> Seq<char>
    decreases lines.len(),
{
    if lines.len() == 0 {
        Seq::empty()
    } else {
        "<dd class=\""@ + crate::html::encode_seq(lines[0].class@) + "\">"@ + (if wi
            < lines[0].words@.len() {
            crate::text::render_inlines(
                crate::text::view_inlines(lines[0].words@[wi].0@),
                doc,
                fuel,
                false,
            )
        } else {
            Seq::empty()
        }) + "</dd>"@ + render_dds(lines.drop_first(), wi, doc, fuel)
    }
}

/// Whether the head word at position `wi` ends with `-`, binding the next
/// group to it without a space.
pub open spec fn group_next(lines: Seq<GlossLine>, wi: int) -> bool {
    wi < lines[0].words@.len() && crate::text::sv_ends_with(lines[0].words@[wi]@, '-')
}

/// One aligned group at word position `wi`: a space before it unless a
/// bound morpheme starting with `-` continues a head word that did not
/// end with `-`, then the head word in a `dt` and each later line's word
/// in a `dd`.
pub open spec fn render_group(
    lines: Seq<GlossLine>,
    wi: int,
    add_space: bool,
    doc: Document,
    fuel: nat,
) -> Seq<char> {
    let head = lines[0];
    let is_prefix = wi < head.words@.len() && crate::text::sv_starts_with(head.words@[wi]@, '-');
    let space: Seq<char> = if add_space || !is_prefix {
        " "@
    } else {
        Seq::empty()
    };
    space + "<dl>"@ + "<dt class=\""@ + crate::html::encode_seq(head.class@) + "\">"@ + (if wi
        < head.words@.len() {
        crate::text::render_inlines(
            crate::text::view_inlines(head.words@[wi].0@),
            doc,
            fuel,
            false,
        )
    } else {
        Seq::empty()
    }) + "</dt>"@ + render_dds(lines.drop_first(), wi, doc, fuel) + "</dl>"@
}

/// The aligned groups from word position `wi` on, one per position up to
/// the longest body line.
pub open spec fn render_groups(
    lines: Seq<GlossLine>,
    wi: int,
    nwords: int,
    add_space: bool,
    doc: Document,
    fuel: nat,
) -> Seq<char>
    decreases nwords - wi,
{
    if wi >= nwords {
        Seq::empty()
    } else {
        render_group(lines, wi, add_space, doc, fuel) + render_groups(
            lines,
            wi + 1,
            nwords,
            group_next(lines, wi),
            doc,
            fuel,
        )
    }
}

/// The full rendering of a gloss block: its heading with the gloss
/// number, the preamble, the aligned groups, and the postamble.
pub open spec fn render_gloss(g: Gloss, common: crate::blocks::BlockCommon, doc: Document) -> Seq<
    char,
> {
    "<div "@ + "id=\""@ + crate::html::encode_seq(common.id@) + "\" "@ + "class=\"gloss "@
        + crate::html::encode_seq(common.class@) + "\">"@ + "<p class=\"gloss-heading\">"@
        + "<span class=\"gloss-heading-prefix\">Gloss"@ + (if g.numbered {
        " "@ + crate::strutil::dec_seq(g.number as nat)
    } else {
        Seq::empty()
    }) + ":</span> "@ + crate::text::render_inlines(
        crate::text::view_inlines(g.title.0@),
        doc,
        crate::text::doc_fuel(doc),
        false,
    ) + "</p>\n"@ + render_paras(g.preamble@, "<p class=\"preamble\">"@, doc, crate::text::doc_fuel(doc))
        + (if g.gloss@.len() > 0 {
        render_groups(g.gloss@, 0, max_words(g.gloss@), false, doc, crate::text::doc_fuel(doc))
    } else {
        Seq::empty()
    }) + render_paras(g.postamble@, "<p class=\"postamble\">"@, doc, crate::text::doc_fuel(doc))
        + "</div>\n\n"@
}

impl Gloss {
    /// Renders the `dd` cells of one aligned group: the word at position
    /// `wi` of every body line after the head line.
    fn write_dds(&self, w: &mut String, wi: usize, document: &Document, fuel: usize)
        requires
            self.gloss@.len() > 0,
            fuel as nat == crate::text::doc_fuel(*document),
        ensures
            final(w)@ == old(w)@ + render_dds(
                self.gloss@.drop_first(),
                wi as int,
                *document,
                fuel as nat,
            ),
    {
        let ghost base = w@;
        let ghost all_dds = render_dds(
            self.gloss@.drop_first(),
            wi as int,
            *document,
            fuel as nat,
        );
        let ghost mut dout: Seq<char> = Seq::empty();
        let mut li2: usize = 1;
        proof {
            assert(self.gloss@.skip(1) =~= self.gloss@.drop_first());
            assert(dout + all_dds =~= all_dds);
        }
        while li2 < self.gloss.len()
            invariant
                1 <= li2 <= self.gloss@.len(),
                self.gloss@.len() > 0,
                fuel as nat == crate::text::doc_fuel(*document),
                w@ == base + dout,
                dout + render_dds(
                    self.gloss@.skip(li2 as int),
                    wi as int,
                    *document,
                    fuel as nat,
                ) == all_dds,
                all_dds == render_dds(
                    self.gloss@.drop_first(),
                    wi as int,
                    *document,
                    fuel as nat,
                ),
            decreases self.gloss@.len() - li2,
        {
            let ghost rem = self.gloss@.skip(li2 as int);
            let line = &self.gloss[li2];
            w.push_str("<dd class=\"");
            encode_into(w, line.class.as_str());
            w.push_str("\">");
            if wi < line.words.len() {
                line.words[wi].write_fueled(w, document, fuel, false);
            }
            w.push_str("</dd>");
            proof {
                assert(rem[0] == self.gloss@[li2 as int]);
                assert(rem.drop_first() =~= self.gloss@.skip(li2 as int + 1));
                dout = dout + ("<dd class=\""@ + crate::html::encode_seq(
                    self.gloss@[li2 as int].class@,
                ) + "\">"@ + (if (wi as int) < self.gloss@[li2 as int].words@.len() {
                    crate::text::render_inlines(
                        self.gloss@[li2 as int].words@[wi as int]@,
                        *document,
                        fuel as nat,
                        false,
                    )
                } else {
                    Seq::empty()
                }) + "</dd>"@);
                assert(w@ =~= base + dout);
                assert(dout + render_dds(
                    self.gloss@.skip(li2 as int + 1),
                    wi as int,
                    *document,
                    fuel as nat,
                ) =~= all_dds);
            }
            li2 = li2 + 1;
        }
        proof {
            assert(self.gloss@.skip(self.gloss@.len() as int) =~= Seq::<GlossLine>::empty());
            assert(dout + Seq::<char>::empty() =~= dout);
        }
    }

    /// Renders one aligned group and hands back whether the next group
    /// follows this one without a separating space.
    fn write_group(
        &self,
        w: &mut String,
        wi: usize,
        add_space: bool,
        document: &Document,
        fuel: usize,
    ) -> (r: bool)
        requires
            self.gloss@.len() > 0,
            fuel as nat == crate::text::doc_fuel(*document),
        ensures
            final(w)@ == old(w)@ + render_group(
                self.gloss@,
                wi as int,
                add_space,
                *document,
                fuel as nat,
            ),
            r == group_next(self.gloss@, wi as int),
    {
        let ghost base = w@;
        let head = &self.gloss[0];
        let ghost headv = self.gloss@[0];
        let is_prefix_word = if wi < head.words.len() {
            head.words[wi].starts_with('-')
        } else {
            false
        };
        if add_space || !is_prefix_word {
            w.push_str(" ");
        }
        w.push_str("<dl>");
        w.push_str("<dt class=\"");
        encode_into(w, head.class.as_str());
        w.push_str("\">");
        if wi < head.words.len() {
            head.words[wi].write_fueled(w, document, fuel, false);
        }
        w.push_str("</dt>");
        let ghost wdt = w@;
        proof {
            let space: Seq<char> = if add_space || !((wi as int) < headv.words@.len()
                && crate::text::sv_starts_with(headv.words@[wi as int]@, '-')) {
                " "@
            } else {
                Seq::empty()
            };
            assert(wdt =~= base + space + "<dl>"@ + "<dt class=\""@ + crate::html::encode_seq(
                headv.class@,
            ) + "\">"@ + (if (wi as int) < headv.words@.len() {
                crate::text::render_inlines(
                    headv.words@[wi as int]@,
                    *document,
                    fuel as nat,
                    false,
                )
            } else {
                Seq::empty()
            }) + "</dt>"@);
        }
        self.write_dds(w, wi, document, fuel);
        w.push_str("</dl>");
        let r = if wi < head.words.len() {
            head.words[wi].ends_with('-')
        } else {
            false
        };
        proof {
            assert(w@ =~= base + render_group(
                self.gloss@,
                wi as int,
                add_space,
                *document,
                fuel as nat,
            ));
        }
        r
    }

    /// Renders whole lines, each in a paragraph opened by `open`.
    fn write_paras(lines: &Vec<Text>, w: &mut String, open: &str, document: &Document, fuel: usize)
        requires
            fuel as nat == crate::text::doc_fuel(*document),
        ensures
            final(w)@ == old(w)@ + render_paras(lines@, open@, *document, fuel as nat),
    {
        let ghost base = w@;
        let ghost all = render_paras(lines@, open@, *document, fuel as nat);
        let ghost mut pout: Seq<char> = Seq::empty();
        let mut i: usize = 0;
        proof {
            assert(lines@.skip(0) =~= lines@);
            assert(pout + all =~= all);
        }
        while i < lines.len()
            invariant
                i <= lines@.len(),
                fuel as nat == crate::text::doc_fuel(*document),
                w@ == base + pout,
                pout + render_paras(lines@.skip(i as int), open@, *document, fuel as nat) == all,
                all == render_paras(lines@, open@, *document, fuel as nat),
            decreases lines@.len() - i,
        {
            let ghost rem = lines@.skip(i as int);
            w.push_str(open);
            lines[i].write_fueled(w, document, fuel, false);
            w.push_str("</p>\n");
            proof {
                assert(rem[0] == lines@[i as int]);
                assert(rem.drop_first() =~= lines@.skip(i as int + 1));
                pout = pout + (open@ + crate::text::render_inlines(
                    lines@[i as int]@,
                    *document,
                    fuel as nat,
                    false,
                ) + "</p>\n"@);
                assert(w@ =~= base + pout);
                assert(pout + render_paras(lines@.skip(i as int + 1), open@, *document, fuel as nat)
                    =~= all);
            }
            i = i + 1;
        }
        proof {
            assert(lines@.skip(lines@.len() as int) =~= Seq::<Text>::empty());
            assert(pout + Seq::<char>::empty() =~= pout);
        }
    }

    /// Renders the gloss: its heading with the gloss number, the preamble
    /// lines, then one definition-list group for each word position up to
    /// the longest body line (a space separates groups unless a bound
    /// morpheme starting with `-` continues a head word that did not end
    /// with `-`), and the postamble lines.
    #[verifier::rlimit(100)]
    fn write_gloss_head(
        &self,
        w: &mut String,
        common: &crate::blocks::BlockCommon,
        document: &Document,
        fuel: usize,
    )
        requires
            fuel as nat == crate::text::doc_fuel(*document),
        ensures
            final(w)@ == old(w)@ + ("<div "@ + "id=\""@ + crate::html::encode_seq(common.id@)
                + "\" "@ + "class=\"gloss "@ + crate::html::encode_seq(common.class@) + "\">"@
                + "<p class=\"gloss-heading\">"@ + "<span class=\"gloss-heading-prefix\">Gloss"@ + (
            if self.numbered {
                " "@ + crate::strutil::dec_seq(self.number as nat)
            } else {
                Seq::empty()
            }) + ":</span> "@ + crate::text::render_inlines(
                self.title@,
                *document,
                crate::text::doc_fuel(*document),
                false,
            ) + "</p>\n"@),
    {
        let ghost base = w@;
        w.push_str("<div ");
        w.push_str("id=\"");
        encode_into(w, common.id.as_str());
        w.push_str("\" ");
        w.push_str("class=\"gloss ");
        encode_into(w, common.class.as_str());
        w.push_str("\">");
        w.push_str("<p class=\"gloss-heading\">");
        w.push_str("<span class=\"gloss-heading-prefix\">Gloss");
        if self.numbered {
            w.push_str(" ");
            let d = fmt_usize(self.number);
            w.push_str(d.as_str());
        }
        w.push_str(":</span> ");
        self.title.write_fueled(w, document, fuel, false);
        w.push_str("</p>\n");
        proof {
            assert(w@ =~= base + ("<div "@ + "id=\""@ + crate::html::encode_seq(common.id@)
                + "\" "@ + "class=\"gloss "@ + crate::html::encode_seq(common.class@) + "\">"@
                + "<p class=\"gloss-heading\">"@ + "<span class=\"gloss-heading-prefix\">Gloss"@ + (
            if self.numbered {
                " "@ + crate::strutil::dec_seq(self.number as nat)
            } else {
                Seq::empty()
            }) + ":</span> "@ + crate::text::render_inlines(
                self.title@,
                *document,
                crate::text::doc_fuel(*document),
                false,
            ) + "</p>\n"@));
        }
    }

    pub fn write(&self, w: &mut String, common: &crate::blocks::BlockCommon, document: &Document)
        ensures
            final(w)@ == old(w)@ + render_gloss(*self, *common, *document),
    {
        let ghost base = w@;
        let fuel = crate::text::document_fuel(document);
        self.write_gloss_head(w, common, document, fuel);
        let ghost whead = w@;
        Gloss::write_paras(&self.preamble, w, "<p class=\"preamble\">", document, fuel);
        let ghost all_pre = render_paras(
            self.preamble@,
            "<p class=\"preamble\">"@,
            *document,
            fuel as nat,
        );
        let ghost wpre = w@;
        let ghost all_groups: Seq<char> = if self.gloss@.len() > 0 {
            render_groups(
                self.gloss@,
                0,
                max_words(self.gloss@),
                false,
                *document,
                fuel as nat,
            )
        } else {
            Seq::empty()
        };
        if self.gloss.len() > 0 {
            let mut num_words: usize = 0;
            let mut li: usize = 0;
            proof {
                assert(self.gloss@.take(0) =~= Seq::<GlossLine>::empty());
            }
            while li < self.gloss.len()
                invariant
                    li <= self.gloss@.len(),
                    num_words as int == max_words(self.gloss@.take(li as int)),
                decreases self.gloss@.len() - li,
            {
                proof {
                    assert(self.gloss@.take(li as int + 1).drop_last() =~= self.gloss@.take(
                        li as int,
                    ));
                    assert(self.gloss@.take(li as int + 1).last() == self.gloss@[li as int]);
                }
                if self.gloss[li].words.len() > num_words {
                    num_words = self.gloss[li].words.len();
                }
                li = li + 1;
            }
            proof {
                assert(self.gloss@.take(self.gloss@.len() as int) =~= self.gloss@);
            }
            let ghost mut gout: Seq<char> = Seq::empty();
            let mut add_space = false;
            let mut wi: usize = 0;
            proof {
                assert(gout + all_groups =~= all_groups);
            }
            while wi < num_words
                invariant
                    wi <= num_words,
                    self.gloss@.len() > 0,
                    num_words as int == max_words(self.gloss@),
                    fuel as nat == crate::text::doc_fuel(*document),
                    w@ == wpre + gout,
                    gout + render_groups(
                        self.gloss@,
                        wi as int,
                        num_words as int,
                        add_space,
                        *document,
                        fuel as nat,
                    ) == all_groups,
                    all_groups == render_groups(
                        self.gloss@,
                        0,
                        num_words as int,
                        false,
                        *document,
                        fuel as nat,
                    ),
                decreases num_words - wi,
            {
                let ghost asp = add_space;
                add_space = self.write_group(w, wi, add_space, document, fuel);
                proof {
                    assert(render_groups(
                        self.gloss@,
                        wi as int,
                        num_words as int,
                        asp,
                        *document,
                        fuel as nat,
                    ) == render_group(self.gloss@, wi as int, asp, *document, fuel as nat)
                        + render_groups(
                        self.gloss@,
                        wi as int + 1,
                        num_words as int,
                        group_next(self.gloss@, wi as int),
                        *document,
                        fuel as nat,
                    ));
                    gout = gout + render_group(self.gloss@, wi as int, asp, *document, fuel as nat);
                    assert(w@ =~= wpre + gout);
                }
                wi = wi + 1;
            }
            proof {
                assert(gout == all_groups);
            }
        }
        proof {
            assert(w@ =~= wpre + all_groups);
        }
        let ghost wgl = w@;
        Gloss::write_paras(&self.postamble, w, "<p class=\"postamble\">", document, fuel);
        let ghost all_post = render_paras(
            self.postamble@,
            "<p class=\"postamble\">"@,
            *document,
            fuel as nat,
        );
        w.push_str("</div>\n\n");
        proof {
            let hseq = "<div "@ + "id=\""@ + crate::html::encode_seq(common.id@) + "\" "@
                + "class=\"gloss "@ + crate::html::encode_seq(common.class@) + "\">"@
                + "<p class=\"gloss-heading\">"@ + "<span class=\"gloss-heading-prefix\">Gloss"@ + (
            if self.numbered {
                " "@ + crate::strutil::dec_seq(self.number as nat)
            } else {
                Seq::empty()
            }) + ":</span> "@ + crate::text::render_inlines(
                self.title@,
                *document,
                crate::text::doc_fuel(*document),
                false,
            ) + "</p>\n"@;
            let t: Seq<char> = "</div>\n\n"@;
            assert(w@ == base + hseq + all_pre + all_groups + all_post + t);
            vstd::seq_lib::lemma_concat_associative(base, hseq, all_pre);
            vstd::seq_lib::lemma_concat_associative(base, hseq + all_pre, all_groups);
            vstd::seq_lib::lemma_concat_associative(base, hseq + all_pre + all_groups, all_post);
            vstd::seq_lib::lemma_concat_associative(
                base,
                hseq + all_pre + all_groups + all_post,
                t,
            );
            assert(w@ == base + (hseq + all_pre + all_groups + all_post + t));
            assert(render_gloss(*self, *common, *document) == hseq + all_pre + all_groups
                + all_post + t);
        }
    }
}

} // verus!

use vstd::prelude::*;
use crate::blocks::Parameter;
use crate::errors::Error;
use crate::strutil::str_is;

verus! {

/// Mathematical model of one inline element: its kind and its class.
pub struct InlineV {
    pub kind: InlineTypeV,
    pub class: Seq<char>,
}

/// Mathematical model of an inline element's kind.
pub enum InlineTypeV {
    Emphasis(Seq<InlineV>),
    Strong(Seq<InlineV>),
    Italics(Seq<InlineV>),
    Bold(Seq<InlineV>),
    SmallCaps(Seq<InlineV>),
    Span(Seq<InlineV>),
    Replace(Seq<char>),
    Reference(Seq<char>),
    Link { url: Seq<char>, title: Seq<InlineV> },
    Lit(Seq<char>),
}

/// A run of inline elements.
#[derive(Debug, PartialEq, Eq)]
pub struct Text(pub Vec<Inline>);

/// One inline element.
#[derive(Debug, PartialEq, Eq)]
pub struct Inline {
    pub kind: InlineType,
    pub common: InlineCommon,
}

/// The attributes every inline element carries.
#[derive(Debug, PartialEq, Eq)]
pub struct InlineCommon {
    pub class: String,
}

/// The kind of an inline element.
#[derive(Debug, PartialEq, Eq)]
pub enum InlineType {
    Emphasis(Text),
    Strong(Text),
    Italics(Text),
    Bold(Text),
    SmallCaps(Text),
    Span(Text),
    Replace(String),
    Reference(String),
    Link(Link),
    Text(String),
}

/// The target and title of a hyperlink.
#[derive(Debug, PartialEq, Eq)]
pub struct Link {
    pub url: String,
    pub title: Text,
}

pub open spec fn view_inlines(s: Seq<Inline>) -> Seq<InlineV>
    decreases s,
{
    if s.len() == 0 {
        Seq::empty()
    } else {
        view_inlines(s.drop_last()).push(view_inline(s.last()))
    }
}

pub broadcast proof fn lemma_view_inlines_len(s: Seq<Inline>)
    ensures
        #[trigger] view_inlines(s).len() == s.len(),
    decreases s.len(),
{
    if s.len() > 0 {
        lemma_view_inlines_len(s.drop_last());
    }
}

pub broadcast proof fn lemma_view_inlines_index(s: Seq<Inline>, i: int)
    requires
        0 <= i < s.len(),
    ensures
        view_inlines(s).len() == s.len(),
        #[trigger] view_inlines(s)[i] == view_inline(s[i]),
    decreases s.len(),
{
    lemma_view_inlines_len(s);
    if i < s.len() - 1 {
        lemma_view_inlines_index(s.drop_last(), i);
    }
}

pub open spec fn view_inline(x: Inline) -> InlineV
    decreases x,
{
    InlineV { kind: view_kind(x.kind), class: x.common.class@ }
}

pub open spec fn view_kind(k: InlineType) -> InlineTypeV
    decreases k,
{
    match k {
        InlineType::Emphasis(t) => InlineTypeV::Emphasis(view_inlines(t.0@)),
        InlineType::Strong(t) => InlineTypeV::Strong(view_inlines(t.0@)),
        InlineType::Italics(t) => InlineTypeV::Italics(view_inlines(t.0@)),
        InlineType::Bold(t) => InlineTypeV::Bold(view_inlines(t.0@)),
        InlineType::SmallCaps(t) => InlineTypeV::SmallCaps(view_inlines(t.0@)),
        InlineType::Span(t) => InlineTypeV::Span(view_inlines(t.0@)),
        InlineType::Replace(s) => InlineTypeV::Replace(s@),
        InlineType::Reference(s) => InlineTypeV::Reference(s@),
        InlineType::Link(l) => InlineTypeV::Link { url: l.url@, title: view_inlines(l.title.0@) },
        InlineType::Text(s) => InlineTypeV::Lit(s@),
    }
}

impl View for Text {
    type V = Seq<InlineV>;

    open spec fn view(&self) -> Seq<InlineV> {
        view_inlines(self.0@)
    }
}

impl View for Inline {
    type V = InlineV;

    open spec fn view(&self) -> InlineV {
        view_inline(*self)
    }
}

pub broadcast proof fn lemma_view_inlines_push(s: Seq<Inline>, x: Inline)
    ensures
        #[trigger] view_inlines(s.push(x)) == view_inlines(s).push(view_inline(x)),
{
    assert(s.push(x).drop_last() =~= s);
    assert(s.push(x).last() == x);
}

impl Text {
    /// An empty run of inline elements.
    pub fn new() -> (r: Text)
        ensures
            r@ == Seq::<InlineV>::empty(),
    {
    broadcast use {lemma_view_inlines_len, lemma_view_inlines_index, lemma_view_inlines_push};

        let t = Text(Vec::new());
        proof {
            assert(t@ =~= Seq::<InlineV>::empty());
        }
        t
    }

    /// Appends one inline element.
    pub fn push(&mut self, element: Inline)
        ensures
            final(self)@ == old(self)@.push(element@),
    {
        proof {
            lemma_view_inlines_push(self.0@, element);
        }
        self.0.push(element);
    }

    /// Appends a literal run as a plain text element.
    pub fn push_string(&mut self, s: String)
        ensures
            final(self)@ == old(self)@.push(
                InlineV { kind: InlineTypeV::Lit(s@), class: Seq::empty() },
            ),
    {
        let element = Inline {
            kind: InlineType::Text(s),
            common: InlineCommon { class: String::new() },
        };
        proof {
            lemma_view_inlines_push(self.0@, element);
        }
        self.0.push(element);
    }

    /// Appends copies of the other run's elements.
    pub fn extend(&mut self, other: &Text)
        ensures
            final(self)@ == old(self)@ + other@,
    {
    broadcast use {lemma_view_inlines_len, lemma_view_inlines_index, lemma_view_inlines_push};

        let mut i: usize = 0;
        while i < other.0.len()
            invariant
                i <= other.0.len(),
                self@ == old(self)@ + other@.take(i as int),
            decreases other.0.len() - i,
        {
            let dup = other.0[i].duplicate();
            proof {
                lemma_view_inlines_index(other.0@, i as int);
                lemma_view_inlines_push(self.0@, dup);
                assert((old(self)@ + other@.take(i as int)).push(other@[i as int]) =~= old(self)@ + other@.take(i + 1));
            }
            self.0.push(dup);
            i = i + 1;
        }
        proof {
            lemma_view_inlines_len(other.0@);
            assert(other@.take(other.0@.len() as int) =~= other@);
        }
    }

    /// Wraps the whole run in a span with the given class.
    pub fn with_class(self, class: String) -> (r: Text)
        ensures
            r@ == seq![
                InlineV { kind: InlineTypeV::Span(self@), class: class@ },
            ],
    {
    broadcast use {lemma_view_inlines_len, lemma_view_inlines_index, lemma_view_inlines_push};

        let ghost sv = self@;
        let inner = Inline { kind: InlineType::Span(self), common: InlineCommon { class } };
        let mut v: Vec<Inline> = Vec::new();
        v.push(inner);
        let t = Text(v);
        proof {
            assert(t@ =~= seq![view_inline(inner)]);
        }
        t
    }

    /// Whether the run starts with the character `c`.
    pub fn starts_with(&self, c: char) -> (b: bool)
        ensures
            b == sv_starts_with(self@, c),
        decreases *self,
    {
    broadcast use {lemma_view_inlines_len, lemma_view_inlines_index, lemma_view_inlines_push};

        if self.0.len() == 0 {
            false
        } else {
            self.0[0].kind.starts_with(c)
        }
    }

    /// Whether the run ends with the character `c`.
    pub fn ends_with(&self, c: char) -> (b: bool)
        ensures
            b == sv_ends_with(self@, c),
        decreases *self,
    {
    broadcast use {lemma_view_inlines_len, lemma_view_inlines_index, lemma_view_inlines_push};

        if self.0.len() == 0 {
            false
        } else {
            self.0[self.0.len() - 1].kind.ends_with(c)
        }
    }

    /// A deep copy of the run.
    pub fn duplicate(&self) -> (r: Text)
        ensures
            r@ == self@,
        decreases *self,
    {
        let mut v: Vec<Inline> = Vec::new();
    broadcast use {lemma_view_inlines_len, lemma_view_inlines_index, lemma_view_inlines_push};

        let mut i: usize = 0;
        while i < self.0.len()
            invariant
                i <= self.0.len(),
                view_inlines(v@) == self@.take(i as int),
            decreases self.0.len() - i,
        {
            let dup = self.0[i].duplicate();
            proof {
                lemma_view_inlines_index(self.0@, i as int);
                lemma_view_inlines_push(v@, dup);
                assert(self@.take(i as int).push(self@[i as int]) =~= self@.take(i + 1));
            }
            v.push(dup);
            i = i + 1;
        }
        proof {
            lemma_view_inlines_len(self.0@);
            assert(self@.take(self.0@.len() as int) =~= self@);
        }
        Text(v)
    }
}

impl Inline {
    /// A deep copy of the element.
    pub fn duplicate(&self) -> (r: Inline)
        ensures
            r@ == self@,
        decreases *self,
    {
        Inline { kind: self.kind.duplicate(), common: InlineCommon { class: self.common.class.clone() } }
    }
}

impl InlineCommon {
    /// Fresh common attributes with an empty class.
    pub fn new() -> (r: InlineCommon)
        ensures
            r.class@ == Seq::<char>::empty(),
    {
        InlineCommon { class: String::new() }
    }

    /// Consumes `class` (keyed or bare) parameters; hands every other
    /// parameter back.
    pub fn update_param(&mut self, param: Parameter) -> (r: Result<Option<Parameter>, Error>)
        ensures
            r is Ok,
            ({
                let back = r->Ok_0;
                if param.0 is None || param.0->0@ == "class"@ {
                    back is None && final(self).class@ == param.1@
                } else {
                    back == Some(param) && final(self).class@ == old(self).class@
                }
            }),
    {
        let is_class = match &param.0 {
            Option::None => true,
            Option::Some(name) => str_is(name, "class"),
        };
        if is_class {
            self.class = param.1;
            Ok(None)
        } else {
            Ok(Some(param))
        }
    }
}

impl InlineType {
    /// A link with no target or title yet.
    pub fn link() -> (r: InlineType)
        ensures
            view_kind(r) == (InlineTypeV::Link {
                url: Seq::<char>::empty(),
                title: Seq::<InlineV>::empty(),
            }),
    {
        let r = InlineType::Link(Link { url: String::new(), title: Text(Vec::new()) });
        proof {
            assert(view_inlines(Seq::<Inline>::empty()) =~= Seq::<InlineV>::empty());
        }
        r
    }

    /// A cross reference with no target yet.
    pub fn reference() -> (r: InlineType)
        ensures
            view_kind(r) == InlineTypeV::Reference(Seq::<char>::empty()),
    {
        InlineType::Reference(String::new())
    }

    /// Whether the element's text starts with the character `c`.
    pub fn starts_with(&self, c: char) -> (b: bool)
        ensures
            b == kv_starts_with(view_kind(*self), c),
        decreases *self,
    {
        match self {
            InlineType::Emphasis(t) => t.starts_with(c),
            InlineType::Strong(t) => t.starts_with(c),
            InlineType::Italics(t) => t.starts_with(c),
            InlineType::Bold(t) => t.starts_with(c),
            InlineType::SmallCaps(t) => t.starts_with(c),
            InlineType::Span(t) => t.starts_with(c),
            InlineType::Link(l) => l.title.starts_with(c),
            InlineType::Text(s) => {
                match crate::strutil::first_char(s) {
                    Option::Some(f) => f == c,
                    Option::None => false,
                }
            },
            _ => false,
        }
    }

    /// Whether the element's text ends with the character `c`.
    pub fn ends_with(&self, c: char) -> (b: bool)
        ensures
            b == kv_ends_with(view_kind(*self), c),
        decreases *self,
    {
        match self {
            InlineType::Emphasis(t) => t.ends_with(c),
            InlineType::Strong(t) => t.ends_with(c),
            InlineType::Italics(t) => t.ends_with(c),
            InlineType::Bold(t) => t.ends_with(c),
            InlineType::SmallCaps(t) => t.ends_with(c),
            InlineType::Span(t) => t.ends_with(c),
            InlineType::Link(l) => l.title.ends_with(c),
            InlineType::Text(s) => {
                match crate::strutil::last_char(s) {
                    Option::Some(f) => f == c,
                    Option::None => false,
                }
            },
            _ => false,
        }
    }

    /// A deep copy of the kind.
    pub fn duplicate(&self) -> (r: InlineType)
        ensures
            view_kind(r) == view_kind(*self),
        decreases *self,
    {
        match self {
            InlineType::Emphasis(t) => InlineType::Emphasis(t.duplicate()),
            InlineType::Strong(t) => InlineType::Strong(t.duplicate()),
            InlineType::Italics(t) => InlineType::Italics(t.duplicate()),
            InlineType::Bold(t) => InlineType::Bold(t.duplicate()),
            InlineType::SmallCaps(t) => InlineType::SmallCaps(t.duplicate()),
            InlineType::Span(t) => InlineType::Span(t.duplicate()),
            InlineType::Replace(s) => InlineType::Replace(s.clone()),
            InlineType::Reference(s) => InlineType::Reference(s.clone()),
            InlineType::Link(l) => InlineType::Link(
                Link { url: l.url.clone(), title: l.title.duplicate() },
            ),
            InlineType::Text(s) => InlineType::Text(s.clone()),
        }
    }

    /// Consumes the parameters the element kind recognises: the target of a
    /// reference (`ref` or bare), the target (`link` or bare) and `title` of
    /// a link. Hands every other parameter back.
    pub fn update_param(&mut self, param: Parameter) -> (r: Result<Option<Parameter>, Error>)
        ensures
            r is Ok,
            ({
                let back = r->Ok_0;
                match *old(self) {
                    InlineType::Reference(_) => {
                        if param.0 is None || param.0->0@ == "ref"@ {
                            back is None && view_kind(*final(self)) == InlineTypeV::Reference(
                                param.1@,
                            )
                        } else {
                            back == Some(param) && *final(self) == *old(self)
                        }
                    },
                    InlineType::Link(l) => {
                        if param.0 is None || param.0->0@ == "link"@ {
                            back is None && view_kind(*final(self)) == (InlineTypeV::Link {
                                url: param.1@,
                                title: view_inlines(l.title.0@),
                            })
                        } else if param.0->0@ == "title"@ {
                            back is None && view_kind(*final(self)) == (InlineTypeV::Link {
                                url: l.url@,
                                title: seq![
                                    InlineV {
                                        kind: InlineTypeV::Lit(param.1@),
                                        class: Seq::empty(),
                                    },
                                ],
                            })
                        } else {
                            back == Some(param) && *final(self) == *old(self)
                        }
                    },
                    _ => back == Some(param) && *final(self) == *old(self),
                }
            }),
    {
        match self {
            InlineType::Reference(s) => {
                let is_ref = match &param.0 {
                    Option::None => true,
                    Option::Some(name) => str_is(name, "ref"),
                };
                if is_ref {
                    *s = param.1;
                    Ok(None)
                } else {
                    Ok(Some(param))
                }
            },
            InlineType::Link(l) => {
                let is_link = match &param.0 {
                    Option::None => true,
                    Option::Some(name) => str_is(name, "link"),
                };
                if is_link {
                    l.url = param.1;
                    Ok(None)
                } else {
                    let is_title = match &param.0 {
                        Option::None => false,
                        Option::Some(name) => str_is(name, "title"),
                    };
                    if is_title {
                        let mut t = Text::new();
                        t.push_string(param.1);
                        l.title = t;
                        Ok(None)
                    } else {
                        Ok(Some(param))
                    }
                }
            },
            _ => Ok(Some(param)),
        }
    }
}

/// Whether a modelled run starts with the character `c`.
pub open spec fn sv_starts_with(tv: Seq<InlineV>, c: char) -> bool
    decreases tv,
{
    tv.len() > 0 && kv_starts_with(tv[0].kind, c)
}

/// Whether a modelled element kind starts with the character `c`.
pub open spec fn kv_starts_with(kv: InlineTypeV, c: char) -> bool
    decreases kv,
{
    match kv {
        InlineTypeV::Emphasis(t) => sv_starts_with(t, c),
        InlineTypeV::Strong(t) => sv_starts_with(t, c),
        InlineTypeV::Italics(t) => sv_starts_with(t, c),
        InlineTypeV::Bold(t) => sv_starts_with(t, c),
        InlineTypeV::SmallCaps(t) => sv_starts_with(t, c),
        InlineTypeV::Span(t) => sv_starts_with(t, c),
        InlineTypeV::Link { title, .. } => sv_starts_with(title, c),
        InlineTypeV::Lit(s) => s.len() > 0 && s[0] == c,
        _ => false,
    }
}

/// Whether a modelled run ends with the character `c`.
pub open spec fn sv_ends_with(tv: Seq<InlineV>, c: char) -> bool
    decreases tv,
{
    tv.len() > 0 && kv_ends_with(tv.last().kind, c)
}

/// Whether a modelled element kind ends with the character `c`.
pub open spec fn kv_ends_with(kv: InlineTypeV, c: char) -> bool
    decreases kv,
{
    match kv {
        InlineTypeV::Emphasis(t) => sv_ends_with(t, c),
        InlineTypeV::Strong(t) => sv_ends_with(t, c),
        InlineTypeV::Italics(t) => sv_ends_with(t, c),
        InlineTypeV::Bold(t) => sv_ends_with(t, c),
        InlineTypeV::SmallCaps(t) => sv_ends_with(t, c),
        InlineTypeV::Span(t) => sv_ends_with(t, c),
        InlineTypeV::Link { title, .. } => sv_ends_with(title, c),
        InlineTypeV::Lit(s) => s.len() > 0 && s.last() == c,
        _ => false,
    }
}

/// How deep rendering may chase replacements and references: enough for
/// any acyclic document.
pub open spec fn doc_fuel(doc: crate::document::Document) -> nat {
    if doc.blocks@.len() + doc.replacements.spec_len() + 1 <= usize::MAX {
        (doc.blocks@.len() + doc.replacements.spec_len() + 1) as nat
    } else {
        usize::MAX as nat
    }
}

/// The tag an inline element renders with, if any.
pub open spec fn kv_tag(kv: InlineTypeV) -> Option<Seq<char>> {
    match kv {
        InlineTypeV::Emphasis(_) => Some("em"@),
        InlineTypeV::Strong(_) => Some("strong"@),
        InlineTypeV::Italics(_) => Some("i"@),
        InlineTypeV::Bold(_) => Some("b"@),
        InlineTypeV::Link { .. } => Some("a"@),
        InlineTypeV::Reference(_) => Some("a"@),
        InlineTypeV::Lit(_) => None,
        _ => Some("span"@),
    }
}

/// The intrinsic class of an inline element kind.
pub open spec fn kv_class(kv: InlineTypeV) -> Seq<char> {
    match kv {
        InlineTypeV::SmallCaps(_) => "small-caps"@,
        InlineTypeV::Reference(_) => "reference"@,
        _ => ""@,
    }
}

/// What an unresolved reference renders as.
pub open spec fn render_missing_reference(id: Seq<char>, plain: bool) -> Seq<char> {
    if plain {
        "#"@ + crate::html::encode_seq(id)
    } else {
        "<span class=\"undefined-reference\">#"@ + crate::html::encode_seq(id) + "</span>"@
    }
}

/// What an unresolved replacement key renders as.
pub open spec fn render_missing_replace(key: Seq<char>, plain: bool) -> Seq<char> {
    if plain {
        ":"@ + crate::html::encode_seq(key) + ":"@
    } else {
        "<span class=\"undefined-replace\">:"@ + crate::html::encode_seq(key) + ":</span>"@
    }
}

/// What a block that exists but cannot be referenced renders as.
pub open spec fn render_unreferenceable(id: Seq<char>, plain: bool) -> Seq<char> {
    if plain {
        "#"@ + crate::html::encode_seq(id)
    } else {
        "<span class=\"unreferenceable-block\">#"@ + crate::html::encode_seq(id) + "</span>"@
    }
}

/// A dotted section number.
pub open spec fn dotted_number(nums: Seq<usize>) -> Seq<char> {
    crate::strutil::spec_join(
        Seq::new(nums.len(), |i: int| crate::strutil::dec_seq(nums[i] as nat)),
        "."@,
    )
}

/// The rendering of a run of inline elements, in order. Formatting kinds
/// wrap their content in their tag with its classes; literals are
/// entity-encoded; references resolve to the target block's reference
/// text (`section`, `table` or `gloss` and its number, or its title);
/// replacement keys resolve to their recorded expansion. In plain form
/// the tags are left out. The fuel bounds how deep replacements and
/// references are chased; it never runs out on an acyclic document.
pub open spec fn render_inlines(
    tv: Seq<InlineV>,
    doc: crate::document::Document,
    fuel: nat,
    plain: bool,
) -> Seq<char>
    decreases fuel, tv,
{
    if tv.len() == 0 {
        Seq::empty()
    } else {
        let v = tv.last();
        let inner = match v.kind {
            InlineTypeV::Emphasis(t) => render_inlines(t, doc, fuel, plain),
            InlineTypeV::Strong(t) => render_inlines(t, doc, fuel, plain),
            InlineTypeV::Italics(t) => render_inlines(t, doc, fuel, plain),
            InlineTypeV::Bold(t) => render_inlines(t, doc, fuel, plain),
            InlineTypeV::SmallCaps(t) => render_inlines(t, doc, fuel, plain),
            InlineTypeV::Span(t) => render_inlines(t, doc, fuel, plain),
            InlineTypeV::Link { title, .. } => render_inlines(title, doc, fuel, plain),
            InlineTypeV::Lit(s) => crate::html::encode_seq(s),
            InlineTypeV::Reference(id) => {
                if fuel == 0 {
                    render_missing_reference(id, plain)
                } else {
                    match crate::document::id_lookup(doc.ids@, id) {
                        Option::None => render_missing_reference(id, plain),
                        Option::Some(b) => {
                            if 0 <= b < doc.blocks@.len() {
                                match doc.blocks@[b].kind {
                                    crate::blocks::BlockKind::Heading(h) => "section "@ + (
                                    if h.numbered && h.toc {
                                        dotted_number(h.number@)
                                    } else {
                                        render_inlines(
                                            view_inlines(h.title.0@),
                                            doc,
                                            (fuel - 1) as nat,
                                            plain,
                                        )
                                    }),
                                    crate::blocks::BlockKind::Table(t) => "table "@ + (
                                    if t.numbered {
                                        crate::strutil::dec_seq(t.number as nat)
                                    } else {
                                        render_inlines(
                                            view_inlines(t.title.0@),
                                            doc,
                                            (fuel - 1) as nat,
                                            plain,
                                        )
                                    }),
                                    crate::blocks::BlockKind::Gloss(g) => "gloss "@ + (
                                    if g.numbered {
                                        crate::strutil::dec_seq(g.number as nat)
                                    } else {
                                        render_inlines(
                                            view_inlines(g.title.0@),
                                            doc,
                                            (fuel - 1) as nat,
                                            plain,
                                        )
                                    }),
                                    _ => render_unreferenceable(id, plain),
                                }
                            } else {
                                render_missing_reference(id, plain)
                            }
                        },
                    }
                }
            },
            InlineTypeV::Replace(key) => {
                if fuel == 0 {
                    render_missing_replace(key, plain)
                } else if doc.replacements.contains_key(key) {
                    render_inlines(doc.replacements.value_of(key), doc, (fuel - 1) as nat, plain)
                } else {
                    render_missing_replace(key, plain)
                }
            },
        };
        let this = if plain {
            inner
        } else {
            match kv_tag(v.kind) {
                Option::None => inner,
                Option::Some(tag) => {
                    let open_extra = match v.kind {
                        InlineTypeV::Link { url, .. } => " href=\""@ + crate::html::encode_seq(url)
                            + "\""@,
                        InlineTypeV::Reference(id) => " href=\"#"@ + crate::html::encode_seq(id)
                            + "\""@,
                        _ => Seq::empty(),
                    };
                    "<"@ + tag + " class=\""@ + crate::html::encode_seq(kv_class(v.kind)) + " "@
                        + crate::html::encode_seq(v.class) + "\""@ + open_extra + ">"@ + inner
                        + "</"@ + tag + ">"@
                },
            }
        };
        render_inlines(tv.drop_last(), doc, fuel, plain) + this
    }
}

/// Splitting a run renders as the concatenation of the parts.
#[verifier::rlimit(100)]
pub proof fn lemma_render_concat(
    a: Seq<InlineV>,
    b: Seq<InlineV>,
    doc: crate::document::Document,
    fuel: nat,
    plain: bool,
)
    ensures
        render_inlines(a + b, doc, fuel, plain) == render_inlines(a, doc, fuel, plain)
            + render_inlines(b, doc, fuel, plain),
    decreases b.len(),
{
    if b.len() == 0 {
        assert(a + b =~= a);
        assert(render_inlines(a, doc, fuel, plain) + render_inlines(b, doc, fuel, plain)
            =~= render_inlines(a, doc, fuel, plain));
    } else {
        assert((a + b).drop_last() =~= a + b.drop_last());
        assert((a + b).last() == b.last());
        lemma_render_concat(a, b.drop_last(), doc, fuel, plain);
        assert(render_inlines(a + b, doc, fuel, plain) =~= render_inlines(a, doc, fuel, plain)
            + render_inlines(b, doc, fuel, plain));
    }
}

/// The tag the element renders with, if any.
pub fn tag_of(kind: &InlineType) -> (r: Option<&'static str>)
    ensures
        match kv_tag(view_kind(*kind)) {
            Option::Some(t) => r matches Some(e) && e@ == t,
            Option::None => r is None,
        },
{
    match kind {
        InlineType::Emphasis(_) => Some("em"),
        InlineType::Strong(_) => Some("strong"),
        InlineType::Italics(_) => Some("i"),
        InlineType::Bold(_) => Some("b"),
        InlineType::Link(_) => Some("a"),
        InlineType::Reference(_) => Some("a"),
        InlineType::Text(_) => None,
        _ => Some("span"),
    }
}

/// The intrinsic class of the element kind.
pub fn class_of(kind: &InlineType) -> (r: &'static str)
    ensures
        r@ == kv_class(view_kind(*kind)),
{
    match kind {
        InlineType::SmallCaps(_) => "small-caps",
        InlineType::Reference(_) => "reference",
        _ => "",
    }
}

impl Text {
    /// Renders the run with markup, resolving references and replacements
    /// against the document.
    pub fn write_inline(&self, w: &mut String, document: &crate::document::Document)
        ensures
            final(w)@ == old(w)@ + render_inlines(self@, *document, doc_fuel(*document), false),
    {
        let fuel = document_fuel(document);
        self.write_fueled(w, document, fuel, false);
    }

    /// Renders the run without any formatting, but still resolving
    /// references and replacements.
    pub fn write_inline_plain(&self, w: &mut String, document: &crate::document::Document)
        ensures
            final(w)@ == old(w)@ + render_inlines(self@, *document, doc_fuel(*document), true),
    {
        let fuel = document_fuel(document);
        self.write_fueled(w, document, fuel, true);
    }

    /// Renders the run with the given chase budget.
    pub fn write_fueled(
        &self,
        w: &mut String,
        document: &crate::document::Document,
        fuel: usize,
        plain: bool,
    )
        ensures
            final(w)@ == old(w)@ + render_inlines(self@, *document, fuel as nat, plain),
        decreases fuel, *self, 2int,
    {
        broadcast use {lemma_view_inlines_len, lemma_view_inlines_index};

        let mut i: usize = 0;
        proof {
            assert(self@.take(0) =~= Seq::<InlineV>::empty());
            assert(w@ =~= old(w)@ + render_inlines(
                self@.take(0),
                *document,
                fuel as nat,
                plain,
            ));
        }
        while i < self.0.len()
            invariant
                i <= self.0@.len(),
                w@ == old(w)@ + render_inlines(self@.take(i as int), *document, fuel as nat, plain),
            decreases self.0@.len() - i,
        {
            proof {
                lemma_view_inlines_index(self.0@, i as int);
            }
            write_one_inline(&self.0[i], w, document, fuel, plain);
            proof {
                assert(self@.take(i as int).push(self@[i as int]) =~= self@.take(i + 1));
                lemma_render_concat(
                    self@.take(i as int),
                    seq![self@[i as int]],
                    *document,
                    fuel as nat,
                    plain,
                );
                assert(self@.take(i as int) + seq![self@[i as int]] =~= self@.take(i + 1));
            }
            i = i + 1;
        }
        proof {
            lemma_view_inlines_len(self.0@);
            assert(self@.take(self@.len() as int) =~= self@);
        }
    }
}

/// The chase budget for the document: its block count plus its
/// replacement count plus one.
pub fn document_fuel(document: &crate::document::Document) -> (r: usize)
    ensures
        r as nat == doc_fuel(*document),
{
    let a = document.blocks.len();
    let b = document.replacements.len();
    let c = match a.checked_add(b) {
        Option::Some(x) => x,
        Option::None => usize::MAX,
    };
    match c.checked_add(1) {
        Option::Some(x) => x,
        Option::None => usize::MAX,
    }
}

/// Renders one inline element.
#[verifier::rlimit(100)]
fn write_one_inline(
    v: &Inline,
    w: &mut String,
    document: &crate::document::Document,
    fuel: usize,
    plain: bool,
)
    ensures
        final(w)@ == old(w)@ + render_inlines(seq![v@], *document, fuel as nat, plain),
    decreases fuel, *v, 1int,
{
    proof {
        assert(seq![v@].drop_last() =~= Seq::<InlineV>::empty());
        assert(seq![v@].last() == v@);
    }
    if !plain {
        match tag_of(&v.kind) {
            Option::Some(tag) => {
                w.push_str("<");
                w.push_str(tag);
                w.push_str(" class=\"");
                let cls = class_of(&v.kind);
                crate::html::encode_into(w, cls);
                w.push_str(" ");
                crate::html::encode_into(w, v.common.class.as_str());
                w.push_str("\"");
                match &v.kind {
                    InlineType::Link(l) => {
                        w.push_str(" href=\"");
                        crate::html::encode_into(w, l.url.as_str());
                        w.push_str("\"");
                    },
                    InlineType::Reference(id) => {
                        w.push_str(" href=\"#");
                        crate::html::encode_into(w, id.as_str());
                        w.push_str("\"");
                    },
                    _ => {},
                }
                w.push_str(">");
            },
            Option::None => {},
        }
    }
    write_inline_body(v, w, document, fuel, plain);
    if !plain {
        match tag_of(&v.kind) {
            Option::Some(tag) => {
                w.push_str("</");
                w.push_str(tag);
                w.push_str(">");
            },
            Option::None => {},
        }
    }
    proof {
        lemma_render_one(v@, *document, fuel as nat, plain);
        assert(final(w)@ =~= old(w)@ + render_wrapped(v@, *document, fuel as nat, plain));
    }
}

/// Renders the content of one inline element, without its tag.
fn write_inline_body(
    v: &Inline,
    w: &mut String,
    document: &crate::document::Document,
    fuel: usize,
    plain: bool,
)
    ensures
        final(w)@ == old(w)@ + render_body_spec(v@, *document, fuel as nat, plain),
    decreases fuel, *v, 0int,
{
    match &v.kind {
        InlineType::Emphasis(t) => t.write_fueled(w, document, fuel, plain),
        InlineType::Strong(t) => t.write_fueled(w, document, fuel, plain),
        InlineType::Italics(t) => t.write_fueled(w, document, fuel, plain),
        InlineType::Bold(t) => t.write_fueled(w, document, fuel, plain),
        InlineType::SmallCaps(t) => t.write_fueled(w, document, fuel, plain),
        InlineType::Span(t) => t.write_fueled(w, document, fuel, plain),
        InlineType::Link(l) => l.title.write_fueled(w, document, fuel, plain),
        InlineType::Text(s) => {
            crate::html::encode_into(w, s.as_str());
        },
        InlineType::Reference(id) => {
            if fuel == 0 {
                write_missing_reference(w, id, plain);
            } else {
                match document.find_id_index(id.as_str()) {
                    Option::None => {
                        write_missing_reference(w, id, plain);
                    },
                    Option::Some(b) => {
                        if b < document.blocks.len() {
                            match &document.blocks[b].kind {
                                crate::blocks::BlockKind::Heading(h) => {
                                    w.push_str("section ");
                                    if h.numbered && h.toc {
                                        let dn = crate::document::dotted_of(&h.number);
                                        w.push_str(dn.as_str());
                                    } else {
                                        h.title.write_fueled(w, document, fuel - 1, plain);
                                    }
                                },
                                crate::blocks::BlockKind::Table(t) => {
                                    w.push_str("table ");
                                    if t.numbered {
                                        let dn = crate::strutil::fmt_usize(t.number);
                                        w.push_str(dn.as_str());
                                    } else {
                                        t.title.write_fueled(w, document, fuel - 1, plain);
                                    }
                                },
                                crate::blocks::BlockKind::Gloss(g) => {
                                    w.push_str("gloss ");
                                    if g.numbered {
                                        let dn = crate::strutil::fmt_usize(g.number);
                                        w.push_str(dn.as_str());
                                    } else {
                                        g.title.write_fueled(w, document, fuel - 1, plain);
                                    }
                                },
                                _ => {
                                    if plain {
                                        w.push_str("#");
                                        crate::html::encode_into(w, id.as_str());
                                    } else {
                                        w.push_str("<span class=\"unreferenceable-block\">#");
                                        crate::html::encode_into(w, id.as_str());
                                        w.push_str("</span>");
                                    }
                                },
                            }
                        } else {
                            write_missing_reference(w, id, plain);
                        }
                    },
                }
            }
        },
        InlineType::Replace(key) => {
            if fuel == 0 {
                write_missing_replace(w, key, plain);
            } else {
                match document.replacements.get(key.as_str()) {
                    Option::Some(t) => {
                        t.write_fueled(w, document, fuel - 1, plain);
                    },
                    Option::None => {
                        write_missing_replace(w, key, plain);
                    },
                }
            }
        },
    }
}

/// One element with its tag around its content.
pub open spec fn render_wrapped(
    v: InlineV,
    doc: crate::document::Document,
    fuel: nat,
    plain: bool,
) -> Seq<char> {
    let inner = render_body_spec(v, doc, fuel, plain);
    if plain {
        inner
    } else {
        match kv_tag(v.kind) {
            Option::None => inner,
            Option::Some(tag) => {
                let open_extra = match v.kind {
                    InlineTypeV::Link { url, .. } => " href=\""@ + crate::html::encode_seq(url)
                        + "\""@,
                    InlineTypeV::Reference(id) => " href=\"#"@ + crate::html::encode_seq(id)
                        + "\""@,
                    _ => Seq::empty(),
                };
                "<"@ + tag + " class=\""@ + crate::html::encode_seq(kv_class(v.kind)) + " "@
                    + crate::html::encode_seq(v.class) + "\""@ + open_extra + ">"@ + inner + "</"@
                    + tag + ">"@
            },
        }
    }
}

/// Rendering one element alone is the wrapped form.
#[verifier::rlimit(100)]
pub proof fn lemma_render_one(
    v: InlineV,
    doc: crate::document::Document,
    fuel: nat,
    plain: bool,
)
    ensures
        render_inlines(seq![v], doc, fuel, plain) == render_wrapped(v, doc, fuel, plain),
{
    assert(seq![v].drop_last() =~= Seq::<InlineV>::empty());
    assert(seq![v].last() == v);
    assert(render_inlines(Seq::<InlineV>::empty(), doc, fuel, plain) == Seq::<char>::empty());
    match v.kind {
        InlineTypeV::Emphasis(_) => {
            assert(render_inlines(seq![v], doc, fuel, plain) =~= render_wrapped(
                v,
                doc,
                fuel,
                plain,
            ));
        },
        InlineTypeV::Strong(_) => {
            assert(render_inlines(seq![v], doc, fuel, plain) =~= render_wrapped(
                v,
                doc,
                fuel,
                plain,
            ));
        },
        InlineTypeV::Italics(_) => {
            assert(render_inlines(seq![v], doc, fuel, plain) =~= render_wrapped(
                v,
                doc,
                fuel,
                plain,
            ));
        },
        InlineTypeV::Bold(_) => {
            assert(render_inlines(seq![v], doc, fuel, plain) =~= render_wrapped(
                v,
                doc,
                fuel,
                plain,
            ));
        },
        InlineTypeV::SmallCaps(_) => {
            assert(render_inlines(seq![v], doc, fuel, plain) =~= render_wrapped(
                v,
                doc,
                fuel,
                plain,
            ));
        },
        InlineTypeV::Span(_) => {
            assert(render_inlines(seq![v], doc, fuel, plain) =~= render_wrapped(
                v,
                doc,
                fuel,
                plain,
            ));
        },
        InlineTypeV::Link { .. } => {
            assert(render_inlines(seq![v], doc, fuel, plain) =~= render_wrapped(
                v,
                doc,
                fuel,
                plain,
            ));
        },
        InlineTypeV::Lit(_) => {
            assert(render_inlines(seq![v], doc, fuel, plain) =~= render_wrapped(
                v,
                doc,
                fuel,
                plain,
            ));
        },
        InlineTypeV::Reference(_) => {
            assert(render_inlines(seq![v], doc, fuel, plain) =~= render_wrapped(
                v,
                doc,
                fuel,
                plain,
            ));
        },
        InlineTypeV::Replace(_) => {
            assert(render_inlines(seq![v], doc, fuel, plain) =~= render_wrapped(
                v,
                doc,
                fuel,
                plain,
            ));
        },
    }
}

/// The content of one inline element, without its tag.
pub open spec fn render_body_spec(
    v: InlineV,
    doc: crate::document::Document,
    fuel: nat,
    plain: bool,
) -> Seq<char> {
    match v.kind {
        InlineTypeV::Emphasis(t) => render_inlines(t, doc, fuel, plain),
        InlineTypeV::Strong(t) => render_inlines(t, doc, fuel, plain),
        InlineTypeV::Italics(t) => render_inlines(t, doc, fuel, plain),
        InlineTypeV::Bold(t) => render_inlines(t, doc, fuel, plain),
        InlineTypeV::SmallCaps(t) => render_inlines(t, doc, fuel, plain),
        InlineTypeV::Span(t) => render_inlines(t, doc, fuel, plain),
        InlineTypeV::Link { title, .. } => render_inlines(title, doc, fuel, plain),
        InlineTypeV::Lit(s) => crate::html::encode_seq(s),
        InlineTypeV::Reference(id) => {
            if fuel == 0 {
                render_missing_reference(id, plain)
            } else {
                match crate::document::id_lookup(doc.ids@, id) {
                    Option::None => render_missing_reference(id, plain),
                    Option::Some(b) => {
                        if 0 <= b < doc.blocks@.len() {
                            match doc.blocks@[b].kind {
                                crate::blocks::BlockKind::Heading(h) => "section "@ + (
                                if h.numbered && h.toc {
                                    dotted_number(h.number@)
                                } else {
                                    render_inlines(
                                        view_inlines(h.title.0@),
                                        doc,
                                        (fuel - 1) as nat,
                                        plain,
                                    )
                                }),
                                crate::blocks::BlockKind::Table(t) => "table "@ + (
                                if t.numbered {
                                    crate::strutil::dec_seq(t.number as nat)
                                } else {
                                    render_inlines(
                                        view_inlines(t.title.0@),
                                        doc,
                                        (fuel - 1) as nat,
                                        plain,
                                    )
                                }),
                                crate::blocks::BlockKind::Gloss(g) => "gloss "@ + (
                                if g.numbered {
                                    crate::strutil::dec_seq(g.number as nat)
                                } else {
                                    render_inlines(
                                        view_inlines(g.title.0@),
                                        doc,
                                        (fuel - 1) as nat,
                                        plain,
                                    )
                                }),
                                _ => render_unreferenceable(id, plain),
                            }
                        } else {
                            render_missing_reference(id, plain)
                        }
                    },
                }
            }
        },
        InlineTypeV::Replace(key) => {
            if fuel == 0 {
                render_missing_replace(key, plain)
            } else if doc.replacements.contains_key(key) {
                render_inlines(doc.replacements.value_of(key), doc, (fuel - 1) as nat, plain)
            } else {
                render_missing_replace(key, plain)
            }
        },
    }
}

/// Marks a reference whose target does not exist.
fn write_missing_reference(w: &mut String, id: &String, plain: bool)
    ensures
        final(w)@ == old(w)@ + render_missing_reference(id@, plain),
{
    if plain {
        w.push_str("#");
        crate::html::encode_into(w, id.as_str());
    } else {
        w.push_str("<span class=\"undefined-reference\">#");
        crate::html::encode_into(w, id.as_str());
        w.push_str("</span>");
    }
    proof {
        assert(final(w)@ =~= old(w)@ + render_missing_reference(id@, plain));
    }
}

/// Marks a replacement key that has no recorded expansion.
fn write_missing_replace(w: &mut String, key: &String, plain: bool)
    ensures
        final(w)@ == old(w)@ + render_missing_replace(key@, plain),
{
    if plain {
        w.push_str(":");
        crate::html::encode_into(w, key.as_str());
        w.push_str(":");
    } else {
        w.push_str("<span class=\"undefined-replace\">:");
        crate::html::encode_into(w, key.as_str());
        w.push_str(":</span>");
    }
    proof {
        assert(final(w)@ =~= old(w)@ + render_missing_replace(key@, plain));
    }
}

} // verus!

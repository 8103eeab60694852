use vstd::prelude::*;
use crate::blocks::{Block, BlockCommon, BlockKind};
use crate::blocks::control::DocumentControl;
use crate::blocks::heading::{FillerHeading, Heading, SectionList};
use crate::blocks::replacements::Replacements;
use crate::errors::{ErrorKind, EResult};
use crate::strutil::{dec_seq, fmt_usize, join_with, spec_join};

verus! {

/// One registered id and the block it names.
#[derive(Debug)]
pub struct IdEntry {
    pub key: String,
    pub index: usize,
}

/// The block index the first entry with key `k` records, if any.
pub open spec fn id_lookup(entries: Seq<IdEntry>, k: Seq<char>) -> Option<int>
    decreases entries.len(),
{
    if entries.len() == 0 {
        None
    } else if entries[0].key@ == k {
        Some(entries[0].index as int)
    } else {
        id_lookup(entries.drop_first(), k)
    }
}

/// The auto-generated id for the `n`-th block without one.
pub open spec fn noid_seq(n: nat) -> Seq<char> {
    "__no-id-"@ + dec_seq(n)
}

/// The id derived for a numbered heading: its dotted number joined with
/// dashes after `sec-`.
pub open spec fn sec_id_seq(nums: Seq<usize>) -> Seq<char> {
    "sec-"@ + spec_join(Seq::new(nums.len(), |i: int| dec_seq(nums[i] as nat)), "-"@)
}

/// The whole document state: the block list, the section tree, the id and
/// replacement maps, numbering counters, and the control fields.
#[derive(Debug)]
pub struct Document {
    pub blocks: Vec<Block>,
    pub sections: SectionList,
    pub ids: Vec<IdEntry>,
    pub replacements: Replacements,
    pub tables: Vec<usize>,
    pub glosses: Vec<usize>,
    pub table_number: usize,
    pub gloss_number: usize,
    pub noid_index: usize,
    pub title: Option<usize>,
    pub author: Option<usize>,
    pub description: Option<usize>,
    pub stylesheets: Vec<usize>,
    pub lang: Option<usize>,
}

impl Document {
    /// Whether `i` is the index of a heading-like block.
    pub open spec fn hl_at(&self, i: int) -> bool {
        0 <= i < self.blocks@.len() && self.blocks@[i].is_heading_like()
    }

    /// The child list owned by `curr`: the root list when `curr` is
    /// nothing, otherwise the children of the block it names.
    pub open spec fn list_at(&self, curr: Option<usize>) -> SectionList {
        match curr {
            Option::None => self.sections,
            Option::Some(b) => self.blocks@[b as int].kind.hl_children(),
        }
    }

    /// Whether `curr` names the root list or a valid heading-like block.
    pub open spec fn curr_ok(&self, curr: Option<usize>) -> bool {
        match curr {
            Option::None => true,
            Option::Some(b) => self.hl_at(b as int),
        }
    }

    /// A section list is sound: every entry names a heading-like block of
    /// exactly the list's level, and the child counter is bounded.
    pub open spec fn list_ok(&self, l: SectionList) -> bool {
        &&& forall|k: int|
            0 <= k < l.headings@.len() ==> #[trigger] self.hl_at(l.headings@[k] as int)
                && self.blocks@[l.headings@[k] as int].kind.hl_level() == l.level
        &&& l.last_child_number <= self.blocks@.len()
    }

    /// A section list is sound but may also hold one pending entry: the
    /// index `idx`, to be filled by a block at level `lvl`.
    pub open spec fn list_ok_pending(&self, l: SectionList, idx: int, lvl: int) -> bool {
        &&& forall|k: int|
            0 <= k < l.headings@.len() ==> (#[trigger] l.headings@[k] as int == idx && l.level
                == lvl) || (self.hl_at(l.headings@[k] as int)
                && self.blocks@[l.headings@[k] as int].kind.hl_level() == l.level)
        &&& l.last_child_number <= self.blocks@.len() + 1
    }

    /// Well-formedness of the id map and the counters.
    pub open spec fn ids_ok(&self) -> bool {
        &&& forall|i: int, j: int|
            0 <= i < j < self.ids@.len() ==> #[trigger] self.ids@[i].key@
                != #[trigger] self.ids@[j].key@
        &&& forall|i: int|
            0 <= i < self.ids@.len() ==> #[trigger] self.ids@[i].index < self.blocks@.len()
        &&& self.replacements.wf()
        &&& self.table_number <= self.blocks@.len()
        &&& self.gloss_number <= self.blocks@.len()
        &&& self.noid_index <= self.blocks@.len()
    }

    /// The tree part of the invariant: the root list is at level 1, every
    /// section list is sound, and every heading-like block owns a sound
    /// child list one level below itself.
    pub open spec fn tree_wf(&self) -> bool {
        &&& self.sections.level == 1
        &&& self.list_ok(self.sections)
        &&& forall|i: int|
            #[trigger] self.hl_at(i) ==> self.blocks@[i].kind.hl_level() >= 1
                && self.blocks@[i].kind.hl_children().level == self.blocks@[i].kind.hl_level() + 1
                && self.list_ok(self.blocks@[i].kind.hl_children())
    }

    /// The document invariant: the tree is sound, ids are unique, and
    /// counters are bounded.
    pub open spec fn wf(&self) -> bool {
        &&& self.tree_wf()
        &&& self.ids_ok()
    }

    /// The invariant, except that one pending index `idx` (the block about
    /// to be appended, at heading level `lvl`) may appear in section lists.
    /// The tree part of the invariant with one pending entry allowed.
    pub open spec fn tree_wf_pending(&self, idx: int, lvl: int) -> bool {
        &&& self.sections.level == 1
        &&& self.list_ok_pending(self.sections, idx, lvl)
        &&& forall|i: int|
            #[trigger] self.hl_at(i) ==> self.blocks@[i].kind.hl_level() >= 1
                && self.blocks@[i].kind.hl_children().level == self.blocks@[i].kind.hl_level() + 1
                && self.list_ok_pending(self.blocks@[i].kind.hl_children(), idx, lvl)
    }

    /// The invariant, except that one pending index `idx` (the block about
    /// to be appended, at heading level `lvl`) may appear in section
    /// lists, and the counters may run one ahead.
    pub open spec fn pending_wf(&self, idx: int, lvl: int) -> bool {
        &&& self.tree_wf_pending(idx, lvl)
        &&& forall|i: int, j: int|
            0 <= i < j < self.ids@.len() ==> #[trigger] self.ids@[i].key@
                != #[trigger] self.ids@[j].key@
        &&& forall|i: int|
            0 <= i < self.ids@.len() ==> #[trigger] self.ids@[i].index < self.blocks@.len() + 1
        &&& self.replacements.wf()
        &&& self.table_number <= self.blocks@.len() + 1
        &&& self.gloss_number <= self.blocks@.len() + 1
        &&& self.noid_index <= self.blocks@.len() + 1
    }

    /// The cursor whose child list sits at level `k` along the chain of
    /// last children: the root for level 1, then always the last child.
    pub open spec fn chain_curr(&self, k: int) -> Option<Option<usize>>
        decreases k,
    {
        if k <= 0 {
            None
        } else if k == 1 {
            Some(None)
        } else {
            match self.chain_curr(k - 1) {
                Option::None => None,
                Option::Some(c) => {
                    let l = self.list_at(c);
                    if l.headings@.len() == 0 {
                        None
                    } else {
                        Some(Some(l.headings@.last()))
                    }
                },
            }
        }
    }

    /// The section list at level `k` along the chain of last children.
    pub open spec fn chain_list(&self, k: int) -> Option<SectionList> {
        match self.chain_curr(k) {
            Option::Some(c) => Some(self.list_at(c)),
            Option::None => None,
        }
    }

    /// The numbered-children count the chain records at level `k`; 0 when
    /// the chain does not reach that level.
    pub open spec fn level_num(&self, k: int) -> int {
        match self.chain_list(k) {
            Option::Some(l) => l.last_child_number as int,
            Option::None => 0,
        }
    }

    /// The number the next numbered heading inserted at level `k` gets as
    /// its last component.
    pub open spec fn next_child_num(&self, k: int) -> int {
        self.level_num(k) + 1
    }

    /// The dotted number a numbered heading of the given level receives:
    /// the chain counters of its ancestors, then one more than its
    /// parent's counter.
    pub open spec fn assigned_number(&self, level: int) -> Seq<int> {
        Seq::new(
            level as nat,
            |j: int|
                if j == level - 1 {
                    self.level_num(j + 1) + 1
                } else {
                    self.level_num(j + 1)
                },
        )
    }

    /// The counter an unnumbered heading of the given level inherits for
    /// its own child list: its immediate elder sibling's child count, and
    /// 0 where the chain needs a filler to reach the level or the parent
    /// list is empty.
    pub open spec fn elder_counter(&self, level: int) -> int {
        if self.usable_depth(level) == level {
            match self.chain_list(level) {
                Option::Some(pl) => if pl.headings@.len() > 0 {
                    self.blocks@[pl.headings@.last() as int].kind.hl_children().last_child_number as int
                } else {
                    0
                },
                Option::None => 0,
            }
        } else {
            0
        }
    }

    /// The deepest level, at most `cap`, the chain of last children
    /// reaches.
    pub open spec fn usable_depth(&self, cap: int) -> int
        decreases cap,
    {
        if cap <= 0 {
            0
        } else if self.chain_curr(cap) is Some {
            cap
        } else {
            self.usable_depth(cap - 1)
        }
    }

    /// An empty document.
    pub fn new() -> (r: Document)
        ensures
            r.wf(),
            r.blocks@.len() == 0,
            r.sections.headings@.len() == 0,
            r.sections.last_child_number == 0,
            r.ids@.len() == 0,
            r.replacements.spec_len() == 0,
            r.tables@.len() == 0,
            r.glosses@.len() == 0,
            r.table_number == 0,
            r.gloss_number == 0,
            r.noid_index == 0,
            r.title is None,
            r.author is None,
            r.description is None,
            r.stylesheets@.len() == 0,
            r.lang is None,
    {
        Document {
            blocks: Vec::new(),
            sections: SectionList::new(1),
            ids: Vec::new(),
            replacements: Replacements::new(),
            tables: Vec::new(),
            glosses: Vec::new(),
            table_number: 0,
            gloss_number: 0,
            noid_index: 0,
            title: None,
            author: None,
            description: None,
            stylesheets: Vec::new(),
            lang: None,
        }
    }
}

impl Default for Document {
    /// An empty document.
    fn default() -> (r: Document)
        ensures
            r.wf(),
            r.blocks@.len() == 0,
    {
        Document::new()
    }
}

impl Document {
    /// The level of the child list `curr` owns.
    fn list_level(&self, curr: Option<usize>) -> (r: usize)
        requires
            self.curr_ok(curr),
        ensures
            r == self.list_at(curr).level,
    {
        match curr {
            Option::None => self.sections.level,
            Option::Some(b) => {
                match &self.blocks[b].kind {
                    BlockKind::Heading(h) => h.children.level,
                    BlockKind::Filler(f) => f.children.level,
                    _ => {
                        proof {
                            assert(false);
                        }
                        0
                    },
                }
            },
        }
    }

    /// The numbered-children counter of the list `curr` owns.
    fn list_lcn(&self, curr: Option<usize>) -> (r: usize)
        requires
            self.curr_ok(curr),
        ensures
            r == self.list_at(curr).last_child_number,
    {
        match curr {
            Option::None => self.sections.last_child_number,
            Option::Some(b) => {
                match &self.blocks[b].kind {
                    BlockKind::Heading(h) => h.children.last_child_number,
                    BlockKind::Filler(f) => f.children.last_child_number,
                    _ => {
                        proof {
                            assert(false);
                        }
                        0
                    },
                }
            },
        }
    }

    /// How many children the list `curr` owns has.
    fn list_len(&self, curr: Option<usize>) -> (r: usize)
        requires
            self.curr_ok(curr),
        ensures
            r == self.list_at(curr).headings@.len(),
    {
        match curr {
            Option::None => self.sections.headings.len(),
            Option::Some(b) => {
                match &self.blocks[b].kind {
                    BlockKind::Heading(h) => h.children.headings.len(),
                    BlockKind::Filler(f) => f.children.headings.len(),
                    _ => {
                        proof {
                            assert(false);
                        }
                        0
                    },
                }
            },
        }
    }

    /// The last child of the list `curr` owns, if it has one.
    fn list_last(&self, curr: Option<usize>) -> (r: Option<usize>)
        requires
            self.curr_ok(curr),
        ensures
            ({
                let l = self.list_at(curr);
                if l.headings@.len() == 0 {
                    r is None
                } else {
                    r == Some(l.headings@.last())
                }
            }),
    {
        match curr {
            Option::None => {
                if self.sections.headings.len() == 0 {
                    None
                } else {
                    Some(self.sections.headings[self.sections.headings.len() - 1])
                }
            },
            Option::Some(b) => {
                match &self.blocks[b].kind {
                    BlockKind::Heading(h) => {
                        if h.children.headings.len() == 0 {
                            None
                        } else {
                            Some(h.children.headings[h.children.headings.len() - 1])
                        }
                    },
                    BlockKind::Filler(f) => {
                        if f.children.headings.len() == 0 {
                            None
                        } else {
                            Some(f.children.headings[f.children.headings.len() - 1])
                        }
                    },
                    _ => {
                        proof {
                            assert(false);
                        }
                        None
                    },
                }
            },
        }
    }

    /// Records `index` as a child in the list `curr` owns.
    fn list_push_at(&mut self, curr: Option<usize>, index: usize, numbered: bool)
        requires
            old(self).curr_ok(curr),
            numbered ==> old(self).list_at(curr).last_child_number < usize::MAX,
        ensures
            final(self).list_at(curr).headings@ == old(self).list_at(curr).headings@.push(index),
            final(self).list_at(curr).last_child_number == old(self).list_at(
                curr,
            ).last_child_number + (if numbered {
                1int
            } else {
                0int
            }),
            final(self).list_at(curr).level == old(self).list_at(curr).level,
            match curr {
                Option::None => final(self).blocks == old(self).blocks && final(self).sections
                    == final(self).list_at(curr),
                Option::Some(b) => final(self).sections == old(self).sections && final(self).blocks@.len() == old(self).blocks@.len() && (forall|i: int|
                    0 <= i < old(self).blocks@.len() && i != b as int
                        ==> #[trigger] final(self).blocks@[i] == old(self).blocks@[i]) && final(self).blocks@[b as int].common == old(self).blocks@[b as int].common && final(self).blocks@[b as int].is_heading_like() == old(self).blocks@[b as int].is_heading_like()
                    && final(self).blocks@[b as int].kind.hl_level() == old(self).blocks@[b as int].kind.hl_level()
                    && final(self).blocks@[b as int].kind.hl_children() == final(self).list_at(curr)
                    && (old(self).blocks@[b as int].kind is Heading ==> final(self).blocks@[b as int].kind is Heading)
                    && (old(self).blocks@[b as int].kind is Filler ==> final(self).blocks@[b as int].kind is Filler),
            },
            final(self).ids == old(self).ids,
            final(self).replacements == old(self).replacements,
            final(self).tables == old(self).tables,
            final(self).glosses == old(self).glosses,
            final(self).table_number == old(self).table_number,
            final(self).gloss_number == old(self).gloss_number,
            final(self).noid_index == old(self).noid_index,
            final(self).title == old(self).title,
            final(self).author == old(self).author,
            final(self).description == old(self).description,
            final(self).stylesheets == old(self).stylesheets,
            final(self).lang == old(self).lang,
    {
        match curr {
            Option::None => {
                self.sections.push(index, numbered);
            },
            Option::Some(b) => {
                let blk = &mut self.blocks[b];
                match &mut blk.kind {
                    BlockKind::Heading(h) => {
                        h.children.push(index, numbered);
                    },
                    BlockKind::Filler(f) => {
                        f.children.push(index, numbered);
                    },
                    _ => {
                        proof {
                            assert(false);
                        }
                    },
                }
            },
        }
    }
}

/// Along the chain, every cursor is valid and owns the list of its level.
pub proof fn lemma_chain_valid(doc: Document, k: int)
    requires
        doc.tree_wf(),
        k >= 1,
    ensures
        doc.chain_curr(k) matches Some(c) ==> doc.curr_ok(c) && doc.list_at(c).level == k && (
        c matches Some(b) ==> doc.hl_at(b as int) && doc.blocks@[b as int].kind.hl_level() == k
            - 1),
    decreases k,
{
    if k > 1 {
        lemma_chain_valid(doc, k - 1);
        match doc.chain_curr(k - 1) {
            Option::Some(c) => {
                let l = doc.list_at(c);
                if l.headings@.len() > 0 {
                    assert(doc.list_ok(l));
                    assert(doc.hl_at(l.headings@[l.headings@.len() - 1] as int));
                }
            },
            Option::None => {},
        }
    }
}

/// Once the chain breaks, it stays broken at every deeper level.
pub proof fn lemma_chain_none_deeper(doc: Document, k: int, m: int)
    requires
        1 <= k <= m,
        doc.chain_curr(k) is None,
    ensures
        doc.chain_curr(m) is None,
    decreases m - k,
{
    if m > k {
        lemma_chain_none_deeper(doc, k, m - 1);
    }
}

/// Two documents agree on the chain at level `j`: the cursor is the same
/// and it owns the same list.
pub open spec fn chain_eq_at(d1: Document, d2: Document, j: int) -> bool {
    &&& d2.chain_curr(j) == d1.chain_curr(j)
    &&& match d1.chain_curr(j) {
        Option::Some(c) => d2.list_at(c) == d1.list_at(c),
        Option::None => true,
    }
}

/// Documents with the same sections and blocks have the same usable depth.
pub proof fn lemma_usable_congruent(d1: Document, d2: Document, cap: int)
    requires
        d2.sections == d1.sections,
        d2.blocks == d1.blocks,
    ensures
        d1.usable_depth(cap) == d2.usable_depth(cap),
    decreases cap,
{
    if cap > 0 {
        lemma_chain_congruent(d1, d2, cap);
        lemma_usable_congruent(d1, d2, cap - 1);
    }
}

/// Documents with the same sections and blocks have the same chain.
pub proof fn lemma_chain_congruent(d1: Document, d2: Document, j: int)
    requires
        d2.sections == d1.sections,
        d2.blocks == d1.blocks,
        j >= 1,
    ensures
        chain_eq_at(d1, d2, j),
    decreases j,
{
    if j > 1 {
        lemma_chain_congruent(d1, d2, j - 1);
    }
}

/// Appending blocks leaves the chain untouched where it was valid.
pub proof fn lemma_chain_push_block(d1: Document, d2: Document, j: int)
    requires
        d1.tree_wf(),
        d2.sections == d1.sections,
        d2.blocks@.len() >= d1.blocks@.len(),
        forall|i: int| 0 <= i < d1.blocks@.len() ==> #[trigger] d2.blocks@[i] == d1.blocks@[i],
        j >= 1,
    ensures
        chain_eq_at(d1, d2, j),
    decreases j,
{
    lemma_chain_valid(d1, j);
    if j > 1 {
        lemma_chain_push_block(d1, d2, j - 1);
        lemma_chain_valid(d1, j - 1);
    }
}

/// Updating the list a chain cursor at level `kk` owns leaves the chain
/// untouched at every shallower level, and the cursor itself in place.
pub proof fn lemma_chain_update_list(
    d1: Document,
    d2: Document,
    curr: Option<usize>,
    kk: int,
    j: int,
)
    requires
        d1.tree_wf(),
        1 <= j <= kk,
        d1.chain_curr(kk) == Some(curr),
        match curr {
            Option::None => d2.blocks == d1.blocks,
            Option::Some(b) => d2.sections == d1.sections && d2.blocks@.len()
                == d1.blocks@.len() && (forall|i: int|
                0 <= i < d1.blocks@.len() && i != b as int ==> #[trigger] d2.blocks@[i]
                    == d1.blocks@[i]),
        },
    ensures
        j < kk ==> chain_eq_at(d1, d2, j),
        d2.chain_curr(j) == d1.chain_curr(j),
    decreases j,
{
    lemma_chain_valid(d1, kk);
    if curr is None {
        assert(kk == 1) by {
            if kk > 1 {
                assert(d1.chain_curr(kk) matches Some(c) && c is Some);
            }
        }
        assert(j == 1);
    } else {
        let b = curr->0;
        assert(d1.blocks@[b as int].kind.hl_level() == kk - 1);
        if j == 1 {
            if j < kk {
                assert(d2.list_at(None) == d1.list_at(None));
            }
        } else {
            lemma_chain_update_list(d1, d2, curr, kk, j - 1);
            lemma_chain_valid(d1, j - 1);
            match d1.chain_curr(j - 1) {
                Option::Some(c) => {
                    let l = d1.list_at(c);
                    if l.headings@.len() > 0 {
                        let e = l.headings@.last();
                        assert(d1.list_ok(l));
                        assert(d1.hl_at(e as int));
                        assert(d1.blocks@[e as int].kind.hl_level() == j - 1);
                        if j < kk {
                            assert(e as int != b as int);
                            assert(d2.blocks@[e as int] == d1.blocks@[e as int]);
                        }
                    }
                },
                Option::None => {},
            }
        }
    }
}

/// The chain reaches level `k`, so the usable depth up to `cap` is at
/// least `k`.
pub proof fn lemma_usable_at_least(doc: Document, k: int, cap: int)
    requires
        1 <= k <= cap,
        doc.chain_curr(k) is Some,
    ensures
        doc.usable_depth(cap) >= k,
    decreases cap - k,
{
    if cap > k {
        if doc.chain_curr(cap) is Some {
        } else {
            lemma_usable_at_least(doc, k, cap - 1);
        }
    }
}

/// The usable depth never exceeds its cap and never goes negative.
pub proof fn lemma_usable_le(doc: Document, cap: int)
    requires
        cap >= 0,
    ensures
        doc.usable_depth(cap) <= cap,
        doc.usable_depth(cap) >= 0,
    decreases cap,
{
    if cap > 0 {
        lemma_usable_le(doc, cap - 1);
    }
}

/// The chain is broken above level `m`, so the usable depth is at most
/// `m`.
pub proof fn lemma_usable_at_most(doc: Document, m: int, cap: int)
    requires
        1 <= m,
        doc.chain_curr(m + 1) is None,
    ensures
        doc.usable_depth(cap) <= m,
    decreases cap,
{
    if cap > m {
        lemma_chain_none_deeper(doc, m + 1, cap);
        lemma_usable_at_most(doc, m, cap - 1);
    } else if cap >= 0 {
        lemma_usable_le(doc, cap);
    }
}

/// The usable depth reaches a level the chain reaches, and the chain
/// breaks right above it when it is below the cap.
pub proof fn lemma_usable_props(doc: Document, cap: int)
    requires
        1 <= cap,
        doc.chain_curr(1) is Some,
    ensures
        1 <= doc.usable_depth(cap) <= cap,
        doc.chain_curr(doc.usable_depth(cap)) is Some,
        doc.usable_depth(cap) < cap ==> doc.chain_curr(doc.usable_depth(cap) + 1) is None,
    decreases cap,
{
    if cap == 1 {
    } else {
        if doc.chain_curr(cap) is Some {
        } else {
            lemma_usable_props(doc, cap - 1);
        }
    }
}

/// The view of a number sequence as mathematical integers.
pub open spec fn nums_view(v: Seq<usize>) -> Seq<int> {
    Seq::new(v.len(), |i: int| v[i] as int)
}


/// After recording a child in the list a valid cursor owns, the document
/// is still well-formed, provided the child names a heading-like block of
/// the list's level; or, when the child is the pending index `idx`, the
/// document is well-formed up to that pending entry.
pub proof fn lemma_wf_after_child_push(
    d1: Document,
    d2: Document,
    curr: Option<usize>,
    index: usize,
    pending: bool,
    lvl: int,
)
    requires
        d1.wf(),
        d1.curr_ok(curr),
        d2.list_at(curr).headings@ == d1.list_at(curr).headings@.push(index),
        d2.list_at(curr).level == d1.list_at(curr).level,
        d2.list_at(curr).last_child_number <= d2.blocks@.len() + 1,
        !pending ==> d2.list_at(curr).last_child_number <= d2.blocks@.len(),
        d1.list_at(curr).level == lvl,
        pending ==> index as int == d2.blocks@.len(),
        !pending ==> d2.hl_at(index as int) && d2.blocks@[index as int].kind.hl_level() == lvl,
        d1.ids == d2.ids,
        d1.replacements == d2.replacements,
        d1.table_number == d2.table_number,
        d1.gloss_number == d2.gloss_number,
        d1.noid_index == d2.noid_index,
        d2.blocks@.len() == d1.blocks@.len(),
        d2.sections.level == d1.sections.level,
        match curr {
            Option::None => d2.blocks == d1.blocks,
            Option::Some(b) => d2.sections == d1.sections && (forall|i: int|
                0 <= i < d1.blocks@.len() && i != b as int ==> #[trigger] d2.blocks@[i]
                    == d1.blocks@[i]) && d2.blocks@[b as int].is_heading_like()
                == d1.blocks@[b as int].is_heading_like() && d2.blocks@[b as int].kind.hl_level()
                == d1.blocks@[b as int].kind.hl_level() && d2.blocks@[b as int].kind.hl_children()
                == d2.list_at(curr),
        },
    ensures
        pending ==> d2.pending_wf(index as int, lvl),
        !pending ==> d2.wf(),
{
    // every block keeps its heading-like shape and level
    assert forall|e: int| d1.hl_at(e) implies #[trigger] d2.hl_at(e)
        && d2.blocks@[e].kind.hl_level() == d1.blocks@[e].kind.hl_level() by {
        match curr {
            Option::None => {},
            Option::Some(b) => {
                if e != b as int {
                    assert(d2.blocks@[e] == d1.blocks@[e]);
                }
            },
        }
    }
    assert forall|e: int| d2.hl_at(e) implies #[trigger] d1.hl_at(e) by {
        match curr {
            Option::None => {},
            Option::Some(b) => {
                if e != b as int {
                    assert(d2.blocks@[e] == d1.blocks@[e]);
                }
            },
        }
    }
    // a list that was sound, and did not change, stays sound (as pending)
    assert forall|i: int| #[trigger] d2.hl_at(i) implies d2.blocks@[i].kind.hl_level() >= 1
        && d2.blocks@[i].kind.hl_children().level == d2.blocks@[i].kind.hl_level() + 1
        && d2.list_ok_pending(d2.blocks@[i].kind.hl_children(), index as int, lvl) && (!pending
        ==> d2.list_ok(d2.blocks@[i].kind.hl_children())) by {
        assert(d1.hl_at(i));
        let l1 = d1.blocks@[i].kind.hl_children();
        let l2 = d2.blocks@[i].kind.hl_children();
        assert(d1.list_ok(l1));
        let changed = (curr matches Option::Some(b) && i == b as int);
        if changed {
            assert(l2.headings@ == l1.headings@.push(index));
            assert forall|kk: int| 0 <= kk < l2.headings@.len() implies ((
            #[trigger] l2.headings@[kk] as int == index as int && l2.level == lvl) || (d2.hl_at(
                l2.headings@[kk] as int,
            ) && d2.blocks@[l2.headings@[kk] as int].kind.hl_level() == l2.level)) by {
                if kk < l1.headings@.len() {
                    assert(l2.headings@[kk] == l1.headings@[kk]);
                    assert(d1.hl_at(l1.headings@[kk] as int));
                } else {
                    assert(l2.headings@[kk] == index);
                }
            }
            if !pending {
                assert forall|kk: int| 0 <= kk < l2.headings@.len() implies #[trigger] d2.hl_at(
                    l2.headings@[kk] as int,
                ) && d2.blocks@[l2.headings@[kk] as int].kind.hl_level() == l2.level by {
                    if kk < l1.headings@.len() {
                        assert(d1.hl_at(l1.headings@[kk] as int));
                    }
                }
            }
        } else {
            assert(l2 == l1);
            assert forall|kk: int| 0 <= kk < l2.headings@.len() implies #[trigger] d2.hl_at(
                l2.headings@[kk] as int,
            ) && d2.blocks@[l2.headings@[kk] as int].kind.hl_level() == l2.level by {
                assert(d1.hl_at(l1.headings@[kk] as int));
            }
        }
    }
    // the root list
    let s1 = d1.sections;
    let s2 = d2.sections;
    assert(d1.list_ok(s1));
    if curr is None {
        assert(s2.headings@ == s1.headings@.push(index));
        assert forall|kk: int| 0 <= kk < s2.headings@.len() implies ((#[trigger] s2.headings@[kk]
            as int == index as int && s2.level == lvl) || (d2.hl_at(s2.headings@[kk] as int)
            && d2.blocks@[s2.headings@[kk] as int].kind.hl_level() == s2.level)) by {
            if kk < s1.headings@.len() {
                assert(d1.hl_at(s1.headings@[kk] as int));
            }
        }
        if !pending {
            assert forall|kk: int| 0 <= kk < s2.headings@.len() implies #[trigger] d2.hl_at(
                s2.headings@[kk] as int,
            ) && d2.blocks@[s2.headings@[kk] as int].kind.hl_level() == s2.level by {
                if kk < s1.headings@.len() {
                    assert(d1.hl_at(s1.headings@[kk] as int));
                }
            }
        }
    } else {
        assert(s2 == s1);
        assert forall|kk: int| 0 <= kk < s2.headings@.len() implies #[trigger] d2.hl_at(
            s2.headings@[kk] as int,
        ) && d2.blocks@[s2.headings@[kk] as int].kind.hl_level() == s2.level by {
            assert(d1.hl_at(s1.headings@[kk] as int));
        }
    }
}

impl Document {
    /// Inserts a heading into the section tree: descends the chain of
    /// last children, creating filler headings where a level is skipped,
    /// assigns the dotted number, derives a `sec-` id for a numbered
    /// heading without one, and records the heading in its parent list.
    /// Returns the block index the heading will occupy once appended.
    fn add_heading(&mut self, heading: &mut Heading, common: &mut BlockCommon) -> (r: EResult<
        usize,
    >)
        requires
            old(self).wf(),
            old(heading).number@ == Seq::<usize>::empty(),
            old(heading).children.headings@ == Seq::<usize>::empty(),
            old(heading).children.last_child_number == 0,
            old(heading).children.level == old(heading).level + 1,
            1 <= old(heading).level,
            old(self).blocks@.len() + old(heading).level + 2 <= usize::MAX,
        ensures
            r matches Ok(idx) && idx == final(self).blocks@.len(),
            final(self).pending_wf(final(self).blocks@.len() as int, old(heading).level as int),
            final(self).blocks@.len() == old(self).blocks@.len() + old(heading).level as int
                - old(self).usable_depth(old(heading).level as int),
            forall|i: int|
                0 <= i < old(self).blocks@.len() && !old(self).hl_at(i)
                    ==> #[trigger] final(self).blocks@[i] == old(self).blocks@[i],
            final(self).ids == old(self).ids,
            final(self).replacements == old(self).replacements,
            final(self).tables == old(self).tables,
            final(self).glosses == old(self).glosses,
            final(self).table_number == old(self).table_number,
            final(self).gloss_number == old(self).gloss_number,
            final(self).noid_index == old(self).noid_index,
            final(self).title == old(self).title,
            final(self).author == old(self).author,
            final(self).description == old(self).description,
            final(self).stylesheets == old(self).stylesheets,
            final(self).lang == old(self).lang,
            final(heading).level == old(heading).level,
            final(heading).numbered == old(heading).numbered,
            final(heading).toc == old(heading).toc,
            final(heading).title == old(heading).title,
            final(heading).children.headings@ == Seq::<usize>::empty(),
            final(heading).children.level == old(heading).level + 1,
            final(heading).children.last_child_number <= final(self).blocks@.len(),
            !(old(heading).numbered && old(heading).toc)
                ==> final(heading).children.last_child_number as int == old(self).elder_counter(
                old(heading).level as int,
            ),
            ({
                let l = old(heading).level as int;
                let numbered = old(heading).numbered && old(heading).toc;
                &&& (numbered ==> nums_view(final(heading).number@) == old(self).assigned_number(
                    l,
                ))
                &&& (!numbered ==> final(heading).number@ == Seq::<usize>::empty())
                &&& (forall|j: int|
                    1 <= j < l ==> #[trigger] final(self).next_child_num(j) == old(self).next_child_num(j))
                &&& final(self).next_child_num(l) == old(self).next_child_num(l) + (if numbered {
                    1int
                } else {
                    0int
                })
                &&& final(self).chain_curr(l) is Some
            }),
            final(common).start_line == old(common).start_line,
            ({
                let numbered = old(heading).numbered && old(heading).toc;
                if numbered && old(common).id@.len() == 0 {
                    final(common).id@ == sec_id_seq(final(heading).number@) && final(common).class
                        == old(common).class
                } else {
                    *final(common) == *old(common)
                }
            }),
    {
        let ghost doc0 = *self;
        let ghost lvl = old(heading).level as int;
        let ghost numbered0 = old(heading).numbered && old(heading).toc;
        let mut idx: usize = self.blocks.len();
        let mut curr: Option<usize> = None;
        proof {
            lemma_usable_at_least(doc0, 1, lvl);
            lemma_usable_le(doc0, lvl);
            lemma_usable_props(doc0, lvl);
            if numbered0 {
                assert(nums_view(heading.number@) =~= Seq::new(
                    0nat,
                    |j: int| doc0.level_num(j + 1),
                ));
            }
        }
        loop
            invariant_except_break
                self.wf(),
                doc0.wf(),
                heading.level == old(heading).level,
                heading.numbered == old(heading).numbered,
                heading.toc == old(heading).toc,
                heading.title == old(heading).title,
                heading.children == old(heading).children,
                1 <= lvl,
                lvl == old(heading).level as int,
                numbered0 == (old(heading).numbered && old(heading).toc),
                doc0.blocks@.len() + lvl + 2 <= usize::MAX,
                self.curr_ok(curr),
                1 <= self.list_at(curr).level <= lvl,
                self.chain_curr(self.list_at(curr).level as int) == Some(curr),
                self.list_at(curr).last_child_number == doc0.level_num(
                    self.list_at(curr).level as int,
                ),
                forall|j: int|
                    1 <= j ==> #[trigger] self.next_child_num(j) == doc0.next_child_num(j),
                numbered0 ==> nums_view(heading.number@) == Seq::new(
                    (self.list_at(curr).level - 1) as nat,
                    |j: int| doc0.level_num(j + 1),
                ),
                !numbered0 ==> heading.number@ == Seq::<usize>::empty(),
                self.blocks@.len() == doc0.blocks@.len() ==> (self.blocks == doc0.blocks
                    && self.sections == doc0.sections && self.list_at(curr).level as int
                    <= doc0.usable_depth(lvl)),
                self.blocks@.len() > doc0.blocks@.len() ==> (self.list_at(curr).level as int
                    > doc0.usable_depth(lvl) && self.blocks@.len() == doc0.blocks@.len() + (
                self.list_at(curr).level as int - doc0.usable_depth(lvl))
                    && self.list_at(curr).headings@.len() == 0),
                self.blocks@.len() >= doc0.blocks@.len(),
                self.blocks@.len() <= doc0.blocks@.len() + lvl,
                doc0.usable_depth(lvl) >= 1,
                forall|i: int|
                    0 <= i < doc0.blocks@.len() ==> #[trigger] self.blocks@[i].is_heading_like()
                        == doc0.blocks@[i].is_heading_like(),
                forall|i: int|
                    0 <= i < doc0.blocks@.len() && !doc0.hl_at(i) ==> #[trigger] self.blocks@[i]
                        == doc0.blocks@[i],
                self.ids == doc0.ids,
                self.replacements == doc0.replacements,
                self.tables == doc0.tables,
                self.glosses == doc0.glosses,
                self.table_number == doc0.table_number,
                self.gloss_number == doc0.gloss_number,
                self.noid_index == doc0.noid_index,
                self.title == doc0.title,
                self.author == doc0.author,
                self.description == doc0.description,
                self.stylesheets == doc0.stylesheets,
                self.lang == doc0.lang,
                idx == self.blocks@.len(),
            ensures
                self.wf(),
                self.curr_ok(curr),
                self.list_at(curr).level == lvl,
                self.chain_curr(lvl) == Some(curr),
                self.list_at(curr).last_child_number == doc0.level_num(lvl),
                forall|j: int|
                    1 <= j ==> #[trigger] self.next_child_num(j) == doc0.next_child_num(j),
                numbered0 ==> nums_view(heading.number@) == Seq::new(
                    (lvl - 1) as nat,
                    |j: int| doc0.level_num(j + 1),
                ),
                !numbered0 ==> heading.number@ == Seq::<usize>::empty(),
                self.blocks@.len() == doc0.blocks@.len() + lvl - doc0.usable_depth(lvl),
                self.blocks@.len() == doc0.blocks@.len() ==> (self.blocks == doc0.blocks
                    && self.sections == doc0.sections),
                self.blocks@.len() > doc0.blocks@.len() ==> self.list_at(
                    curr,
                ).headings@.len() == 0,
                forall|i: int|
                    0 <= i < doc0.blocks@.len() && !doc0.hl_at(i) ==> #[trigger] self.blocks@[i]
                        == doc0.blocks@[i],
                self.ids == doc0.ids,
                self.replacements == doc0.replacements,
                self.tables == doc0.tables,
                self.glosses == doc0.glosses,
                self.table_number == doc0.table_number,
                self.gloss_number == doc0.gloss_number,
                self.noid_index == doc0.noid_index,
                self.title == doc0.title,
                self.author == doc0.author,
                self.description == doc0.description,
                self.stylesheets == doc0.stylesheets,
                self.lang == doc0.lang,
                idx == self.blocks@.len(),
                heading.level == old(heading).level,
                heading.numbered == old(heading).numbered,
                heading.toc == old(heading).toc,
                heading.title == old(heading).title,
                heading.children == old(heading).children,
                doc0.wf(),
                lvl == old(heading).level as int,
                numbered0 == (old(heading).numbered && old(heading).toc),
                doc0.blocks@.len() + lvl + 2 <= usize::MAX,
            decreases lvl - self.list_at(curr).level,
        {
            let k = self.list_level(curr);
            if k >= heading.level {
                proof {
                    if self.blocks@.len() == doc0.blocks@.len() {
                        lemma_usable_le(doc0, lvl);
                        assert(doc0.usable_depth(lvl) == lvl);
                    }
                }
                break ;
            }
            let ghost k_int = k as int;
            let ghost d_pre = *self;
            if self.list_len(curr) == 0 {
                let filler = FillerHeading::new(k + 1);
                let fblock = Block { kind: BlockKind::Filler(filler), common: BlockCommon::new(0) };
                let ghost fbg = fblock;
                self.blocks.push(fblock);
                let ghost d_mid = *self;
                proof {
                    assert(d_mid.blocks@[d_pre.blocks@.len() as int] == fbg);
                    assert(fbg.kind.hl_level() == k_int);
                    assert(fbg.kind.hl_children().level == k_int + 1);
                    assert(fbg.kind.hl_children().headings@.len() == 0);
                    assert forall|j: int| 1 <= j implies chain_eq_at(d_pre, d_mid, j) by {
                        lemma_chain_push_block(d_pre, d_mid, j);
                    }
                    assert(d_mid.wf()) by {
                        assert forall|i: int| #[trigger] d_mid.hl_at(i) implies d_mid.blocks@[i].kind.hl_level()
                            >= 1 && d_mid.blocks@[i].kind.hl_children().level
                            == d_mid.blocks@[i].kind.hl_level() + 1 && d_mid.list_ok(
                            d_mid.blocks@[i].kind.hl_children(),
                        ) by {
                            if i < d_pre.blocks@.len() {
                                assert(d_pre.hl_at(i));
                                assert(d_pre.list_ok(d_pre.blocks@[i].kind.hl_children()));
                                assert forall|kk: int|
                                    0 <= kk < d_mid.blocks@[i].kind.hl_children().headings@.len()
                                        implies #[trigger] d_mid.hl_at(
                                    d_mid.blocks@[i].kind.hl_children().headings@[kk] as int,
                                ) && d_mid.blocks@[d_mid.blocks@[i].kind.hl_children().headings@[kk] as int].kind.hl_level()
                                    == d_mid.blocks@[i].kind.hl_children().level by {
                                    assert(d_pre.hl_at(
                                        d_pre.blocks@[i].kind.hl_children().headings@[kk] as int,
                                    ));
                                }
                            } else {
                                assert(d_mid.blocks@[i] == fbg);
                            }
                        }
                        assert(d_mid.list_ok(d_mid.sections)) by {
                            assert(d_pre.list_ok(d_pre.sections));
                            assert forall|kk: int|
                                0 <= kk < d_mid.sections.headings@.len() implies #[trigger] d_mid.hl_at(
                                d_mid.sections.headings@[kk] as int,
                            ) && d_mid.blocks@[d_mid.sections.headings@[kk] as int].kind.hl_level()
                                == d_mid.sections.level by {
                                assert(d_pre.hl_at(d_pre.sections.headings@[kk] as int));
                            }
                        }
                    }
                    // the old chain is already broken one level deeper
                    assert(d_pre.chain_curr(k_int + 1) is None);
                    if d_pre.blocks@.len() == doc0.blocks@.len() {
                        lemma_chain_congruent(d_pre, doc0, k_int);
                        lemma_chain_congruent(d_pre, doc0, k_int + 1);
                        lemma_usable_at_least(doc0, k_int, lvl);
                        lemma_usable_at_most(doc0, k_int, lvl);
                        assert(doc0.usable_depth(lvl) == k_int);
                    }
                }
                proof {
                    assert(chain_eq_at(d_pre, d_mid, k_int));
                    assert(d_mid.chain_curr(k_int) == Some(curr));
                }
                self.list_push_at(curr, idx, false);
                proof {
                    let d_post = *self;
                    assert forall|j: int| 1 <= j < k_int implies chain_eq_at(d_mid, d_post, j) by {
                        lemma_chain_update_list(d_mid, d_post, curr, k_int, j);
                        assert(d_mid.chain_curr(j) == d_post.chain_curr(j));
                    }
                    lemma_chain_update_list(d_mid, d_post, curr, k_int, k_int);
                    assert(d_post.chain_curr(k_int) == Some(curr));
                    lemma_wf_after_child_push(d_mid, d_post, curr, idx, false, k_int);
                    assert(d_post.wf());
                    // the chain one level deeper now reaches the new filler
                    assert(d_post.chain_curr(k_int + 1) == Some(
                        Some((d_post.blocks@.len() - 1) as usize),
                    ));
                    // counters are untouched at every level
                    assert forall|j: int| 1 <= j implies #[trigger] d_post.next_child_num(j)
                        == d_pre.next_child_num(j) by {
                        if j < k_int {
                            assert(chain_eq_at(d_pre, d_mid, j));
                            assert(chain_eq_at(d_mid, d_post, j));
                        } else if j == k_int {
                            assert(chain_eq_at(d_pre, d_mid, j));
                            assert(d_post.chain_curr(j) == Some(curr));
                            assert(d_post.list_at(curr).last_child_number == d_mid.list_at(
                                curr,
                            ).last_child_number);
                        } else if j == k_int + 1 {
                            lemma_chain_none_deeper(d_pre, k_int + 1, j);
                            assert(d_post.list_at(
                                Some((d_post.blocks@.len() - 1) as usize),
                            ).last_child_number == 0);
                        } else {
                            lemma_chain_none_deeper(d_pre, k_int + 1, j);
                            assert(d_post.list_at(
                                Some((d_post.blocks@.len() - 1) as usize),
                            ).headings@.len() == 0);
                            assert(d_post.chain_curr(k_int + 2) is None);
                            lemma_chain_none_deeper(d_post, k_int + 2, j);
                        }
                    }
                }
                idx = idx + 1;
            }
            let ghost d_now = *self;
            if heading.numbered() {
                let n = self.list_lcn(curr);
                let ghost pre_nums = heading.number@;
                heading.number.push(n);
                proof {
                    assert(heading.number@ == pre_nums.push(n));
                    assert(nums_view(pre_nums).len() == pre_nums.len());
                    assert(nums_view(pre_nums) == Seq::new(
                        (k_int - 1) as nat,
                        |j: int| doc0.level_num(j + 1),
                    ));
                    assert(pre_nums.len() == k_int - 1);
                    assert(d_now.list_at(curr).last_child_number == d_pre.list_at(
                        curr,
                    ).last_child_number);
                    assert(d_pre.list_at(curr).last_child_number == doc0.level_num(k_int));
                    assert(n == doc0.level_num(k_int));
                    assert(heading.number@.len() == k_int);
                    assert forall|j: int| 0 <= j < k_int implies nums_view(heading.number@)[j]
                        == doc0.level_num(j + 1) by {
                        if j < k_int - 1 {
                            assert(heading.number@[j] == pre_nums[j]);
                            assert(nums_view(pre_nums)[j] == doc0.level_num(j + 1));
                        } else {
                            assert(heading.number@[j] == n);
                        }
                    }
                    assert(nums_view(heading.number@) =~= Seq::new(
                        (k_int - 1 + 1) as nat,
                        |j: int| doc0.level_num(j + 1),
                    ));
                }
            }
            let next = self.list_last(curr);
            proof {
                let l = d_now.list_at(curr);
                assert(l.level == k_int);
                assert(l.headings@.len() > 0);
                assert(d_now.list_ok(l));
                let e = l.headings@[l.headings@.len() - 1] as int;
                assert(d_now.hl_at(e));
                assert(d_now.blocks@[e].kind.hl_level() == k_int);
                assert(d_now.blocks@[e].kind.hl_children().level == k_int + 1);
                // the next cursor owns the chain list one level deeper
                assert(d_now.chain_curr(k_int + 1) == Some(next));
                assert(d_now.list_at(next).level == k_int + 1);
                if d_now.blocks@.len() == doc0.blocks@.len() {
                    // nothing was added: the old chain descends here too
                    lemma_chain_congruent(d_now, doc0, k_int + 1);
                    lemma_usable_at_least(doc0, k_int + 1, lvl);
                    assert(doc0.chain_curr(k_int + 1) == Some(next));
                    assert(d_now.list_at(next).last_child_number == doc0.level_num(k_int + 1));
                } else {
                    // a filler was just added: its child list is fresh
                    assert(d_now.list_at(next).last_child_number == 0);
                    assert(d_now.list_at(next).headings@.len() == 0);
                    lemma_usable_props(doc0, lvl);
                    lemma_chain_none_deeper(doc0, doc0.usable_depth(lvl) + 1, k_int + 1);
                    assert(doc0.level_num(k_int + 1) == 0);
                }
            }
            curr = next;
        }
        if !heading.numbered() {
            proof {
                if self.blocks@.len() == doc0.blocks@.len() {
                    assert(doc0.usable_depth(lvl) == lvl);
                    lemma_chain_congruent(*self, doc0, lvl);
                    assert(doc0.chain_curr(lvl) == Some(curr));
                    assert(doc0.list_at(curr) == self.list_at(curr));
                } else {
                    assert(doc0.usable_depth(lvl) < lvl);
                    assert(self.list_at(curr).headings@.len() == 0);
                }
            }
            match self.list_last(curr) {
                Option::Some(older) => {
                    proof {
                        let l = self.list_at(curr);
                        assert(self.list_ok(l));
                        assert(l.headings@.len() > 0);
                        assert(self.hl_at(l.headings@[l.headings@.len() - 1] as int));
                    }
                    proof {
                        assert(self.list_ok(self.list_at(Some(older))));
                        assert(self.blocks@.len() == doc0.blocks@.len());
                        assert(self.blocks@[older as int] == doc0.blocks@[older as int]);
                    }
                    let n = self.list_lcn(Some(older));
                    heading.children.last_child_number = n;
                    proof {
                        assert(heading.children.last_child_number as int == doc0.elder_counter(
                            lvl,
                        ));
                    }
                },
                Option::None => {
                    proof {
                        assert(heading.children.last_child_number as int == doc0.elder_counter(
                            lvl,
                        ));
                    }
                },
            }
        }
        if heading.numbered() {
            let n = self.list_lcn(curr);
            let ghost pre_nums = heading.number@;
            heading.number.push(n + 1);
            proof {
                assert(numbered0);
                assert(nums_view(pre_nums) == Seq::new((lvl - 1) as nat, |j: int| doc0.level_num(j + 1)));
                assert(n == doc0.level_num(lvl));
                assert forall|j: int| 0 <= j < lvl implies nums_view(heading.number@)[j]
                    == doc0.assigned_number(lvl)[j] by {
                    if j < lvl - 1 {
                        assert(nums_view(heading.number@)[j] == nums_view(pre_nums)[j]);
                    }
                }
                assert(nums_view(heading.number@) =~= doc0.assigned_number(lvl));
            }
            if crate::strutil::str_empty(&common.id) {
                let sec = sec_id_of(&heading.number);
                common.id = sec;
            }
        }
        let ghost d_before_final = *self;
        proof {
            assert(d_before_final.chain_curr(lvl) == Some(curr));
        }
        let numbered_now = heading.numbered();
        self.list_push_at(curr, idx, numbered_now);
        proof {
            let d_post = *self;
            assert forall|j: int| 1 <= j < lvl implies chain_eq_at(d_before_final, d_post, j) by {
                lemma_chain_update_list(d_before_final, d_post, curr, lvl, j);
                assert(d_before_final.chain_curr(j) == d_post.chain_curr(j));
            }
            lemma_chain_update_list(d_before_final, d_post, curr, lvl, lvl);
            assert(d_post.chain_curr(lvl) == Some(curr));
            assert forall|j: int| 1 <= j < lvl implies #[trigger] d_post.next_child_num(j)
                == doc0.next_child_num(j) by {
                assert(chain_eq_at(d_before_final, d_post, j));
                assert(d_before_final.next_child_num(j) == doc0.next_child_num(j));
            }
            assert(d_post.list_at(curr).last_child_number == d_before_final.list_at(
                curr,
            ).last_child_number + (if numbered_now {
                1int
            } else {
                0int
            }));
            assert(d_post.next_child_num(lvl) == doc0.next_child_num(lvl) + (if numbered_now {
                1int
            } else {
                0int
            }));
            lemma_wf_after_child_push(d_before_final, d_post, curr, idx, true, lvl);
            assert(d_post.pending_wf(idx as int, lvl));
        }
        Ok(idx)
    }
}

/// Renders a heading number as its dashed `sec-` id.
fn sec_id_of(nums: &Vec<usize>) -> (r: String)
    ensures
        r@ == sec_id_seq(nums@),
{
    let mut sec = String::new();
    sec.push_str("sec-");
    let mut parts: Vec<String> = Vec::new();
    let mut i: usize = 0;
    proof {
        assert(crate::parse::strs_view(parts@) =~= Seq::new(
            0nat,
            |j: int| dec_seq(nums@[j] as nat),
        ));
    }
    while i < nums.len()
        invariant
            i <= nums@.len(),
            crate::parse::strs_view(parts@) == Seq::new(
                i as nat,
                |j: int| dec_seq(nums@[j] as nat),
            ),
        decreases nums@.len() - i,
    {
        let ghost pre_parts = parts@;
        let d = fmt_usize(nums[i]);
        parts.push(d);
        proof {
            assert(parts@ == pre_parts.push(d));
            assert(crate::parse::strs_view(pre_parts).len() == pre_parts.len());
            assert(crate::parse::strs_view(pre_parts) == Seq::new(
                i as nat,
                |j: int| dec_seq(nums@[j] as nat),
            ));
            assert(pre_parts.len() == i as int);
            assert forall|j: int| 0 <= j < parts@.len() implies #[trigger] parts@[j]@ == dec_seq(
                nums@[j] as nat,
            ) by {
                if j < pre_parts.len() {
                    assert(parts@[j] == pre_parts[j]);
                    assert(crate::parse::strs_view(pre_parts)[j] == pre_parts[j]@);
                    assert(Seq::new(i as nat, |jj: int| dec_seq(nums@[jj] as nat))[j] == dec_seq(
                        nums@[j] as nat,
                    ));
                } else {
                    assert(j == pre_parts.len() as int);
                    assert(parts@[j] == d);
                }
            }
            assert(crate::parse::strs_view(parts@) =~= Seq::new(
                (i + 1) as nat,
                |j: int| dec_seq(nums@[j] as nat),
            ));
        }
        i = i + 1;
    }
    let joined = join_with(&parts, "-");
    sec.push_str(joined.as_str());
    proof {
        assert(parts@.map_values(|p: String| p@) =~= crate::parse::strs_view(parts@));
        assert(sec@ =~= sec_id_seq(nums@));
    }
    sec
}

proof fn lemma_id_lookup_first_hit(entries: Seq<IdEntry>, k: Seq<char>, i: int)
    requires
        0 <= i < entries.len(),
        entries[i].key@ == k,
        forall|j: int| 0 <= j < i ==> #[trigger] entries[j].key@ != k,
    ensures
        id_lookup(entries, k) == Some(entries[i].index as int),
    decreases i,
{
    if i > 0 {
        assert(entries[0].key@ != k);
        assert forall|j: int| 0 <= j < i - 1 implies #[trigger] entries.drop_first()[j].key@
            != k by {
            assert(entries.drop_first()[j] == entries[j + 1]);
        }
        assert(entries.drop_first()[i - 1] == entries[i]);
        lemma_id_lookup_first_hit(entries.drop_first(), k, i - 1);
    }
}

proof fn lemma_id_lookup_all_miss(entries: Seq<IdEntry>, k: Seq<char>)
    requires
        forall|j: int| 0 <= j < entries.len() ==> #[trigger] entries[j].key@ != k,
    ensures
        id_lookup(entries, k) is None,
    decreases entries.len(),
{
    if entries.len() > 0 {
        lemma_id_lookup_all_miss(entries.drop_first(), k);
    }
}

impl Document {
    /// The block index registered under the id, if any.
    pub fn find_id_index(&self, key: &str) -> (r: Option<usize>)
        ensures
            match id_lookup(self.ids@, key@) {
                Option::Some(b) => r matches Some(i) && i as int == b,
                Option::None => r is None,
            },
    {
        let ghost all = self.ids@;
        let mut i: usize = 0;
        while i < self.ids.len()
            invariant
                i <= all.len(),
                all == self.ids@,
                forall|j: int| 0 <= j < i ==> #[trigger] all[j].key@ != key@,
            decreases all.len() - i,
        {
            if crate::strutil::str_is(&self.ids[i].key, key) {
                proof {
                    lemma_id_lookup_first_hit(all, key@, i as int);
                }
                return Some(self.ids[i].index);
            }
            i = i + 1;
        }
        proof {
            lemma_id_lookup_all_miss(all, key@);
        }
        None
    }
}

/// Renders a heading number dotted, as a reference shows it.
pub fn dotted_of(nums: &Vec<usize>) -> (r: String)
    ensures
        r@ == crate::text::dotted_number(nums@),
{
    let mut parts: Vec<String> = Vec::new();
    let mut i: usize = 0;
    proof {
        assert(crate::parse::strs_view(parts@) =~= Seq::new(
            0nat,
            |j: int| dec_seq(nums@[j] as nat),
        ));
    }
    while i < nums.len()
        invariant
            i <= nums@.len(),
            crate::parse::strs_view(parts@) == Seq::new(
                i as nat,
                |j: int| dec_seq(nums@[j] as nat),
            ),
        decreases nums@.len() - i,
    {
        let ghost pre_parts = parts@;
        let d = fmt_usize(nums[i]);
        parts.push(d);
        proof {
            assert(parts@ == pre_parts.push(d));
            assert(crate::parse::strs_view(pre_parts).len() == pre_parts.len());
            assert(crate::parse::strs_view(pre_parts) == Seq::new(
                i as nat,
                |j: int| dec_seq(nums@[j] as nat),
            ));
            assert(pre_parts.len() == i as int);
            assert forall|j: int| 0 <= j < parts@.len() implies #[trigger] parts@[j]@ == dec_seq(
                nums@[j] as nat,
            ) by {
                if j < pre_parts.len() {
                    assert(parts@[j] == pre_parts[j]);
                    assert(crate::parse::strs_view(pre_parts)[j] == pre_parts[j]@);
                    assert(Seq::new(i as nat, |jj: int| dec_seq(nums@[jj] as nat))[j] == dec_seq(
                        nums@[j] as nat,
                    ));
                } else {
                    assert(j == pre_parts.len() as int);
                    assert(parts@[j] == d);
                }
            }
            assert(crate::parse::strs_view(parts@) =~= Seq::new(
                (i + 1) as nat,
                |j: int| dec_seq(nums@[j] as nat),
            ));
        }
        i = i + 1;
    }
    let joined = join_with(&parts, ".");
    proof {
        assert(parts@.map_values(|p: String| p@) =~= crate::parse::strs_view(parts@));
        assert(joined@ =~= crate::text::dotted_number(nums@));
    }
    joined
}

/// The dashed `sec-` id derived from a dotted number given as integers.
pub open spec fn sec_id_seq_int(nums: Seq<int>) -> Seq<char> {
    "sec-"@ + spec_join(Seq::new(nums.len(), |i: int| dec_seq(nums[i] as nat)), "-"@)
}

impl Document {
    /// What a block must look like before it is added: a heading is fresh
    /// (no number yet, an empty child list one level down, level at least
    /// one), a replacement block's map is sound, and a filler heading
    /// never arrives from outside.
    pub open spec fn block_ok(b: Block) -> bool {
        match b.kind {
            BlockKind::Heading(h) => {
                &&& h.number@ == Seq::<usize>::empty()
                &&& h.children.headings@ == Seq::<usize>::empty()
                &&& h.children.last_child_number == 0
                &&& h.children.level == h.level + 1
                &&& 1 <= h.level
            },
            BlockKind::Filler(_) => false,
            BlockKind::Replacements(r) => r.wf(),
            _ => true,
        }
    }

    /// The machine has room for the block and any fillers it brings.
    pub open spec fn room_for(&self, b: Block) -> bool {
        self.blocks@.len() + (match b.kind {
            BlockKind::Heading(h) => h.level as int,
            _ => 0int,
        }) + 2 <= usize::MAX
    }

    /// The id the block is registered under: its explicit id; the derived
    /// `sec-` id for a numbered heading without one; the next
    /// auto-generated id otherwise.
    pub open spec fn registered_id(&self, b: Block) -> Seq<char> {
        if b.common.id@.len() > 0 {
            b.common.id@
        } else {
            match b.kind {
                BlockKind::Heading(h) => {
                    if h.numbered && h.toc {
                        sec_id_seq_int(self.assigned_number(h.level as int))
                    } else {
                        noid_seq(self.noid_index as nat)
                    }
                },
                _ => noid_seq(self.noid_index as nat),
            }
        }
    }

    /// Registers one block: a heading is inserted into the section tree
    /// (with fillers for skipped levels, its dotted number and a derived
    /// id), replacement definitions are merged, tables and glosses take
    /// the next number of their counter, the block receives an
    /// auto-generated id if it still has none, and the id is recorded. A
    /// duplicate replacement key or a duplicate id is a fault; the steps
    /// before the fault stay done.
    pub fn register_block(&mut self, block: Block) -> (r: EResult<()>)
        requires
            old(self).wf(),
            Document::block_ok(block),
            old(self).room_for(block),
        ensures
            r is Ok ==> final(self).wf(),
            final(self).title == old(self).title,
            final(self).author == old(self).author,
            final(self).description == old(self).description,
            final(self).lang == old(self).lang,
            final(self).stylesheets == old(self).stylesheets,
            r is Err ==> r->Err_0.kinds@.len() == 1 && (r->Err_0.kinds@.last() is Id
                || r->Err_0.kinds@.last() is Replace),
            r is Err && !(block.kind is Replacements) ==> (r->Err_0.kinds@.last() matches
                ErrorKind::Id(k) && k@ == old(self).registered_id(block) && id_lookup(
                old(self).ids@,
                old(self).registered_id(block),
            ) is Some),
            !(block.kind is Replacements) && id_lookup(
                old(self).ids@,
                old(self).registered_id(block),
            ) is None ==> r is Ok,
            r is Err ==> final(self).ids == old(self).ids,
            r is Err && !(block.kind is Heading) ==> final(self).blocks == old(self).blocks,
            r is Err && r->Err_0.kinds@.last() is Id ==> (r->Err_0.kinds@.last() matches
                ErrorKind::Id(k) && k@ == old(self).registered_id(block) && id_lookup(
                old(self).ids@,
                old(self).registered_id(block),
            ) is Some),
            !(block.kind is Replacements) ==> final(self).replacements == old(self).replacements,
            block.kind matches BlockKind::Replacements(rp) ==> {
                &&& (r is Err && r->Err_0.kinds@.last() is Replace ==> exists|k: Seq<char>|
                    old(self).replacements.contains_key(k) && #[trigger] rp.contains_key(k))
                &&& ((forall|k: Seq<char>|
                    !(old(self).replacements.contains_key(k) && #[trigger] rp.contains_key(k)))
                    && id_lookup(old(self).ids@, old(self).registered_id(block)) is None ==> r is Ok)
                &&& (r is Ok ==> (forall|k: Seq<char>|
                    #[trigger] final(self).replacements.contains_key(k) == (old(
                        self,
                    ).replacements.contains_key(k) || rp.contains_key(k))) && (forall|k: Seq<char>|
                    old(self).replacements.contains_key(k)
                        ==> #[trigger] final(self).replacements.value_of(k) == old(
                        self,
                    ).replacements.value_of(k)) && (forall|k: Seq<char>|
                    !old(self).replacements.contains_key(k) && rp.contains_key(k)
                        ==> #[trigger] final(self).replacements.value_of(k) == rp.value_of(k)))
            },
            r is Ok ==> final(self).ids@.len() == old(self).ids@.len() + 1
                && final(self).ids@.drop_last() == old(self).ids@ && final(self).ids@.last().key@
                == old(self).registered_id(block) && final(self).ids@.last().index as int
                == final(self).blocks@.len() - 1,
            r is Ok && !(block.kind is Heading) ==> final(self).blocks@.drop_last() == old(
                self,
            ).blocks@,
            r is Ok ==> ({
                let n = final(self).blocks@.len();
                &&& n > old(self).blocks@.len()
                &&& id_lookup(final(self).ids@, old(self).registered_id(block)) == Some(n - 1)
                &&& (block.common.id@.len() == 0 && !(block.kind matches BlockKind::Heading(h)
                    && h.numbered && h.toc) ==> final(self).noid_index == old(self).noid_index + 1)
                &&& (match block.kind {
                    BlockKind::Heading(h) => {
                        let l = h.level as int;
                        &&& n == old(self).blocks@.len() + 1 + l - old(self).usable_depth(l)
                        &&& final(self).blocks@.last().kind matches BlockKind::Heading(h2)
                            && h2.title == h.title && h2.level == h.level && h2.numbered
                            == h.numbered && h2.toc == h.toc && ((h.numbered && h.toc)
                            ==> nums_view(h2.number@) == old(self).assigned_number(l)) && (!(
                        h.numbered && h.toc) ==> h2.number@ == Seq::<usize>::empty()) && (!(
                        h.numbered && h.toc) ==> h2.children.last_child_number as int == old(
                            self,
                        ).elder_counter(l))
                        &&& (forall|j: int|
                            1 <= j < l ==> #[trigger] final(self).next_child_num(j) == old(self).next_child_num(j))
                        &&& final(self).next_child_num(l) == old(self).next_child_num(l) + (
                        if h.numbered && h.toc {
                            1int
                        } else {
                            0int
                        })
                    },
                    BlockKind::Table(t) => {
                        &&& n == old(self).blocks@.len() + 1
                        &&& final(self).blocks@.last().kind matches BlockKind::Table(t2)
                            && t2.number as int == (if t.numbered {
                            old(self).table_number + 1
                        } else {
                            t.number as int
                        }) && t2.numbered == t.numbered && t2.title == t.title && t2.rows == t.rows
                            && t2.columns == t.columns
                        &&& final(self).tables@ == old(self).tables@.push((n - 1) as usize)
                        &&& (forall|j: int|
                            1 <= j ==> #[trigger] final(self).next_child_num(j) == old(self).next_child_num(j))
                    },
                    BlockKind::Gloss(g) => {
                        &&& n == old(self).blocks@.len() + 1
                        &&& final(self).blocks@.last().kind matches BlockKind::Gloss(g2)
                            && g2.number as int == (if g.numbered {
                            old(self).gloss_number + 1
                        } else {
                            g.number as int
                        }) && g2.numbered == g.numbered && g2.title == g.title && g2.preamble
                            == g.preamble && g2.gloss == g.gloss && g2.postamble == g.postamble
                        &&& final(self).glosses@ == old(self).glosses@.push((n - 1) as usize)
                        &&& (forall|j: int|
                            1 <= j ==> #[trigger] final(self).next_child_num(j) == old(self).next_child_num(j))
                    },
                    _ => {
                        &&& n == old(self).blocks@.len() + 1
                        &&& (forall|j: int|
                            1 <= j ==> #[trigger] final(self).next_child_num(j) == old(self).next_child_num(j))
                    },
                })
            }),
    {
        let ghost doc0 = *self;
        let ghost block0 = block;
        let ghost reg = doc0.registered_id(block);
        let mut block = block;
        let mut idx = self.blocks.len();
        let ghost hlvl: int = block.kind.hl_level();
        let mut pending = false;
        match &mut block.kind {
            BlockKind::Heading(h) => {
                match self.add_heading(h, &mut block.common) {
                    Ok(i) => {
                        idx = i;
                        pending = true;
                    },
                    Err(e) => {
                        proof {
                            assert(false);
                        }
                        return Err(e);
                    },
                }
            },
            _ => {},
        }
        let ghost d_after_heading = *self;
        let ghost block_after_heading = block;
        match &mut block.kind {
            BlockKind::Replacements(rp) => {
                match self.replacements.update(rp) {
                    Ok(()) => {},
                    Err(e) => {
                        return Err(e);
                    },
                }
            },
            BlockKind::Table(t) => {
                if t.numbered {
                    self.table_number = self.table_number + 1;
                    t.number = self.table_number;
                }
                self.tables.push(idx);
            },
            BlockKind::Gloss(g) => {
                if g.numbered {
                    self.gloss_number = self.gloss_number + 1;
                    g.number = self.gloss_number;
                }
                self.glosses.push(idx);
            },
            _ => {},
        }
        if crate::strutil::str_empty(&block.common.id) {
            let mut auto = String::new();
            auto.push_str("__no-id-");
            let d = fmt_usize(self.noid_index);
            auto.push_str(d.as_str());
            proof {
                assert(auto@ =~= noid_seq(doc0.noid_index as nat));
            }
            block.common.id = auto;
            self.noid_index = self.noid_index + 1;
        }
        proof {
            if block0.common.id@.len() > 0 {
                assert(block.common.id@ == reg);
            } else {
                match block0.kind {
                    BlockKind::Heading(h) => {
                        if h.numbered && h.toc {
                            let l = h.level as int;
                            match block_after_heading.kind {
                                BlockKind::Heading(h2) => {
                                    assert(block.common.id@ == sec_id_seq(h2.number@));
                                    lemma_sec_id_agree(h2.number@, doc0.assigned_number(l));
                                },
                                _ => {
                                    assert(false);
                                },
                            }
                        } else {
                            assert(block.common.id@ == noid_seq(doc0.noid_index as nat));
                        }
                    },
                    _ => {
                        assert(block.common.id@ == noid_seq(doc0.noid_index as nat));
                    },
                }
            }
            assert(block.common.id@ == reg);
        }
        let key = block.common.id.clone();
        let ghost keyv = key@;
        proof {
            assert(self.ids == doc0.ids);
        }
        match self.find_id_index(key.as_str()) {
            Option::Some(_) => {
                return Err(ErrorKind::Id(key).into_error());
            },
            Option::None => {},
        }
        proof {
            lemma_id_lookup_none_all_miss(self.ids@, keyv);
        }
        let ghost pre_ids = self.ids@;
        self.ids.push(IdEntry { key, index: idx });
        proof {
            lemma_id_lookup_push(pre_ids, self.ids@.last(), keyv);
            assert forall|i: int, j: int|
                0 <= i < j < self.ids@.len() implies #[trigger] self.ids@[i].key@
                != #[trigger] self.ids@[j].key@ by {
                if j == self.ids@.len() - 1 {
                } else {
                    assert(self.ids@[i] == pre_ids[i]);
                    assert(self.ids@[j] == pre_ids[j]);
                }
            }
        }
        let ghost d_pre_push = *self;
        proof {
            assert(doc0.wf());
            assert(doc0.ids_ok());
            assert(doc0.table_number <= doc0.blocks@.len());
            if pending {
                lemma_usable_le(doc0, hlvl);
            }
            assert(d_pre_push.blocks@.len() >= doc0.blocks@.len());
            assert(pre_ids == doc0.ids@);
            assert forall|i: int|
                0 <= i < d_pre_push.ids@.len() implies #[trigger] d_pre_push.ids@[i].index
                < d_pre_push.blocks@.len() + 1 by {
                if i < pre_ids.len() {
                    assert(doc0.ids@[i].index < doc0.blocks@.len());
                }
            }
            assert(d_pre_push.table_number <= d_pre_push.blocks@.len() + 1);
            assert(d_pre_push.gloss_number <= d_pre_push.blocks@.len() + 1);
            assert(d_pre_push.noid_index <= d_pre_push.blocks@.len() + 1);
            if pending {
                lemma_tree_pending_frame(d_after_heading, d_pre_push, idx as int, hlvl);
                assert(d_pre_push.pending_wf(idx as int, hlvl));
            } else {
                lemma_tree_frame(doc0, d_pre_push);
                assert(d_pre_push.tree_wf());
            }
        }
        let ghost bg = block;
        self.blocks.push(block);
        proof {
            let d_post = *self;
            assert(d_post.blocks@.last() == bg);
            if pending {
                lemma_pending_close(d_pre_push, d_post, idx as int, hlvl, bg);
                assert forall|j: int| 1 <= j <= hlvl implies chain_eq_at(d_pre_push, d_post, j) by {
                    lemma_chain_push_pending(d_pre_push, d_post, idx as int, hlvl, j);
                }
                assert forall|j: int| 1 <= j <= hlvl implies chain_eq_at(d_after_heading, d_pre_push, j) by {
                    lemma_chain_congruent(d_after_heading, d_pre_push, j);
                }
            } else {
                lemma_push_plain_block(d_pre_push, d_post, bg);
                assert forall|j: int| 1 <= j implies chain_eq_at(d_pre_push, d_post, j) by {
                    lemma_chain_push_block(d_pre_push, d_post, j);
                }
                assert forall|j: int| 1 <= j implies chain_eq_at(doc0, d_pre_push, j) by {
                    lemma_chain_congruent(doc0, d_pre_push, j);
                }
                assert forall|j: int| 1 <= j implies #[trigger] d_post.next_child_num(j)
                    == doc0.next_child_num(j) by {
                    assert(chain_eq_at(doc0, d_pre_push, j));
                    assert(chain_eq_at(d_pre_push, d_post, j));
                }
            }
            if pending {
                assert forall|j: int| 1 <= j <= hlvl implies #[trigger] d_post.next_child_num(j)
                    == d_after_heading.next_child_num(j) by {
                    assert(chain_eq_at(d_after_heading, d_pre_push, j));
                    assert(chain_eq_at(d_pre_push, d_post, j));
                }
            }
            lemma_id_lookup_push(pre_ids, d_post.ids@.last(), reg);
            assert(self.ids@.drop_last() =~= doc0.ids@);
            assert(self.ids@.last().index == idx);
            assert(self.blocks@.len() == d_pre_push.blocks@.len() + 1);
            if !(block0.kind is Heading) {
                assert(d_pre_push.blocks == doc0.blocks);
                assert(self.blocks@.drop_last() =~= doc0.blocks@);
            }
        }
        Ok(())
    }
}

/// Along a pending chain, cursors below the pending level are valid.
pub proof fn lemma_chain_valid_pending(doc: Document, k: int, idx: int, lvl: int)
    requires
        doc.pending_wf(idx, lvl),
        idx >= doc.blocks@.len(),
        1 <= k <= lvl,
    ensures
        doc.chain_curr(k) matches Some(c) ==> doc.list_at(c).level == k && (c matches Some(b)
            ==> doc.hl_at(b as int) && doc.blocks@[b as int].kind.hl_level() == k - 1),
    decreases k,
{
    if k > 1 {
        lemma_chain_valid_pending(doc, k - 1, idx, lvl);
        match doc.chain_curr(k - 1) {
            Option::Some(c) => {
                let l = doc.list_at(c);
                if l.headings@.len() > 0 {
                    let e = l.headings@.last();
                    if c is None {
                        assert(doc.list_ok_pending(doc.sections, idx, lvl));
                    } else {
                        assert(doc.hl_at(c->0 as int));
                        assert(doc.list_ok_pending(l, idx, lvl));
                    }
                    assert(e as int == idx || doc.hl_at(e as int));
                    if e as int == idx {
                        assert(l.level == lvl);
                        assert(false);
                    }
                }
            },
            Option::None => {},
        }
    }
}

/// Appending the pending block leaves the chain untouched up to the
/// pending level.
pub proof fn lemma_chain_push_pending(d1: Document, d2: Document, idx: int, lvl: int, j: int)
    requires
        d1.pending_wf(idx, lvl),
        idx == d1.blocks@.len(),
        d2.sections == d1.sections,
        d2.blocks@.len() >= d1.blocks@.len(),
        forall|i: int| 0 <= i < d1.blocks@.len() ==> #[trigger] d2.blocks@[i] == d1.blocks@[i],
        1 <= j <= lvl,
    ensures
        chain_eq_at(d1, d2, j),
    decreases j,
{
    lemma_chain_valid_pending(d1, j, idx, lvl);
    if j > 1 {
        lemma_chain_push_pending(d1, d2, idx, lvl, j - 1);
        lemma_chain_valid_pending(d1, j - 1, idx, lvl);
    }
}

/// Appending the pending block itself closes the document invariant.
pub proof fn lemma_pending_close(d1: Document, d2: Document, idx: int, lvl: int, b: Block)
    requires
        d1.pending_wf(idx, lvl),
        d1.ids == d2.ids,
        idx == d1.blocks@.len(),
        d2.blocks@ == d1.blocks@.push(b),
        d2.sections == d1.sections,
        d2.ids == d1.ids,
        d2.replacements == d1.replacements,
        d2.table_number == d1.table_number,
        d2.gloss_number == d1.gloss_number,
        d2.noid_index == d1.noid_index,
        b.is_heading_like(),
        b.kind.hl_level() == lvl,
        1 <= lvl,
        b.kind.hl_children().level == lvl + 1,
        b.kind.hl_children().headings@.len() == 0,
        b.kind.hl_children().last_child_number <= d2.blocks@.len(),
    ensures
        d2.wf(),
{
    assert(d2.blocks@[idx] == b);
    assert forall|e: int| d1.hl_at(e) implies #[trigger] d2.hl_at(e) && d2.blocks@[e]
        == d1.blocks@[e] by {}
    assert forall|i: int| #[trigger] d2.hl_at(i) implies d2.blocks@[i].kind.hl_level() >= 1
        && d2.blocks@[i].kind.hl_children().level == d2.blocks@[i].kind.hl_level() + 1
        && d2.list_ok(d2.blocks@[i].kind.hl_children()) by {
        if i < d1.blocks@.len() {
            assert(d1.hl_at(i));
            assert(d1.list_ok_pending(d1.blocks@[i].kind.hl_children(), idx, lvl));
            let l = d2.blocks@[i].kind.hl_children();
            assert forall|kk: int| 0 <= kk < l.headings@.len() implies #[trigger] d2.hl_at(
                l.headings@[kk] as int,
            ) && d2.blocks@[l.headings@[kk] as int].kind.hl_level() == l.level by {
                if l.headings@[kk] as int == idx {
                } else {
                    assert(d1.hl_at(l.headings@[kk] as int));
                }
            }
        } else {
            assert(d2.blocks@[i] == b);
        }
    }
    assert(d2.list_ok(d2.sections)) by {
        assert(d1.list_ok_pending(d1.sections, idx, lvl));
        let l = d2.sections;
        assert forall|kk: int| 0 <= kk < l.headings@.len() implies #[trigger] d2.hl_at(
            l.headings@[kk] as int,
        ) && d2.blocks@[l.headings@[kk] as int].kind.hl_level() == l.level by {
            if l.headings@[kk] as int == idx {
            } else {
                assert(d1.hl_at(l.headings@[kk] as int));
            }
        }
    }
}

/// Appending any block that is not heading-like keeps the invariant.
pub proof fn lemma_push_plain_block(d1: Document, d2: Document, b: Block)
    requires
        d1.tree_wf(),
        d2.blocks@ == d1.blocks@.push(b),
        d2.sections == d1.sections,
        forall|i: int, j: int|
            0 <= i < j < d2.ids@.len() ==> #[trigger] d2.ids@[i].key@ != #[trigger] d2.ids@[j].key@,
        forall|i: int|
            0 <= i < d2.ids@.len() ==> #[trigger] d2.ids@[i].index < d2.blocks@.len(),
        d2.replacements.wf(),
        d2.table_number <= d2.blocks@.len(),
        d2.gloss_number <= d2.blocks@.len(),
        d2.noid_index <= d2.blocks@.len(),
        !b.is_heading_like(),
    ensures
        d2.wf(),
{
    assert forall|i: int| #[trigger] d2.hl_at(i) implies d2.blocks@[i].kind.hl_level() >= 1
        && d2.blocks@[i].kind.hl_children().level == d2.blocks@[i].kind.hl_level() + 1
        && d2.list_ok(d2.blocks@[i].kind.hl_children()) by {
        assert(i < d1.blocks@.len());
        assert(d1.hl_at(i));
        assert(d1.list_ok(d1.blocks@[i].kind.hl_children()));
        let l = d2.blocks@[i].kind.hl_children();
        assert forall|kk: int| 0 <= kk < l.headings@.len() implies #[trigger] d2.hl_at(
            l.headings@[kk] as int,
        ) && d2.blocks@[l.headings@[kk] as int].kind.hl_level() == l.level by {
            assert(d1.hl_at(l.headings@[kk] as int));
        }
    }
    assert(d2.list_ok(d2.sections)) by {
        assert(d1.list_ok(d1.sections));
        let l = d2.sections;
        assert forall|kk: int| 0 <= kk < l.headings@.len() implies #[trigger] d2.hl_at(
            l.headings@[kk] as int,
        ) && d2.blocks@[l.headings@[kk] as int].kind.hl_level() == l.level by {
            assert(d1.hl_at(l.headings@[kk] as int));
        }
    }
}

/// The tree part of the invariant only looks at the blocks and the root
/// list, so it carries over to any document sharing them.
pub proof fn lemma_tree_frame(d1: Document, d2: Document)
    requires
        d1.tree_wf(),
        d2.blocks == d1.blocks,
        d2.sections == d1.sections,
    ensures
        d2.tree_wf(),
{
    assert forall|i: int| #[trigger] d2.hl_at(i) implies d2.blocks@[i].kind.hl_level() >= 1
        && d2.blocks@[i].kind.hl_children().level == d2.blocks@[i].kind.hl_level() + 1
        && d2.list_ok(d2.blocks@[i].kind.hl_children()) by {
        assert(d1.hl_at(i));
        assert(d1.list_ok(d1.blocks@[i].kind.hl_children()));
        let l = d2.blocks@[i].kind.hl_children();
        assert forall|kk: int| 0 <= kk < l.headings@.len() implies #[trigger] d2.hl_at(
            l.headings@[kk] as int,
        ) && d2.blocks@[l.headings@[kk] as int].kind.hl_level() == l.level by {
            assert(d1.hl_at(l.headings@[kk] as int));
        }
    }
    assert(d2.list_ok(d2.sections)) by {
        assert(d1.list_ok(d1.sections));
        let l = d2.sections;
        assert forall|kk: int| 0 <= kk < l.headings@.len() implies #[trigger] d2.hl_at(
            l.headings@[kk] as int,
        ) && d2.blocks@[l.headings@[kk] as int].kind.hl_level() == l.level by {
            assert(d1.hl_at(l.headings@[kk] as int));
        }
    }
}

/// So does the pending form.
pub proof fn lemma_tree_pending_frame(d1: Document, d2: Document, idx: int, lvl: int)
    requires
        d1.tree_wf_pending(idx, lvl),
        d2.blocks == d1.blocks,
        d2.sections == d1.sections,
    ensures
        d2.tree_wf_pending(idx, lvl),
{
    assert forall|i: int| #[trigger] d2.hl_at(i) implies d2.blocks@[i].kind.hl_level() >= 1
        && d2.blocks@[i].kind.hl_children().level == d2.blocks@[i].kind.hl_level() + 1
        && d2.list_ok_pending(d2.blocks@[i].kind.hl_children(), idx, lvl) by {
        assert(d1.hl_at(i));
        assert(d1.list_ok_pending(d1.blocks@[i].kind.hl_children(), idx, lvl));
        let l = d2.blocks@[i].kind.hl_children();
        assert forall|kk: int| 0 <= kk < l.headings@.len() implies ((#[trigger] l.headings@[kk]
            as int == idx && l.level == lvl) || (d2.hl_at(l.headings@[kk] as int)
            && d2.blocks@[l.headings@[kk] as int].kind.hl_level() == l.level)) by {
            if l.headings@[kk] as int != idx {
                assert(d1.hl_at(l.headings@[kk] as int));
            }
        }
    }
    assert(d2.list_ok_pending(d2.sections, idx, lvl)) by {
        assert(d1.list_ok_pending(d1.sections, idx, lvl));
        let l = d2.sections;
        assert forall|kk: int| 0 <= kk < l.headings@.len() implies ((#[trigger] l.headings@[kk]
            as int == idx && l.level == lvl) || (d2.hl_at(l.headings@[kk] as int)
            && d2.blocks@[l.headings@[kk] as int].kind.hl_level() == l.level)) by {
            if l.headings@[kk] as int != idx {
                assert(d1.hl_at(l.headings@[kk] as int));
            }
        }
    }
}

/// The dashed id derived from a number agrees however the number is
/// viewed.
proof fn lemma_sec_id_agree(nums: Seq<usize>, ints: Seq<int>)
    requires
        nums_view(nums) == ints,
    ensures
        sec_id_seq(nums) == sec_id_seq_int(ints),
{
    assert(nums_view(nums).len() == nums.len());
    assert forall|i: int| 0 <= i < nums.len() implies dec_seq(nums[i] as nat) == dec_seq(
        ints[i] as nat,
    ) by {
        assert(nums_view(nums)[i] == ints[i]);
    }
    assert(Seq::new(nums.len(), |i: int| dec_seq(nums[i] as nat)) =~= Seq::new(
        ints.len(),
        |i: int| dec_seq(ints[i] as nat),
    ));
}

proof fn lemma_id_lookup_none_all_miss(entries: Seq<IdEntry>, k: Seq<char>)
    requires
        id_lookup(entries, k) is None,
    ensures
        forall|j: int| 0 <= j < entries.len() ==> #[trigger] entries[j].key@ != k,
    decreases entries.len(),
{
    if entries.len() > 0 {
        lemma_id_lookup_none_all_miss(entries.drop_first(), k);
        assert forall|j: int| 0 <= j < entries.len() implies #[trigger] entries[j].key@ != k by {
            if j > 0 {
                assert(entries.drop_first()[j - 1] == entries[j]);
            }
        }
    }
}

proof fn lemma_id_lookup_push(entries: Seq<IdEntry>, e: IdEntry, k: Seq<char>)
    ensures
        id_lookup(entries.push(e), k) == (if id_lookup(entries, k) is Some {
            id_lookup(entries, k)
        } else if e.key@ == k {
            Some(e.index as int)
        } else {
            None
        }),
    decreases entries.len(),
{
    if entries.len() == 0 {
        assert(entries.push(e)[0] == e);
        assert(entries.push(e).drop_first() =~= Seq::<IdEntry>::empty());
        assert(id_lookup(Seq::<IdEntry>::empty(), k) is None);
    } else {
        assert(entries.push(e)[0] == entries[0]);
        assert(entries.push(e).drop_first() =~= entries.drop_first().push(e));
        lemma_id_lookup_push(entries.drop_first(), e, k);
    }
}

impl Document {
    /// Whether the block is an import control.
    pub open spec fn is_import_block(b: Block) -> bool {
        match b.kind {
            BlockKind::Control(c) => c is Import,
            _ => false,
        }
    }

    /// The text naming the source an import control reads.
    pub open spec fn import_target(b: Block) -> Seq<crate::text::InlineV> {
        match b.kind {
            BlockKind::Control(c) => match c {
                DocumentControl::Import(t) => crate::text::view_inlines(t.0@),
                _ => arbitrary(),
            },
            _ => arbitrary(),
        }
    }
}

/// An attribute/value pair, the value entity-encoded, with a trailing
/// space.
pub open spec fn attr_seq(attr: Seq<char>, value: Seq<char>) -> Seq<char> {
    attr + "=\""@ + crate::html::encode_seq(value) + "\" "@
}

/// Writes an attribute/value pair, escaping the value.
pub fn write_attribute(w: &mut String, attr: &str, value: &str)
    ensures
        final(w)@ == old(w)@ + attr_seq(attr@, value@),
{
    w.push_str(attr);
    w.push_str("=\"");
    crate::html::encode_into(w, value);
    w.push_str("\" ");
    proof {
        assert(final(w)@ =~= old(w)@ + attr_seq(attr@, value@));
    }
}

impl Document {
    /// Adds the given block to the document. A document-control block
    /// first sets the control fields: the title, author, description and
    /// language are first-writer-wins, stylesheets accumulate. An import
    /// control only hands the named source back for the caller to read
    /// and feed through; the document is left untouched. Every other
    /// block is then registered as `register_block` describes.
    pub fn add_block(&mut self, block: Block) -> (r: EResult<Option<String>>)
        requires
            old(self).wf(),
            Document::block_ok(block),
            old(self).room_for(block),
        ensures
            r is Ok ==> final(self).wf(),
            Document::is_import_block(block) ==> ({
                &&& r is Ok
                &&& r->Ok_0 is Some
                &&& *final(self) == *old(self)
                &&& r->Ok_0->0@ == crate::text::render_inlines(
                    Document::import_target(block),
                    *old(self),
                    crate::text::doc_fuel(*old(self)),
                    true,
                )
            }),
            !Document::is_import_block(block) && r is Ok ==> r->Ok_0 is None && final(self).blocks@.len() > old(self).blocks@.len(),
            !Document::is_import_block(block) ==> ({
                let at = old(self).blocks@.len() as usize;
                let others_kept = final(self).title == old(self).title && final(self).author == old(
                    self,
                ).author && final(self).description == old(self).description && final(self).lang
                    == old(self).lang && final(self).stylesheets == old(self).stylesheets;
                match block.kind {
                    BlockKind::Control(c) => match c {
                    DocumentControl::Title(_) => final(self).title == (if old(self).title is None {
                        Some(at)
                    } else {
                        old(self).title
                    }) && final(self).author == old(self).author && final(self).description == old(
                        self,
                    ).description && final(self).lang == old(self).lang && final(self).stylesheets
                        == old(self).stylesheets,
                    DocumentControl::Author(_) => final(self).author == (if old(self).author is None {
                        Some(at)
                    } else {
                        old(self).author
                    }) && final(self).title == old(self).title && final(self).description == old(
                        self,
                    ).description && final(self).lang == old(self).lang && final(self).stylesheets
                        == old(self).stylesheets,
                    DocumentControl::Description(_) => final(self).description == (if old(self).description is None {
                        Some(at)
                    } else {
                        old(self).description
                    }) && final(self).title == old(self).title && final(self).author == old(
                        self,
                    ).author && final(self).lang == old(self).lang && final(self).stylesheets
                        == old(self).stylesheets,
                    DocumentControl::Lang(_) => final(self).lang == (if old(self).lang is None {
                        Some(at)
                    } else {
                        old(self).lang
                    }) && final(self).title == old(self).title && final(self).author == old(
                        self,
                    ).author && final(self).description == old(self).description
                        && final(self).stylesheets == old(self).stylesheets,
                    DocumentControl::Stylesheet(_) => final(self).stylesheets@ == old(
                        self,
                    ).stylesheets@.push(at) && final(self).title == old(self).title
                        && final(self).author == old(self).author && final(self).description == old(
                        self,
                    ).description && final(self).lang == old(self).lang,
                    DocumentControl::Import(_) => false,
                },
                    _ => others_kept,
                }
            }),
            !Document::is_import_block(block) ==> {
                &&& (r is Err ==> r->Err_0.kinds@.len() == 1 && (r->Err_0.kinds@.last() is Id
                    || r->Err_0.kinds@.last() is Replace))
                &&& (r is Err ==> final(self).ids == old(self).ids)
                &&& (r is Err && !(block.kind is Heading) ==> final(self).blocks == old(
                    self,
                ).blocks)
                &&& (r is Err && r->Err_0.kinds@.last() is Id ==> (r->Err_0.kinds@.last() matches
                    ErrorKind::Id(k) && k@ == old(self).registered_id(block) && id_lookup(
                    old(self).ids@,
                    old(self).registered_id(block),
                ) is Some))
                &&& (!(block.kind is Replacements) && id_lookup(
                    old(self).ids@,
                    old(self).registered_id(block),
                ) is None ==> r is Ok)
                &&& (!(block.kind is Replacements) ==> final(self).replacements == old(
                    self,
                ).replacements)
                &&& (block.kind matches BlockKind::Replacements(rp) ==> {
                    &&& (r is Err && r->Err_0.kinds@.last() is Replace ==> exists|k: Seq<char>|
                        old(self).replacements.contains_key(k) && #[trigger] rp.contains_key(k))
                    &&& ((forall|k: Seq<char>|
                        !(old(self).replacements.contains_key(k) && #[trigger] rp.contains_key(k)))
                        && id_lookup(old(self).ids@, old(self).registered_id(block)) is None
                        ==> r is Ok)
                    &&& (r is Ok ==> (forall|k: Seq<char>|
                        #[trigger] final(self).replacements.contains_key(k) == (old(
                            self,
                        ).replacements.contains_key(k) || rp.contains_key(k))) && (forall|
                        k: Seq<char>,
                    |
                        old(self).replacements.contains_key(k)
                            ==> #[trigger] final(self).replacements.value_of(k) == old(
                            self,
                        ).replacements.value_of(k)) && (forall|k: Seq<char>|
                        !old(self).replacements.contains_key(k) && rp.contains_key(k)
                            ==> #[trigger] final(self).replacements.value_of(k) == rp.value_of(k)))
                })
                &&& (r is Ok ==> final(self).ids@.len() == old(self).ids@.len() + 1
                    && final(self).ids@.drop_last() == old(self).ids@
                    && final(self).ids@.last().key@ == old(self).registered_id(block)
                    && final(self).ids@.last().index as int == final(self).blocks@.len() - 1
                    && id_lookup(final(self).ids@, old(self).registered_id(block)) == Some(
                    final(self).blocks@.len() - 1,
                ))
                &&& (r is Ok && !(block.kind is Heading) ==> final(self).blocks@.drop_last()
                    == old(self).blocks@)
                &&& (r is Ok ==> ({
                    let n = final(self).blocks@.len();
                    &&& (block.common.id@.len() == 0 && !(block.kind matches BlockKind::Heading(h)
                        && h.numbered && h.toc) ==> final(self).noid_index == old(self).noid_index
                        + 1)
                    &&& (match block.kind {
                        BlockKind::Heading(h) => {
                            let l = h.level as int;
                            &&& n == old(self).blocks@.len() + 1 + l - old(self).usable_depth(l)
                            &&& final(self).blocks@.last().kind matches BlockKind::Heading(h2)
                                && h2.title == h.title && h2.level == h.level && h2.numbered
                                == h.numbered && h2.toc == h.toc && ((h.numbered && h.toc)
                                ==> nums_view(h2.number@) == old(self).assigned_number(l)) && (!(
                            h.numbered && h.toc) ==> h2.number@ == Seq::<usize>::empty()) && (!(
                            h.numbered && h.toc) ==> h2.children.last_child_number as int == old(
                                self,
                            ).elder_counter(l))
                            &&& (forall|j: int|
                                1 <= j < l ==> #[trigger] final(self).next_child_num(j) == old(
                                    self,
                                ).next_child_num(j))
                            &&& final(self).next_child_num(l) == old(self).next_child_num(l) + (
                            if h.numbered && h.toc {
                                1int
                            } else {
                                0int
                            })
                        },
                        BlockKind::Table(t) => {
                            &&& n == old(self).blocks@.len() + 1
                            &&& final(self).blocks@.last().kind matches BlockKind::Table(t2)
                                && t2.number as int == (if t.numbered {
                                old(self).table_number + 1
                            } else {
                                t.number as int
                            }) && t2.numbered == t.numbered && t2.title == t.title && t2.rows
                                == t.rows && t2.columns == t.columns
                            &&& final(self).tables@ == old(self).tables@.push((n - 1) as usize)
                        },
                        BlockKind::Gloss(g) => {
                            &&& n == old(self).blocks@.len() + 1
                            &&& final(self).blocks@.last().kind matches BlockKind::Gloss(g2)
                                && g2.number as int == (if g.numbered {
                                old(self).gloss_number + 1
                            } else {
                                g.number as int
                            }) && g2.numbered == g.numbered && g2.title == g.title && g2.preamble
                                == g.preamble && g2.gloss == g.gloss && g2.postamble == g.postamble
                            &&& final(self).glosses@ == old(self).glosses@.push((n - 1) as usize)
                        },
                        _ => {
                            n == old(self).blocks@.len() + 1
                        },
                    })
                }))
            },
    {
        let mut is_import = false;
        match &block.kind {
            BlockKind::Control(c) => {
                match c {
                    DocumentControl::Import(_) => {
                        is_import = true;
                    },
                    _ => {},
                }
            },
            _ => {},
        }
        if is_import {
            match &block.kind {
                BlockKind::Control(c) => {
                    match c {
                        DocumentControl::Import(t) => {
                            let mut name = String::new();
                            t.write_inline_plain(&mut name, self);
                            proof {
                                assert(name@ =~= crate::text::render_inlines(
                                    Document::import_target(block),
                                    *old(self),
                                    crate::text::doc_fuel(*old(self)),
                                    true,
                                ));
                            }
                            return Ok(Some(name));
                        },
                        _ => {
                            proof {
                                assert(false);
                            }
                        },
                    }
                },
                _ => {
                    proof {
                        assert(false);
                    }
                },
            }
        }
        let idx = self.blocks.len();
        match &block.kind {
            BlockKind::Control(c) => {
                match c {
                    DocumentControl::Title(_) => {
                        if self.title.is_none() {
                            self.title = Some(idx);
                        }
                    },
                    DocumentControl::Author(_) => {
                        if self.author.is_none() {
                            self.author = Some(idx);
                        }
                    },
                    DocumentControl::Description(_) => {
                        if self.description.is_none() {
                            self.description = Some(idx);
                        }
                    },
                    DocumentControl::Lang(_) => {
                        if self.lang.is_none() {
                            self.lang = Some(idx);
                        }
                    },
                    DocumentControl::Stylesheet(_) => {
                        self.stylesheets.push(idx);
                    },
                    DocumentControl::Import(_) => {
                        proof {
                            assert(false);
                        }
                    },
                }
            },
            _ => {},
        }
        let ghost mid = *self;
        proof {
            lemma_tree_frame(*old(self), *self);
            assert(self.wf());
            assert forall|j: int| 1 <= j implies #[trigger] mid.next_child_num(j) == old(
                self,
            ).next_child_num(j) by {
                lemma_chain_congruent(*old(self), mid, j);
            }
            match &block.kind {
                BlockKind::Heading(h) => {
                    let l = h.level as int;
                    lemma_usable_congruent(*old(self), mid, l);
                    lemma_chain_congruent(*old(self), mid, l);
                    assert(mid.elder_counter(l) == old(self).elder_counter(l));
                    assert(mid.assigned_number(l) =~= old(self).assigned_number(l)) by {
                        assert forall|j: int| 0 <= j < l implies #[trigger] mid.level_num(j + 1)
                            == old(self).level_num(j + 1) by {
                            lemma_chain_congruent(*old(self), mid, j + 1);
                        }
                    }
                },
                _ => {},
            }
            assert(mid.registered_id(block) == old(self).registered_id(block));
        }
        match self.register_block(block) {
            Ok(()) => Ok(None),
            Err(e) => Err(e),
        }
    }

    /// The block at the given index, if it exists.
    pub fn get_block(&self, idx: usize) -> (r: Option<&Block>)
        ensures
            idx < self.blocks@.len() ==> r is Some && *(r->0) == self.blocks@[idx as int],
            idx >= self.blocks@.len() ==> r is None,
    {
        if idx < self.blocks.len() {
            Some(&self.blocks[idx])
        } else {
            None
        }
    }

    /// The heading at the given index. A filler heading carries no title,
    /// number or flags; its child list, the one facet it shares with a
    /// real heading, is reached through `get_section_list`, which accepts
    /// every heading-like block.
    pub fn get_heading(&self, block_index: usize) -> (r: &Heading)
        requires
            block_index < self.blocks@.len(),
            self.blocks@[block_index as int].kind is Heading,
        ensures
            self.blocks@[block_index as int].kind matches BlockKind::Heading(h) && *r == h,
    {
        match &self.blocks[block_index].kind {
            BlockKind::Heading(h) => h,
            _ => {
                proof {
                    assert(false);
                }
                match &self.blocks[block_index].kind {
                    BlockKind::Heading(h) => h,
                    _ => unreached(),
                }
            },
        }
    }

    /// The child list of the given heading-like block, or the root list.
    pub fn get_section_list(&self, block_index: Option<usize>) -> (r: &SectionList)
        requires
            self.curr_ok(block_index),
        ensures
            *r == self.list_at(block_index),
    {
        match block_index {
            Option::None => &self.sections,
            Option::Some(b) => {
                match &self.blocks[b].kind {
                    BlockKind::Heading(h) => &h.children,
                    BlockKind::Filler(f) => &f.children,
                    _ => unreached(),
                }
            },
        }
    }

    /// The block registered under the given id, if any.
    pub fn get_id(&self, id: &str) -> (r: Option<&Block>)
        requires
            self.wf(),
        ensures
            match id_lookup(self.ids@, id@) {
                Option::Some(b) => r matches Some(blk) && 0 <= b < self.blocks@.len() && *blk
                    == self.blocks@[b],
                Option::None => r is None,
            },
    {
        match self.find_id_index(id) {
            Option::Some(i) => {
                proof {
                    lemma_id_lookup_in_range(self.ids@, id@, self.blocks@.len() as int);
                }
                Some(&self.blocks[i])
            },
            Option::None => None,
        }
    }

    /// The replacement text recorded for the key, if any.
    pub fn get_replacement(&self, key: &str) -> (r: Option<&crate::text::Text>)
        ensures
            r is Some <==> self.replacements.contains_key(key@),
            r is Some ==> r->0@ == self.replacements.value_of(key@),
    {
        self.replacements.get(key)
    }
}

proof fn lemma_id_lookup_in_range(entries: Seq<IdEntry>, k: Seq<char>, n: int)
    requires
        forall|i: int| 0 <= i < entries.len() ==> #[trigger] entries[i].index < n,
    ensures
        id_lookup(entries, k) matches Some(b) ==> 0 <= b < n,
    decreases entries.len(),
{
    if entries.len() > 0 {
        assert forall|i: int| 0 <= i < entries.drop_first().len() implies #[trigger] entries.drop_first()[i].index
            < n by {
            assert(entries.drop_first()[i] == entries[i + 1]);
        }
        lemma_id_lookup_in_range(entries.drop_first(), k, n);
    }
}

/// The rendering of a paragraph block.
pub open spec fn render_paragraph(t: crate::text::Text, doc: Document) -> Seq<char> {
    "<p>"@ + crate::text::render_inlines(
        crate::text::view_inlines(t.0@),
        doc,
        crate::text::doc_fuel(doc),
        false,
    ) + "</p>\n\n"@
}

/// The rendering of a list block: its tag with the common attributes,
/// its items, and the closing tag.
pub open spec fn render_list(
    l: crate::blocks::list::List,
    common: BlockCommon,
    doc: Document,
) -> Seq<char> {
    "<"@ + crate::blocks::list::list_tag_seq(l.ordered) + " "@ + attr_seq("id"@, common.id@)
        + attr_seq("class"@, common.class@) + ">\n"@ + crate::blocks::list::render_items(
        l.items@,
        l.ordered,
        doc,
        crate::text::doc_fuel(doc),
    ) + "</"@ + crate::blocks::list::list_tag_seq(l.ordered) + ">\n"@
}

/// The rendering of the block at index `i`: markup for headings,
/// paragraphs, lists, tables, glosses and the table of contents; nothing
/// for filler headings, replacement definitions and document controls.
pub open spec fn render_block(doc: Document, i: int) -> Seq<char> {
    match doc.blocks@[i].kind {
        BlockKind::Heading(h) => crate::blocks::heading::render_heading(
            h,
            doc.blocks@[i].common,
            doc,
        ),
        BlockKind::Paragraph(t) => render_paragraph(t, doc),
        BlockKind::List(l) => render_list(l, doc.blocks@[i].common, doc),
        BlockKind::Table(t) => crate::blocks::table::render_table(t, doc.blocks@[i].common, doc),
        BlockKind::Gloss(g) => crate::blocks::gloss::render_gloss(g, doc.blocks@[i].common, doc),
        BlockKind::Contents(c) => crate::blocks::contents::render_contents(
            c,
            doc.blocks@[i].common,
            doc,
        ),
        _ => Seq::empty(),
    }
}

/// The renderings of the blocks from index `i` on, in order.
pub open spec fn render_blocks(doc: Document, i: int) -> Seq<char>
    decreases doc.blocks@.len() - i,
{
    if i < 0 || i >= doc.blocks@.len() {
        Seq::empty()
    } else {
        render_block(doc, i) + render_blocks(doc, i + 1)
    }
}

/// The language attribute of the `html` tag, with the tag's closing: the
/// language control's text where one is recorded, bare otherwise.
pub open spec fn head_lang(doc: Document) -> Seq<char> {
    match doc.lang {
        Option::Some(i) => if (i as int) < doc.blocks@.len() {
            match doc.blocks@[i as int].kind {
                BlockKind::Control(c) => match c {
                    DocumentControl::Lang(t) => " lang=\""@ + crate::text::render_inlines(
                        t@,
                        doc,
                        crate::text::doc_fuel(doc),
                        true,
                    ) + "\">\n"@,
                    _ => ">\n"@,
                },
                _ => ">\n"@,
            }
        } else {
            ">\n"@
        },
        Option::None => ">\n"@,
    }
}

/// The `title` element of the head, from the title control if recorded.
pub open spec fn head_title_meta(doc: Document) -> Seq<char> {
    match doc.title {
        Option::Some(i) => if (i as int) < doc.blocks@.len() {
            match doc.blocks@[i as int].kind {
                BlockKind::Control(c) => match c {
                    DocumentControl::Title(t) => "<title>"@ + crate::text::render_inlines(
                        t@,
                        doc,
                        crate::text::doc_fuel(doc),
                        true,
                    ) + "</title>\n"@,
                    _ => Seq::empty(),
                },
                _ => Seq::empty(),
            }
        } else {
            Seq::empty()
        },
        Option::None => Seq::empty(),
    }
}

/// The author metadata of the head, from the author control if recorded.
pub open spec fn head_author_meta(doc: Document) -> Seq<char> {
    match doc.author {
        Option::Some(i) => if (i as int) < doc.blocks@.len() {
            match doc.blocks@[i as int].kind {
                BlockKind::Control(c) => match c {
                    DocumentControl::Author(t) => "<meta name=\"author\" content=\""@
                        + crate::text::render_inlines(t@, doc, crate::text::doc_fuel(doc), true)
                        + "\" />\n"@,
                    _ => Seq::empty(),
                },
                _ => Seq::empty(),
            }
        } else {
            Seq::empty()
        },
        Option::None => Seq::empty(),
    }
}

/// The description metadata of the head, from the description control if
/// recorded.
pub open spec fn head_description_meta(doc: Document) -> Seq<char> {
    match doc.description {
        Option::Some(i) => if (i as int) < doc.blocks@.len() {
            match doc.blocks@[i as int].kind {
                BlockKind::Control(c) => match c {
                    DocumentControl::Description(t) => "<meta name=\"description\" content=\""@
                        + crate::text::render_inlines(t@, doc, crate::text::doc_fuel(doc), true)
                        + "\" />\n"@,
                    _ => Seq::empty(),
                },
                _ => Seq::empty(),
            }
        } else {
            Seq::empty()
        },
        Option::None => Seq::empty(),
    }
}

/// One stylesheet link of the head, from the control block at index `i`.
pub open spec fn head_style(doc: Document, i: usize) -> Seq<char> {
    if (i as int) < doc.blocks@.len() {
        match doc.blocks@[i as int].kind {
            BlockKind::Control(c) => match c {
                DocumentControl::Stylesheet(t) => "<link rel=\"stylesheet\" type=\"text/css\" href=\""@
                    + crate::text::render_inlines(t@, doc, crate::text::doc_fuel(doc), true)
                    + "\" />\n"@,
                _ => Seq::empty(),
            },
            _ => Seq::empty(),
        }
    } else {
        Seq::empty()
    }
}

/// The stylesheet links of the head, in the recorded order.
pub open spec fn head_styles(doc: Document, ss: Seq<usize>) -> Seq<char>
    decreases ss.len(),
{
    if ss.len() == 0 {
        Seq::empty()
    } else {
        head_style(doc, ss[0]) + head_styles(doc, ss.drop_first())
    }
}

/// The visible document title opening the body, if one is recorded.
pub open spec fn head_body_title(doc: Document) -> Seq<char> {
    match doc.title {
        Option::Some(i) => if (i as int) < doc.blocks@.len() {
            match doc.blocks@[i as int].kind {
                BlockKind::Control(c) => match c {
                    DocumentControl::Title(t) => "<h1 class=\"title\">"@
                        + crate::text::render_inlines(t@, doc, crate::text::doc_fuel(doc), false)
                        + "</h1>\n"@,
                    _ => Seq::empty(),
                },
                _ => Seq::empty(),
            }
        } else {
            Seq::empty()
        },
        Option::None => Seq::empty(),
    }
}

/// The full head matter: the document type, the `html` tag with the
/// language, the metadata and stylesheet links from the control fields,
/// and the opening of the body with the document title.
pub open spec fn render_head(doc: Document) -> Seq<char> {
    "<!doctype html>\n"@ + "<html"@ + head_lang(doc) + "<head>\n"@ + "<meta charset=\"utf-8\" />\n"@
        + head_title_meta(doc) + head_author_meta(doc) + head_description_meta(doc) + head_styles(
        doc,
        doc.stylesheets@,
    ) + "</head>\n"@ + "<body>\n"@ + head_body_title(doc)
}

/// The full rendering of the document: the head matter, every block in
/// order, and the closing tags.
pub open spec fn render_document(doc: Document) -> Seq<char> {
    render_head(doc) + render_blocks(doc, 0) + "</body>\n"@ + "</html>\n"@
}

impl Document {
    /// Renders one block: headings, paragraphs, lists, tables, glosses and
    /// the table of contents produce markup; filler headings, replacement
    /// definitions and document controls produce nothing.
    pub fn write_block(&self, w: &mut String, idx: usize)
        requires
            self.wf(),
            idx < self.blocks@.len(),
        ensures
            final(w)@ == old(w)@ + render_block(*self, idx as int),
    {
        let blk = &self.blocks[idx];
        let ghost base = w@;
        match &blk.kind {
            BlockKind::Heading(h) => {
                h.write(w, &blk.common, self);
            },
            BlockKind::Paragraph(t) => {
                w.push_str("<p>");
                let fuel = crate::text::document_fuel(self);
                t.write_fueled(w, self, fuel, false);
                w.push_str("</p>\n\n");
                proof {
                    assert(w@ =~= base + render_paragraph(
                        self.blocks@[idx as int].kind->Paragraph_0,
                        *self,
                    ));
                }
            },
            BlockKind::List(l) => {
                l.write(w, &blk.common, self);
                proof {
                    assert(w@ =~= base + render_list(*l, blk.common, *self));
                }
            },
            BlockKind::Table(t) => {
                t.write(w, &blk.common, self);
            },
            BlockKind::Gloss(g) => {
                g.write(w, &blk.common, self);
            },
            BlockKind::Contents(c) => {
                c.write(w, &blk.common, self);
            },
            BlockKind::Filler(_) => {
                proof {
                    assert(w@ =~= base + render_block(*self, idx as int));
                }
            },
            BlockKind::Replacements(_) => {
                proof {
                    assert(w@ =~= base + render_block(*self, idx as int));
                }
            },
            BlockKind::Control(_) => {
                proof {
                    assert(w@ =~= base + render_block(*self, idx as int));
                }
            },
        }
    }

    /// Writes the language attribute of the `html` tag and the tag's
    /// closing.
    fn write_head_lang(&self, w: &mut String, fuel: usize)
        requires
            self.wf(),
            fuel as nat == crate::text::doc_fuel(*self),
        ensures
            final(w)@ == old(w)@ + head_lang(*self),
    {
        let ghost base = w@;
        match self.lang {
            Option::Some(i) => {
                if i < self.blocks.len() {
                    match &self.blocks[i].kind {
                        BlockKind::Control(c) => {
                            match c {
                                DocumentControl::Lang(t) => {
                                    w.push_str(" lang=\"");
                                    t.write_fueled(w, self, fuel, true);
                                    w.push_str("\">\n");
                                },
                                _ => {
                                    w.push_str(">\n");
                                },
                            }
                        },
                        _ => {
                            w.push_str(">\n");
                        },
                    }
                } else {
                    w.push_str(">\n");
                }
            },
            Option::None => {
                w.push_str(">\n");
            },
        }
        proof {
            assert(w@ =~= base + head_lang(*self));
        }
    }

    /// Writes the `title` element of the head, if a title is recorded.
    fn write_head_title_meta(&self, w: &mut String, fuel: usize)
        requires
            self.wf(),
            fuel as nat == crate::text::doc_fuel(*self),
        ensures
            final(w)@ == old(w)@ + head_title_meta(*self),
    {
        let ghost base = w@;
        match self.title {
            Option::Some(i) => {
                if i < self.blocks.len() {
                    match &self.blocks[i].kind {
                        BlockKind::Control(c) => {
                            match c {
                                DocumentControl::Title(t) => {
                                    w.push_str("<title>");
                                    t.write_fueled(w, self, fuel, true);
                                    w.push_str("</title>\n");
                                },
                                _ => {},
                            }
                        },
                        _ => {},
                    }
                }
            },
            Option::None => {},
        }
        proof {
            assert(w@ =~= base + head_title_meta(*self));
        }
    }

    /// Writes the author metadata of the head, if an author is recorded.
    fn write_head_author_meta(&self, w: &mut String, fuel: usize)
        requires
            self.wf(),
            fuel as nat == crate::text::doc_fuel(*self),
        ensures
            final(w)@ == old(w)@ + head_author_meta(*self),
    {
        let ghost base = w@;
        match self.author {
            Option::Some(i) => {
                if i < self.blocks.len() {
                    match &self.blocks[i].kind {
                        BlockKind::Control(c) => {
                            match c {
                                DocumentControl::Author(t) => {
                                    w.push_str("<meta name=\"author\" content=\"");
                                    t.write_fueled(w, self, fuel, true);
                                    w.push_str("\" />\n");
                                },
                                _ => {},
                            }
                        },
                        _ => {},
                    }
                }
            },
            Option::None => {},
        }
        proof {
            assert(w@ =~= base + head_author_meta(*self));
        }
    }

    /// Writes the description metadata of the head, if one is recorded.
    fn write_head_description_meta(&self, w: &mut String, fuel: usize)
        requires
            self.wf(),
            fuel as nat == crate::text::doc_fuel(*self),
        ensures
            final(w)@ == old(w)@ + head_description_meta(*self),
    {
        let ghost base = w@;
        match self.description {
            Option::Some(i) => {
                if i < self.blocks.len() {
                    match &self.blocks[i].kind {
                        BlockKind::Control(c) => {
                            match c {
                                DocumentControl::Description(t) => {
                                    w.push_str("<meta name=\"description\" content=\"");
                                    t.write_fueled(w, self, fuel, true);
                                    w.push_str("\" />\n");
                                },
                                _ => {},
                            }
                        },
                        _ => {},
                    }
                }
            },
            Option::None => {},
        }
        proof {
            assert(w@ =~= base + head_description_meta(*self));
        }
    }

    /// Writes the stylesheet links of the head, in the recorded order.
    fn write_head_styles(&self, w: &mut String, fuel: usize)
        requires
            self.wf(),
            fuel as nat == crate::text::doc_fuel(*self),
        ensures
            final(w)@ == old(w)@ + head_styles(*self, self.stylesheets@),
    {
        let ghost base = w@;
        let ghost all_styles = head_styles(*self, self.stylesheets@);
        let ghost mut sout: Seq<char> = Seq::empty();
        let mut si: usize = 0;
        proof {
            assert(self.stylesheets@.skip(0) =~= self.stylesheets@);
            assert(sout + all_styles =~= all_styles);
        }
        while si < self.stylesheets.len()
            invariant
                si <= self.stylesheets@.len(),
                self.wf(),
                fuel as nat == crate::text::doc_fuel(*self),
                w@ == base + sout,
                sout + head_styles(*self, self.stylesheets@.skip(si as int)) == all_styles,
                all_styles == head_styles(*self, self.stylesheets@),
            decreases self.stylesheets@.len() - si,
        {
            let ghost rem = self.stylesheets@.skip(si as int);
            let i = self.stylesheets[si];
            if i < self.blocks.len() {
                match &self.blocks[i].kind {
                    BlockKind::Control(c) => {
                        match c {
                            DocumentControl::Stylesheet(t) => {
                                w.push_str(
                                    "<link rel=\"stylesheet\" type=\"text/css\" href=\"",
                                );
                                t.write_fueled(w, self, fuel, true);
                                w.push_str("\" />\n");
                            },
                            _ => {},
                        }
                    },
                    _ => {},
                }
            }
            proof {
                assert(rem[0] == self.stylesheets@[si as int]);
                assert(rem.drop_first() =~= self.stylesheets@.skip(si as int + 1));
                sout = sout + head_style(*self, i);
                assert(w@ =~= base + sout);
                assert(sout + head_styles(*self, self.stylesheets@.skip(si as int + 1))
                    =~= all_styles);
            }
            si = si + 1;
        }
        proof {
            assert(self.stylesheets@.skip(self.stylesheets@.len() as int) =~= Seq::<usize>::empty());
            assert(sout + Seq::<char>::empty() =~= sout);
        }
    }

    /// Writes the visible document title opening the body, if one is
    /// recorded.
    fn write_head_body_title(&self, w: &mut String, fuel: usize)
        requires
            self.wf(),
            fuel as nat == crate::text::doc_fuel(*self),
        ensures
            final(w)@ == old(w)@ + head_body_title(*self),
    {
        let ghost base = w@;
        match self.title {
            Option::Some(i) => {
                if i < self.blocks.len() {
                    match &self.blocks[i].kind {
                        BlockKind::Control(c) => {
                            match c {
                                DocumentControl::Title(t) => {
                                    w.push_str("<h1 class=\"title\">");
                                    t.write_fueled(w, self, fuel, false);
                                    w.push_str("</h1>\n");
                                },
                                _ => {},
                            }
                        },
                        _ => {},
                    }
                }
            },
            Option::None => {},
        }
        proof {
            assert(w@ =~= base + head_body_title(*self));
        }
    }

    /// Renders the head matter: the document type, the `html` tag with the
    /// language, the metadata from the control fields, the stylesheet
    /// links, and the opening of the body with the document title.
    #[verifier::rlimit(100)]
    pub fn write_head(&self, w: &mut String)
        requires
            self.wf(),
        ensures
            final(w)@ == old(w)@ + render_head(*self),
    {
        let ghost base = w@;
        let fuel = crate::text::document_fuel(self);
        w.push_str("<!doctype html>\n");
        w.push_str("<html");
        self.write_head_lang(w, fuel);
        w.push_str("<head>\n");
        w.push_str("<meta charset=\"utf-8\" />\n");
        self.write_head_title_meta(w, fuel);
        self.write_head_author_meta(w, fuel);
        self.write_head_description_meta(w, fuel);
        self.write_head_styles(w, fuel);
        w.push_str("</head>\n");
        w.push_str("<body>\n");
        self.write_head_body_title(w, fuel);
        proof {
            assert(w@ =~= base + render_head(*self));
        }
    }

    /// Renders the tail matter: the body and document closing tags.
    pub fn write_tail(&self, w: &mut String)
        ensures
            final(w)@ == old(w)@ + "</body>\n"@ + "</html>\n"@,
    {
        w.push_str("</body>\n");
        w.push_str("</html>\n");
    }

    /// Renders the whole document: the head matter, every block in order,
    /// and the tail matter.
    pub fn write(&self, w: &mut String)
        requires
            self.wf(),
        ensures
            final(w)@ == old(w)@ + render_document(*self),
    {
        let ghost base = w@;
        self.write_head(w);
        let ghost whd = w@;
        let ghost all_blocks = render_blocks(*self, 0);
        let ghost mut bout: Seq<char> = Seq::empty();
        let mut i: usize = 0;
        proof {
            assert(bout + all_blocks =~= all_blocks);
            assert(w@ =~= whd + bout);
        }
        while i < self.blocks.len()
            invariant
                i <= self.blocks@.len(),
                self.wf(),
                w@ == whd + bout,
                bout + render_blocks(*self, i as int) == all_blocks,
                all_blocks == render_blocks(*self, 0),
            decreases self.blocks@.len() - i,
        {
            self.write_block(w, i);
            proof {
                assert(render_blocks(*self, i as int) == render_block(*self, i as int)
                    + render_blocks(*self, i as int + 1));
                bout = bout + render_block(*self, i as int);
                assert(w@ =~= whd + bout);
                assert(bout + render_blocks(*self, i as int + 1) =~= all_blocks);
            }
            i = i + 1;
        }
        proof {
            assert(render_blocks(*self, i as int) == Seq::<char>::empty());
            assert(bout + Seq::<char>::empty() =~= bout);
        }
        self.write_tail(w);
        proof {
            assert(w@ =~= base + render_document(*self));
        }
    }
}

} // verus!

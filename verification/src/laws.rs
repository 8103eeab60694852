use vstd::prelude::*;
use crate::blocks::Parameter;
use crate::document::{noid_seq, Document};
use crate::strutil::{dec_digit, dec_seq};

verus! {

/// Numbering monotonicity: the dotted number assigned at a level ends in
/// that level's next child number, so when one numbered heading raises the
/// next child number by one (as `add_block` and `register_block` ensure) and interleaved
/// insertions of unnumbered siblings, deeper headings or other blocks
/// leave it unchanged, consecutive numbered siblings receive last
/// components that increase by exactly one, with the earlier components
/// untouched.
pub proof fn lemma_numbering_monotonic(
    d_before: Document,
    d_mid: Document,
    d_after: Document,
    l: int,
)
    requires
        1 <= l,
        d_mid.next_child_num(l) == d_before.next_child_num(l) + 1,
        d_after.next_child_num(l) == d_mid.next_child_num(l),
        forall|j: int| 1 <= j < l ==> #[trigger] d_after.level_num(j) == d_before.level_num(j),
    ensures
        d_after.assigned_number(l).len() == l,
        d_before.assigned_number(l).len() == l,
        d_after.assigned_number(l)[l - 1] == d_before.assigned_number(l)[l - 1] + 1,
        forall|j: int|
            0 <= j < l - 1 ==> #[trigger] d_after.assigned_number(l)[j]
                == d_before.assigned_number(l)[j],
{
    assert(d_after.assigned_number(l)[l - 1] == d_after.level_num(l) + 1);
    assert(d_before.assigned_number(l)[l - 1] == d_before.level_num(l) + 1);
}

/// Filler minimality: when the chain of last children already reaches the
/// heading's own level, no filler is needed at all, so the growth that
/// `add_block` and `register_block` ensure, of
/// `1 + level - usable_depth(level)` blocks, is exactly
/// one block. In general that growth counts one filler for each level the
/// chain falls short, the minimum that keeps every section list's level
/// contiguous (which the document invariant demands of every list).
pub proof fn lemma_filler_minimal(d: Document, l: int)
    requires
        1 <= l,
        d.chain_curr(l) is Some,
    ensures
        d.usable_depth(l) == l,
{
    crate::document::lemma_usable_at_least(d, l, l);
    crate::document::lemma_usable_le(d, l);
}

/// Decimal digits are distinct characters.
proof fn lemma_dec_digit_injective(a: nat, b: nat)
    requires
        a < 10,
        b < 10,
        dec_digit(a) == dec_digit(b),
    ensures
        a == b,
{
}

/// A decimal rendering has at least one character.
proof fn lemma_dec_seq_len(n: nat)
    ensures
        dec_seq(n).len() >= 1,
        n >= 10 ==> dec_seq(n).len() >= 2,
    decreases n,
{
    if n >= 10 {
        lemma_dec_seq_len(n / 10);
    }
}

/// Decimal renderings are injective: different numbers render differently.
pub proof fn lemma_dec_seq_injective(a: nat, b: nat)
    requires
        dec_seq(a) == dec_seq(b),
    ensures
        a == b,
    decreases a,
{
    lemma_dec_seq_len(a);
    lemma_dec_seq_len(b);
    if a < 10 && b < 10 {
        assert(dec_seq(a)[0] == dec_digit(a));
        assert(dec_seq(b)[0] == dec_digit(b));
        lemma_dec_digit_injective(a, b);
    } else if a < 10 || b < 10 {
        assert(false);
    } else {
        assert(dec_seq(a).last() == dec_digit(a % 10));
        assert(dec_seq(b).last() == dec_digit(b % 10));
        lemma_dec_digit_injective(a % 10, b % 10);
        assert(dec_seq(a).drop_last() =~= dec_seq(a / 10)) by {
            assert(dec_seq(a) == dec_seq(a / 10) + seq![dec_digit(a % 10)]);
        }
        assert(dec_seq(b).drop_last() =~= dec_seq(b / 10)) by {
            assert(dec_seq(b) == dec_seq(b / 10) + seq![dec_digit(b % 10)]);
        }
        lemma_dec_seq_injective(a / 10, b / 10);
    }
}

/// Id uniqueness for blocks without an explicit id: the auto-generated ids
/// of two different counter values never collide, so two blocks that both
/// arrive without an id always get distinct ids (`add_block` and
/// `register_block` ensure the counter grows with each one).
pub proof fn lemma_auto_ids_distinct(n1: nat, n2: nat)
    requires
        n1 != n2,
    ensures
        noid_seq(n1) != noid_seq(n2),
{
    if noid_seq(n1) == noid_seq(n2) {
        let p = "__no-id-"@;
        assert(noid_seq(n1) == p + dec_seq(n1));
        assert(noid_seq(n2) == p + dec_seq(n2));
        assert(dec_seq(n1) =~= dec_seq(n2)) by {
            assert((p + dec_seq(n1)).len() == p.len() + dec_seq(n1).len());
            assert((p + dec_seq(n2)).len() == p.len() + dec_seq(n2).len());
            assert(dec_seq(n1).len() == dec_seq(n2).len());
            assert forall|i: int| 0 <= i < dec_seq(n1).len() implies dec_seq(n1)[i] == dec_seq(
                n2,
            )[i] by {
                assert((p + dec_seq(n1))[p.len() + i] == dec_seq(n1)[i]);
                assert((p + dec_seq(n2))[p.len() + i] == dec_seq(n2)[i]);
            }
        }
        lemma_dec_seq_injective(n1, n2);
    }
}

/// Parameter fallback: every keyless parameter counts as a `class`
/// parameter to the common attributes, the handler of last resort, so a
/// bare word no kind-specific field recognises always lands as the
/// block's class (as `BlockCommon::update_param` ensures).
pub proof fn lemma_parameter_fallback(p: Parameter)
    requires
        p.0 is None,
    ensures
        crate::blocks::param_is(p, "class"@),
{
}

} // verus!

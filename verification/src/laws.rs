//! What holds of every generation, whatever the template and the flags.

use crate::bitmask::{
    bit_at, lemma_bit_of_half, lemma_full_mask_is_set, lemma_masks_differ,
    lemma_zero_mask_is_clear, valid_flag_count,
};
use crate::error::MatrixError;
use crate::flags::{capabilities, FlagModel};
use crate::generator::{
    all_variants, emitted, first_fault_from, first_unsound_from, flag_fault,
    flags_accepted, outcome, variant_is_sound, variant_of, written, VariantModel,
};
use crate::syntax::is_trait_syntax;
use crate::guard::{atom_texts, guard_of, guard_text, AtomModel};
use crate::text::{joined, lemma_joined_begins, lemma_joined_splits};
use crate::template::{extended, granted, template_text, TemplateModel};
use vstd::arithmetic::power2::{lemma2_to64, lemma_pow2_unfold, pow2};
use vstd::prelude::*;

verus! {

/// No fault is found from position `from` on exactly where every flag from
/// there on is accepted.
proof fn lemma_no_fault_from(flags: Seq<FlagModel>, from: int)
    requires
        0 <= from <= flags.len(),
    ensures
        first_fault_from(flags, from) is None <==> forall|j: int|
            from <= j < flags.len() ==> flag_fault(#[trigger] flags[j], j) is None,
    decreases flags.len() - from,
{
    if from < flags.len() {
        lemma_no_fault_from(flags, from + 1);
    }
}

/// No unsound variant is found from position `from` on exactly where every
/// variant from there on is sound.
proof fn lemma_no_unsound_from(variants: Seq<VariantModel>, from: int)
    requires
        0 <= from <= variants.len(),
    ensures
        first_unsound_from(variants, from) is None <==> forall|m: int|
            from <= m < variants.len() ==> variant_is_sound(#[trigger] variants[m]),
    decreases variants.len() - from,
{
    if from < variants.len() {
        lemma_no_unsound_from(variants, from + 1);
    }
}

/// For one to `MAX_FLAGS` flags, a template that is accepted and flags that
/// are all accepted, the generation succeeds, and it yields exactly `2^n`
/// variants, the variant of mask `m` at position `m`: all of them, in
/// ascending order of the masks.
pub proof fn lemma_accepted_input_gives_every_variant(
    template: TemplateModel,
    flags: Seq<FlagModel>,
)
    requires
        valid_flag_count(flags.len()),
        is_trait_syntax(template_text(template)),
        flags_accepted(flags),
    ensures
        outcome(template, flags) == Ok::<Seq<VariantModel>, MatrixError>(
            all_variants(template, flags),
        ),
        all_variants(template, flags).len() == pow2(flags.len()),
        forall|m: int|
            0 <= m < pow2(flags.len()) ==> #[trigger] all_variants(template, flags)[m]
                == variant_of(template, flags, m as nat),
{
    lemma_no_fault_from(flags, 0);
}

/// A generation yields all `2^n` variants in order or none: where it
/// succeeds the number of flags was valid and nothing is missing, and where
/// it fails it says why with a configuration error or a parse error.
/// Writing it down adds one way to fail and changes nothing else.
pub proof fn lemma_all_variants_or_none(template: TemplateModel, flags: Seq<FlagModel>)
    ensures
        match outcome(template, flags) {
            Ok(variants) => {
                &&& valid_flag_count(flags.len())
                &&& variants.len() == pow2(flags.len())
                &&& forall|m: int|
                    0 <= m < variants.len() ==> #[trigger] variants[m] == variant_of(
                        template,
                        flags,
                        m as nat,
                    )
            },
            Err(error) => error is Configuration || error is Parse,
        },
        match written(template, flags) {
            Ok(text) => outcome(template, flags) is Ok && text == emitted(
                all_variants(template, flags),
            ),
            Err(error) => error is InternalInvariant ==> outcome(template, flags) is Ok
                && error->mask < pow2(flags.len()),
        },
{
    if outcome(template, flags) is Ok {
        let variants = all_variants(template, flags);
        lemma_unsound_is_in_range(variants, 0);
    }
}

/// The first unsound variant from `from` on, if there is one, stands at a
/// position of the list.
proof fn lemma_unsound_is_in_range(variants: Seq<VariantModel>, from: int)
    requires
        0 <= from <= variants.len(),
    ensures
        first_unsound_from(variants, from) matches Some(m) ==> from <= m < variants.len(),
    decreases variants.len() - from,
{
    if from < variants.len() {
        lemma_unsound_is_in_range(variants, from + 1);
    }
}

/// Where the input is accepted and every variant reads as it should, the
/// text of all `2^n` variants is written.
pub proof fn lemma_sound_variants_are_written(template: TemplateModel, flags: Seq<FlagModel>)
    requires
        valid_flag_count(flags.len()),
        is_trait_syntax(template_text(template)),
        flags_accepted(flags),
        forall|m: nat|
            m < pow2(flags.len()) ==> variant_is_sound(#[trigger] variant_of(template, flags, m)),
    ensures
        written(template, flags) == Ok::<Seq<char>, MatrixError>(
            emitted(all_variants(template, flags)),
        ),
{
    lemma_accepted_input_gives_every_variant(template, flags);
    let variants = all_variants(template, flags);
    lemma_no_unsound_from(variants, 0);
    assert forall|m: int| 0 <= m < variants.len() implies variant_is_sound(
        #[trigger] variants[m],
    ) by {
        assert(variant_is_sound(variant_of(template, flags, m as nat)));
    }
}

/// A generation over no flag, or over more than `MAX_FLAGS`, fails with a
/// configuration error that carries the number of flags, whatever else is
/// wrong with the input. No variant is produced and no text is written.
pub proof fn lemma_invalid_count_is_refused(template: TemplateModel, flags: Seq<FlagModel>)
    requires
        !valid_flag_count(flags.len()),
    ensures
        outcome(template, flags) == Err::<Seq<VariantModel>, MatrixError>(
            MatrixError::Configuration { count: flags.len() as usize },
        ),
        written(template, flags) == Err::<Seq<char>, MatrixError>(
            MatrixError::Configuration { count: flags.len() as usize },
        ),
{
}

/// What a generation comes to depends on the texts of its input and on
/// nothing else: equal texts give equal variants and equal output, or the
/// same error.
pub proof fn lemma_generation_is_repeatable(
    template: TemplateModel,
    flags: Seq<FlagModel>,
    template_again: TemplateModel,
    flags_again: Seq<FlagModel>,
)
    requires
        template.identity == template_again.identity,
        template.extensions == template_again.extensions,
        template.body == template_again.body,
        flags.len() == flags_again.len(),
        forall|j: int|
            0 <= j < flags.len() ==> flags[j].capability == flags_again[j].capability
                && flags[j].predicate == flags_again[j].predicate,
    ensures
        outcome(template, flags) == outcome(template_again, flags_again),
        written(template, flags) == written(template_again, flags_again),
{
    assert(flags =~= flags_again);
}

/// The guards of two different masks differ, so no two variants of one
/// generation stand under the same guard.
pub proof fn lemma_guards_are_distinct(flags: Seq<FlagModel>, a: nat, b: nat)
    requires
        a != b,
        a < pow2(flags.len()),
        b < pow2(flags.len()),
    ensures
        guard_of(flags, a) != guard_of(flags, b),
{
    let j = lemma_masks_differ(a, b, flags.len());
    assert(guard_of(flags, a)[j as int].asserted != guard_of(flags, b)[j as int].asserted);
}

/// Where a text that begins with `predicate` equals one that begins with
/// `not(` and then `predicate`, the predicate is `not(` written over and over.
proof fn lemma_predicate_repeats(
    predicate: Seq<char>,
    after: Seq<char>,
    after_denied: Seq<char>,
    k: int,
)
    requires
        predicate + after == "not("@ + predicate + ")"@ + after_denied,
        0 <= k < predicate.len(),
    ensures
        predicate[k] == "not("@[k % 4],
    decreases k,
{
    reveal_strlit("not(");
    let stated = predicate + after;
    let denied = "not("@ + predicate + ")"@ + after_denied;
    assert(stated[k] == predicate[k]);
    if k < 4 {
        assert(denied[k] == "not("@[k]);
    } else {
        lemma_predicate_repeats(predicate, after, after_denied, k - 4);
        assert(denied[k] == predicate[k - 4]);
    }
}

/// A predicate followed by a comma or a closing bracket never reads the
/// same as its denial, whatever follows the two.
proof fn lemma_denial_changes_the_text(
    predicate: Seq<char>,
    after: Seq<char>,
    after_denied: Seq<char>,
)
    requires
        after.len() > 0,
        after[0] == ',' || after[0] == ')',
    ensures
        predicate + after != "not("@ + predicate + ")"@ + after_denied,
{
    reveal_strlit("not(");
    let stated = predicate + after;
    let denied = "not("@ + predicate + ")"@ + after_denied;
    let n = predicate.len() as int;
    if stated == denied {
        assert(stated[n] == after[0]);
        if n < 4 {
            assert(denied[n] == "not("@[n]);
        } else {
            lemma_predicate_repeats(predicate, after, after_denied, n - 4);
            assert(denied[n] == predicate[n - 4]);
        }
        assert(false);
    }
}

/// What stands before part `j` in the attribute made of `parts`.
spec fn text_before(parts: Seq<Seq<char>>, j: int) -> Seq<char> {
    "#[cfg(all("@ + if j == 0 {
        Seq::<char>::empty()
    } else {
        joined(parts.take(j), ", "@) + ", "@
    }
}

/// What stands after part `j` in the attribute made of `parts`.
spec fn text_after(parts: Seq<Seq<char>>, j: int) -> Seq<char> {
    (if j + 1 == parts.len() {
        Seq::<char>::empty()
    } else {
        ", "@ + joined(parts.skip(j + 1), ", "@)
    }) + "))]"@
}

/// The attribute of a guard falls into what stands before atom `j`, the
/// atom, and what stands after it.
proof fn lemma_guard_text_around(guard: Seq<AtomModel>, j: int)
    requires
        0 <= j < guard.len(),
    ensures
        guard_text(guard) == text_before(atom_texts(guard), j) + (atom_texts(guard)[j]
            + text_after(atom_texts(guard), j)),
{
    let parts = atom_texts(guard);
    let separator = ", "@;
    let from = parts.skip(j);
    lemma_joined_splits(parts, separator, j);
    lemma_joined_begins(from, separator);
    assert(from[0] == parts[j]);
    assert(from.skip(1) =~= parts.skip(j + 1));
    let middle = parts[j] + if j + 1 == parts.len() {
        Seq::<char>::empty()
    } else {
        separator + joined(parts.skip(j + 1), separator)
    };
    assert(joined(from, separator) =~= middle);
    assert(guard_text(guard) =~= text_before(parts, j) + (parts[j] + text_after(parts, j)));
}

/// Two guards that agree up to flag `j`, where one states the predicate and
/// the other denies it, differ as written.
proof fn lemma_texts_differ_at(flags: Seq<FlagModel>, stating: nat, denying: nat, j: nat)
    requires
        j < flags.len(),
        bit_at(stating, j),
        !bit_at(denying, j),
        forall|k: nat| k < j ==> bit_at(stating, k) == bit_at(denying, k),
    ensures
        guard_text(guard_of(flags, stating)) != guard_text(guard_of(flags, denying)),
{
    let stated = atom_texts(guard_of(flags, stating));
    let denied = atom_texts(guard_of(flags, denying));
    let predicate = flags[j as int].predicate;
    let at = j as int;

    assert(stated[at] == predicate);
    assert(denied[at] == "not("@ + predicate + ")"@);
    assert(stated.take(at) =~= denied.take(at)) by {
        assert forall|k: int| 0 <= k < at implies stated[k] == denied[k] by {
            assert(bit_at(stating, k as nat) == bit_at(denying, k as nat));
        }
    }
    lemma_guard_text_around(guard_of(flags, stating), at);
    lemma_guard_text_around(guard_of(flags, denying), at);

    let before = text_before(stated, at);
    let after = text_after(stated, at);
    let after_denied = text_after(denied, at);
    assert(text_before(denied, at) == before);
    assert(after.len() > 0 && (after[0] == ',' || after[0] == ')')) by {
        reveal_strlit(", ");
        reveal_strlit("))]");
    }
    lemma_denial_changes_the_text(predicate, after, after_denied);
    let one = before + (predicate + after);
    let other = before + ("not("@ + predicate + ")"@ + after_denied);
    if one == other {
        assert(one.skip(before.len() as int) =~= predicate + after);
        assert(other.skip(before.len() as int) =~= "not("@ + predicate + ")"@ + after_denied);
        assert(false);
    }
}

/// The guards of two different masks differ as written, too: no two
/// variants of one generation are emitted under the same attribute. This
/// holds of any predicates, equal ones and ones that hold brackets or
/// `not(` themselves included.
pub proof fn lemma_guard_texts_are_distinct(flags: Seq<FlagModel>, a: nat, b: nat)
    requires
        a != b,
        a < pow2(flags.len()),
        b < pow2(flags.len()),
    ensures
        guard_text(guard_of(flags, a)) != guard_text(guard_of(flags, b)),
{
    let j = lemma_masks_differ(a, b, flags.len());
    if bit_at(a, j) {
        lemma_texts_differ_at(flags, a, b, j);
    } else {
        lemma_texts_differ_at(flags, b, a, j);
    }
}

/// The mask 0 grants nothing.
pub proof fn lemma_zero_mask_grants_nothing(flags: Seq<FlagModel>)
    ensures
        granted(flags, 0) == Seq::<Seq<char>>::empty(),
    decreases flags.len(),
{
    if flags.len() > 0 {
        lemma_zero_mask_grants_nothing(flags.drop_last());
        lemma_zero_mask_is_clear((flags.len() - 1) as nat);
    }
}

/// A mask whose bit is set for every flag grants every capability, in flag
/// order.
pub proof fn lemma_set_bits_grant_all(flags: Seq<FlagModel>, mask: nat)
    requires
        forall|j: nat| j < flags.len() ==> bit_at(mask, j),
    ensures
        granted(flags, mask) == capabilities(flags),
    decreases flags.len(),
{
    if flags.len() > 0 {
        lemma_set_bits_grant_all(flags.drop_last(), mask);
        assert(bit_at(mask, (flags.len() - 1) as nat));
        assert(capabilities(flags.drop_last()).push(flags.last().capability) =~= capabilities(
            flags,
        ));
    } else {
        assert(capabilities(flags) =~= Seq::<Seq<char>>::empty());
    }
}

/// The first variant, that of mask 0, denies every predicate and leaves the
/// template as it was.
pub proof fn lemma_first_variant_is_bare(template: TemplateModel, flags: Seq<FlagModel>)
    ensures
        variant_of(template, flags, 0).guard.len() == flags.len(),
        forall|j: int|
            0 <= j < flags.len() ==> #[trigger] variant_of(template, flags, 0).guard[j] == (
            AtomModel { predicate: flags[j].predicate, asserted: false }),
        variant_of(template, flags, 0).template == template,
{
    assert forall|j: int| 0 <= j < flags.len() implies #[trigger] variant_of(
        template,
        flags,
        0,
    ).guard[j] == (AtomModel { predicate: flags[j].predicate, asserted: false }) by {
        lemma_zero_mask_is_clear(j as nat);
    }
    lemma_zero_mask_grants_nothing(flags);
    assert(template.extensions + Seq::<Seq<char>>::empty() =~= template.extensions);
}

/// The last variant, that of mask `2^n - 1`, states every predicate and
/// carries the template's own bounds followed by all `n` capabilities in
/// flag order.
pub proof fn lemma_last_variant_is_full(template: TemplateModel, flags: Seq<FlagModel>)
    ensures
        pow2(flags.len()) >= 1,
        variant_of(template, flags, (pow2(flags.len()) - 1) as nat).guard.len() == flags.len(),
        forall|j: int|
            0 <= j < flags.len() ==> #[trigger] variant_of(
                template,
                flags,
                (pow2(flags.len()) - 1) as nat,
            ).guard[j] == (AtomModel { predicate: flags[j].predicate, asserted: true }),
        variant_of(template, flags, (pow2(flags.len()) - 1) as nat).template == extended(
            template,
            capabilities(flags),
        ),
{
    let n = flags.len();
    let full = (pow2(n) - 1) as nat;
    lemma2_to64();
    if n > 0 {
        lemma_full_mask_is_set(n, 0);
    }
    assert forall|j: nat| j < n implies bit_at(full, j) by {
        lemma_full_mask_is_set(n, j);
    }
    assert forall|j: int| 0 <= j < n implies #[trigger] variant_of(template, flags, full).guard[j]
        == (AtomModel { predicate: flags[j].predicate, asserted: true }) by {
        assert(bit_at(full, j as nat));
    }
    lemma_set_bits_grant_all(flags, full);
}

/// Whether `guard` holds where predicate `j` comes to `truth[j]`: every atom
/// that states its predicate finds it true, every atom that denies it finds
/// it false.
pub open spec fn guard_holds(guard: Seq<AtomModel>, truth: Seq<bool>) -> bool {
    &&& guard.len() == truth.len()
    &&& forall|j: int| 0 <= j < guard.len() ==> (#[trigger] guard[j]).asserted == truth[j]
}

/// The mask whose bit `j` is set exactly where `truth[j]` holds.
pub open spec fn mask_of(truth: Seq<bool>) -> nat
    decreases truth.len(),
{
    if truth.len() == 0 {
        0
    } else {
        2 * mask_of(truth.drop_first()) + if truth[0] {
            1nat
        } else {
            0nat
        }
    }
}

/// `mask_of(truth)` is a mask of `truth.len()` flags, and its bits are the
/// entries of `truth`.
pub proof fn lemma_mask_of_truth(truth: Seq<bool>)
    ensures
        mask_of(truth) < pow2(truth.len()),
        forall|j: nat| j < truth.len() ==> bit_at(mask_of(truth), j) == truth[j as int],
    decreases truth.len(),
{
    lemma2_to64();
    if truth.len() > 0 {
        let rest = truth.drop_first();
        let mask = mask_of(truth);
        lemma_mask_of_truth(rest);
        lemma_pow2_unfold(truth.len());
        assert(mask / 2 == mask_of(rest));
        assert forall|j: nat| j < truth.len() implies bit_at(mask, j) == truth[j as int] by {
            if j > 0 {
                let below = (j - 1) as nat;
                lemma_bit_of_half(mask, below);
                assert(bit_at(mask_of(rest), below) == rest[below as int]);
                assert(rest[below as int] == truth[j as int]);
            } else {
                assert(mask / 1 == mask);
            }
        }
    }
}

/// Whatever the predicates come to, exactly one of the `2^n` guards holds:
/// the guards exclude one another and leave no case out.
pub proof fn lemma_exactly_one_guard_holds(flags: Seq<FlagModel>, truth: Seq<bool>)
    requires
        truth.len() == flags.len(),
    ensures
        mask_of(truth) < pow2(flags.len()),
        guard_holds(guard_of(flags, mask_of(truth)), truth),
        forall|mask: nat|
            mask < pow2(flags.len()) && #[trigger] guard_holds(guard_of(flags, mask), truth)
                ==> mask == mask_of(truth),
{
    lemma_mask_of_truth(truth);
    let chosen = mask_of(truth);
    assert forall|mask: nat|
        mask < pow2(flags.len()) && #[trigger] guard_holds(
            guard_of(flags, mask),
            truth,
        ) implies mask == chosen by {
        if mask != chosen {
            let j = lemma_masks_differ(mask, chosen, flags.len());
            assert(guard_of(flags, mask)[j as int].asserted == bit_at(mask, j));
        }
    }
}

} // verus!

//! The generator: from a template and its flags to the guarded variants.
//!
//! `expand` is the matrix itself and asks nothing of the texts it moves.
//! `generate` puts the checks of the input around it: the number of flags,
//! then the syntax of the template and of every flag. On input that passes
//! them it always yields all `2^n` variants. `cfg_matrix` then looks at
//! what came out, and writes it down as one text if every variant reads as
//! it should.

use crate::bitmask::{all_masks, valid_flag_count, Bitmasks};
use crate::error::{MatrixError, ParseSite};
use crate::flags::{count_is_valid, flag_models, FlagModel, FlagSpec};
use crate::guard::{
    atom_models, atom_text, build_guard, guard_of, guard_text, render_guard, Atom, AtomModel,
};
use crate::syntax::{
    fault_at, is_bound_syntax, is_meta_syntax, is_trait_syntax, parse_bound, parse_meta,
    parse_trait,
};
use crate::template::{
    extended, granted, granted_capabilities, template_text, Template, TemplateModel,
};
use crate::text::{join, joined, texts};
use vstd::arithmetic::power2::pow2;
use vstd::prelude::*;
use vstd::string::StringExecFns;

verus! {

/// One generated definition: a copy of the template, extended, under its guard.
#[derive(Debug, Clone, PartialEq, Eq)]
pub struct Variant {
    /// The condition under which this variant is the active one.
    pub guard: Vec<Atom>,
    /// The template with the granted capabilities appended to its bounds.
    pub template: Template,
}

/// What a variant is to the contracts.
pub struct VariantModel {
    pub guard: Seq<AtomModel>,
    pub template: TemplateModel,
}

impl View for Variant {
    type V = VariantModel;

    open spec fn view(&self) -> VariantModel {
        VariantModel { guard: atom_models(self.guard@), template: self.template@ }
    }
}

/// The models of a list of variants, in the same order.
pub open spec fn variant_models(variants: Seq<Variant>) -> Seq<VariantModel> {
    variants.map_values(|v: Variant| v@)
}

/// The variant of `mask`: its guard, and the template extended by what the
/// mask grants.
pub open spec fn variant_of(
    template: TemplateModel,
    flags: Seq<FlagModel>,
    mask: nat,
) -> VariantModel {
    VariantModel {
        guard: guard_of(flags, mask),
        template: extended(template, granted(flags, mask)),
    }
}

/// All variants of a declaration: one per mask, the variant of mask `m` at
/// position `m`.
pub open spec fn all_variants(template: TemplateModel, flags: Seq<FlagModel>) -> Seq<
    VariantModel,
> {
    Seq::new(pow2(flags.len()), |m: int| variant_of(template, flags, m as nat))
}

/// What is wrong with the flag at position `j`, if anything: its capability
/// is looked at before its predicate.
pub open spec fn flag_fault(flag: FlagModel, j: int) -> Option<ParseSite> {
    if !is_bound_syntax(flag.capability) {
        Some(ParseSite::Capability(j as usize))
    } else if !is_meta_syntax(flag.predicate) {
        Some(ParseSite::Predicate(j as usize))
    } else {
        None
    }
}

/// The first fault among the flags from position `from` on.
pub open spec fn first_fault_from(flags: Seq<FlagModel>, from: int) -> Option<ParseSite>
    decreases flags.len() - from,
{
    if from < 0 || from >= flags.len() {
        None
    } else {
        match flag_fault(flags[from], from) {
            Some(site) => Some(site),
            None => first_fault_from(flags, from + 1),
        }
    }
}

/// The first fault among the flags, in flag order.
pub open spec fn first_fault(flags: Seq<FlagModel>) -> Option<ParseSite> {
    first_fault_from(flags, 0)
}

/// Whether a variant can be handed on: each of its atoms reads as a `cfg`
/// condition and its definition reads as a trait.
pub open spec fn variant_is_sound(variant: VariantModel) -> bool {
    &&& forall|j: int|
        0 <= j < variant.guard.len() ==> is_meta_syntax(atom_text(#[trigger] variant.guard[j]))
    &&& is_trait_syntax(template_text(variant.template))
}

/// The position of the first unsound variant from position `from` on.
pub open spec fn first_unsound_from(variants: Seq<VariantModel>, from: int) -> Option<int>
    decreases variants.len() - from,
{
    if from < 0 || from >= variants.len() {
        None
    } else if !variant_is_sound(variants[from]) {
        Some(from)
    } else {
        first_unsound_from(variants, from + 1)
    }
}

/// Whether every flag is accepted: each capability reads as a bound, each
/// predicate as a `cfg` condition.
pub open spec fn flags_accepted(flags: Seq<FlagModel>) -> bool {
    forall|j: int|
        0 <= j < flags.len() ==> is_bound_syntax((#[trigger] flags[j]).capability)
            && is_meta_syntax(flags[j].predicate)
}

/// What a generation comes to. The checks run in this order, and the first
/// that fails decides: the number of flags, the template, the flags one by
/// one. Input that passes all three gives every variant.
pub open spec fn outcome(template: TemplateModel, flags: Seq<FlagModel>) -> Result<
    Seq<VariantModel>,
    MatrixError,
> {
    if !valid_flag_count(flags.len()) {
        Err(MatrixError::Configuration { count: flags.len() as usize })
    } else if !is_trait_syntax(template_text(template)) {
        Err(MatrixError::Parse { site: ParseSite::Template })
    } else if let Some(site) = first_fault(flags) {
        Err(MatrixError::Parse { site })
    } else {
        Ok(all_variants(template, flags))
    }
}

/// What writing a generation down comes to: the error of the generation
/// where it failed; else the mask of the first variant that does not read as
/// it should; else the text of all variants.
pub open spec fn written(template: TemplateModel, flags: Seq<FlagModel>) -> Result<
    Seq<char>,
    MatrixError,
> {
    match outcome(template, flags) {
        Err(error) => Err(error),
        Ok(variants) => match first_unsound_from(variants, 0) {
            Some(mask) => Err(MatrixError::InternalInvariant { mask: mask as usize }),
            None => Ok(emitted(variants)),
        },
    }
}

/// The text of one variant: the guard on a line of its own, then the
/// definition.
pub open spec fn variant_text(variant: VariantModel) -> Seq<char> {
    guard_text(variant.guard) + "\n"@ + template_text(variant.template)
}

/// The text of a list of variants: one after another, each starting on a
/// new line.
pub open spec fn emitted(variants: Seq<VariantModel>) -> Seq<char> {
    joined(variants.map_values(|v: VariantModel| variant_text(v)), "\n"@)
}

/// Builds the variant of `mask` on a copy of `template`.
pub fn make_variant(template: &Template, flags: &Vec<FlagSpec>, mask: usize) -> (variant: Variant)
    ensures
        variant@ == variant_of(template@, flag_models(flags@), mask as nat),
{
    let guard = build_guard(mask, flags);
    let mut copy = template.duplicate();
    copy.extend(granted_capabilities(mask, flags));
    Variant { guard, template: copy }
}

/// Builds every variant, in ascending order of the masks.
pub fn expand(template: &Template, flags: &Vec<FlagSpec>) -> (variants: Vec<Variant>)
    requires
        valid_flag_count(flags.len() as nat),
    ensures
        variant_models(variants@) == all_variants(template@, flag_models(flags@)),
{
    let ghost models = flag_models(flags@);
    let ghost masks = all_masks(flags.len() as nat);
    let mut walk = Bitmasks::new(flags.len());
    let mut variants: Vec<Variant> = Vec::new();
    loop
        invariant
            models == flag_models(flags@),
            masks == all_masks(flags.len() as nat),
            variants.len() <= masks.len(),
            walk.remaining() == masks.skip(variants.len() as int),
            forall|m: int|
                0 <= m < variants.len() ==> (#[trigger] variants@[m])@ == variant_of(
                    template@,
                    models,
                    m as nat,
                ),
        ensures
            variants.len() == masks.len(),
        decreases walk.remaining().len(),
    {
        match walk.next_mask() {
            None => {
                break;
            },
            Some(mask) => {
                variants.push(make_variant(template, flags, mask));
                assert(walk.remaining() =~= masks.skip(variants.len() as int));
            },
        }
    }
    assert(variant_models(variants@) =~= all_variants(template@, models));
    variants
}

/// Asks whether the template reads as a trait definition.
pub fn check_template(template: &Template) -> (checked: Result<(), MatrixError>)
    ensures
        checked == if is_trait_syntax(template_text(template@)) {
            Ok::<(), MatrixError>(())
        } else {
            Err::<(), MatrixError>(MatrixError::Parse { site: ParseSite::Template })
        },
{
    let text = template.render();
    fault_at(parse_trait(text.as_str()), ParseSite::Template)
}

/// Asks of every flag, in order, whether its capability reads as a bound and
/// its predicate as a `cfg` condition, and stops at the first that does not.
pub fn check_flags(flags: &Vec<FlagSpec>) -> (checked: Result<(), MatrixError>)
    ensures
        checked == match first_fault(flag_models(flags@)) {
            None => Ok::<(), MatrixError>(()),
            Some(site) => Err::<(), MatrixError>(MatrixError::Parse { site }),
        },
{
    let ghost models = flag_models(flags@);
    let mut j: usize = 0;
    while j < flags.len()
        invariant
            j <= flags.len(),
            models == flag_models(flags@),
            first_fault(models) == first_fault_from(models, j as int),
        decreases flags.len() - j,
    {
        let bound = fault_at(parse_bound(flags[j].capability.as_str()), ParseSite::Capability(j));
        if bound.is_err() {
            return bound;
        }
        let condition = fault_at(
            parse_meta(flags[j].predicate.as_str()),
            ParseSite::Predicate(j),
        );
        if condition.is_err() {
            return condition;
        }
        j += 1;
    }
    Ok(())
}

/// Asks whether a variant can be handed on.
pub fn check_variant(variant: &Variant) -> (sound: bool)
    ensures
        sound == variant_is_sound(variant@),
{
    let mut j: usize = 0;
    while j < variant.guard.len()
        invariant
            j <= variant.guard.len(),
            forall|k: int|
                0 <= k < j ==> is_meta_syntax(atom_text(#[trigger] variant@.guard[k])),
        decreases variant.guard.len() - j,
    {
        let text = variant.guard[j].render();
        assert(variant@.guard[j as int] == variant.guard@[j as int]@);
        if parse_meta(text.as_str()).is_err() {
            return false;
        }
        j += 1;
    }
    let text = variant.template.render();
    parse_trait(text.as_str()).is_ok()
}

/// Asks of every variant, in order, whether it can be handed on, and names
/// the mask of the first that cannot.
pub fn check_variants(variants: &Vec<Variant>) -> (checked: Result<(), MatrixError>)
    ensures
        checked == match first_unsound_from(variant_models(variants@), 0) {
            None => Ok::<(), MatrixError>(()),
            Some(mask) => Err::<(), MatrixError>(
                MatrixError::InternalInvariant { mask: mask as usize },
            ),
        },
{
    let ghost models = variant_models(variants@);
    let mut mask: usize = 0;
    while mask < variants.len()
        invariant
            mask <= variants.len(),
            models == variant_models(variants@),
            first_unsound_from(models, 0) == first_unsound_from(models, mask as int),
        decreases variants.len() - mask,
    {
        if !check_variant(&variants[mask]) {
            return Err(MatrixError::InternalInvariant { mask });
        }
        mask += 1;
    }
    Ok(())
}

/// Generates the variants of `template` over `flags`, all of them or none.
pub fn generate(template: &Template, flags: &Vec<FlagSpec>) -> (out: Result<
    Vec<Variant>,
    MatrixError,
>)
    ensures
        match outcome(template@, flag_models(flags@)) {
            Ok(variants) => out is Ok && variant_models(out->Ok_0@) == variants,
            Err(error) => out == Err::<Vec<Variant>, MatrixError>(error),
        },
{
    if !count_is_valid(flags.len()) {
        return Err(MatrixError::Configuration { count: flags.len() });
    }
    match check_template(template) {
        Err(error) => {
            return Err(error);
        },
        Ok(_) => {},
    }
    match check_flags(flags) {
        Err(error) => Err(error),
        Ok(_) => Ok(expand(template, flags)),
    }
}

impl Variant {
    /// Writes the variant out: the guard on a line of its own, then the
    /// definition.
    pub fn render(&self) -> (out: String)
        ensures
            out@ == variant_text(self@),
    {
        let mut out = render_guard(&self.guard);
        out.append("\n");
        out.append(self.template.render().as_str());
        out
    }
}

/// Writes a list of variants out in order, each starting on a new line.
pub fn emit(variants: &Vec<Variant>) -> (out: String)
    ensures
        out@ == emitted(variant_models(variants@)),
{
    let mut parts: Vec<String> = Vec::new();
    let mut m: usize = 0;
    while m < variants.len()
        invariant
            m <= variants.len(),
            parts.len() == m,
            forall|k: int| 0 <= k < m ==> (#[trigger] parts@[k])@ == variant_text(variants@[k]@),
        decreases variants.len() - m,
    {
        parts.push(variants[m].render());
        m += 1;
    }
    assert(texts(parts@) =~= variant_models(variants@).map_values(
        |v: VariantModel| variant_text(v),
    ));
    join(&parts, "\n")
}

/// Expands the trait `item` over the flags `attr` and writes every variant
/// down: `2^n` guarded definitions for `n` flags, in ascending order of
/// their masks, or an error and no text at all.
pub fn cfg_matrix(attr: &Vec<FlagSpec>, item: &Template) -> (out: Result<String, MatrixError>)
    ensures
        match written(item@, flag_models(attr@)) {
            Ok(text) => out is Ok && out->Ok_0@ == text,
            Err(error) => out == Err::<String, MatrixError>(error),
        },
{
    match generate(item, attr) {
        Err(error) => Err(error),
        Ok(variants) => match check_variants(&variants) {
            Err(error) => Err(error),
            Ok(_) => Ok(emit(&variants)),
        },
    }
}

} // verus!

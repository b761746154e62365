//! The template: the trait definition that every variant is a copy of.
//!
//! Only the list of supertrait bounds is ever touched. What stands before it
//! (attributes, visibility, the trait's name and generics) and what stands
//! after it (the `where` clause and the braces with the items) are carried
//! through as they came.

use crate::bitmask::{bit_at, bit_is_set};
use crate::flags::{flag_models, FlagModel, FlagSpec};
use crate::text::{copy_all, join, joined, texts};
use vstd::prelude::*;
use vstd::string::StringExecFns;

verus! {

/// A trait definition, split around its supertrait bounds.
#[derive(Debug, Clone, PartialEq, Eq)]
pub struct Template {
    /// Everything up to the trait's generics: what the definition is called.
    pub identity: String,
    /// The supertrait bounds, in order. Variants append to a copy of this.
    pub extensions: Vec<String>,
    /// Everything after the bounds: the `where` clause and the items.
    pub body: String,
}

/// What a template is to the contracts.
pub struct TemplateModel {
    pub identity: Seq<char>,
    pub extensions: Seq<Seq<char>>,
    pub body: Seq<char>,
}

impl View for Template {
    type V = TemplateModel;

    open spec fn view(&self) -> TemplateModel {
        TemplateModel {
            identity: self.identity@,
            extensions: texts(self.extensions@),
            body: self.body@,
        }
    }
}

/// The capabilities that `mask` grants: those of the flags whose bit is set,
/// in flag order. A capability that two active flags name is granted twice.
pub open spec fn granted(flags: Seq<FlagModel>, mask: nat) -> Seq<Seq<char>>
    decreases flags.len(),
{
    if flags.len() == 0 {
        Seq::empty()
    } else {
        let before = granted(flags.drop_last(), mask);
        if bit_at(mask, (flags.len() - 1) as nat) {
            before.push(flags.last().capability)
        } else {
            before
        }
    }
}

/// `template` with `extra` appended to its bounds and nothing else changed.
pub open spec fn extended(template: TemplateModel, extra: Seq<Seq<char>>) -> TemplateModel {
    TemplateModel {
        identity: template.identity,
        extensions: template.extensions + extra,
        body: template.body,
    }
}

/// The text of a definition: its identity, then a colon and the bounds joined
/// by `+` where there are any, then the body.
pub open spec fn template_text(template: TemplateModel) -> Seq<char> {
    let bounds = if template.extensions.len() == 0 {
        Seq::empty()
    } else {
        ": "@ + joined(template.extensions, " + "@)
    };
    template.identity + bounds + " "@ + template.body
}

/// Collects the capabilities that `mask` grants over `flags`.
pub fn granted_capabilities(mask: usize, flags: &Vec<FlagSpec>) -> (out: Vec<String>)
    ensures
        texts(out@) == granted(flag_models(flags@), mask as nat),
{
    let ghost models = flag_models(flags@);
    let mut out: Vec<String> = Vec::new();
    let mut j: usize = 0;
    while j < flags.len()
        invariant
            j <= flags.len(),
            models == flag_models(flags@),
            texts(out@) == granted(models.take(j as int), mask as nat),
        decreases flags.len() - j,
    {
        proof {
            let grown = models.take(j + 1);
            assert(grown.drop_last() =~= models.take(j as int));
            assert(grown.last().capability == flags@[j as int].capability@);
        }
        if bit_is_set(mask, j) {
            let ghost before = texts(out@);
            out.push(flags[j].capability.clone());
            assert(texts(out@) =~= before.push(flags@[j as int].capability@));
        }
        j += 1;
    }
    assert(models.take(j as int) =~= models);
    out
}

impl Template {
    /// A template with the given parts.
    pub fn new(identity: &str, extensions: Vec<String>, body: &str) -> (template: Template)
        ensures
            template@ == (TemplateModel {
                identity: identity@,
                extensions: texts(extensions@),
                body: body@,
            }),
    {
        Template { identity: String::from_str(identity), extensions, body: String::from_str(body) }
    }

    /// A copy that shares nothing with `self`.
    pub fn duplicate(&self) -> (copy: Template)
        ensures
            copy@ == self@,
    {
        Template {
            identity: self.identity.clone(),
            extensions: copy_all(&self.extensions),
            body: self.body.clone(),
        }
    }

    /// Appends `extra` to the bounds, keeping what is there and the order of
    /// both. Nothing is merged: a bound that occurs twice stays twice.
    pub fn extend(&mut self, extra: Vec<String>)
        ensures
            final(self)@ == extended(old(self)@, texts(extra@)),
    {
        let ghost before = texts(self.extensions@);
        let ghost added = texts(extra@);
        let mut extra = extra;
        self.extensions.append(&mut extra);
        assert(texts(self.extensions@) =~= before + added);
    }

    /// Writes the definition out.
    pub fn render(&self) -> (out: String)
        ensures
            out@ == template_text(self@),
    {
        let mut out = self.identity.clone();
        if self.extensions.len() > 0 {
            out.append(": ");
            out.append(join(&self.extensions, " + ").as_str());
        }
        out.append(" ");
        out.append(self.body.as_str());
        assert(out@ =~= template_text(self@));
        out
    }
}

} // verus!

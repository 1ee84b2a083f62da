use vstd::prelude::*;

use crate::locate::{lemma_locate_node_bounds, locate_in_node, locate_target_set};
use crate::parse::{parse_nix, parse_of, utf8_ok};
use crate::plan::{
    InsertionPlan, brace_offset_from, has_entry, insertion_text, lemma_brace_offset_bounds,
    plan_insert, set_has_entry,
};
use crate::syntax::node_text;
use crate::text::append_bytes;

verus! {

/// The result of one requested edit that did not fail.
#[derive(Debug)]
pub enum AddOutcome {
    /// The entry was inserted; the field holds the rewritten source text.
    Added(Vec<u8>),
    /// The target set already binds the name; nothing was changed.
    AlreadyPresent,
}

/// Why one requested edit failed. Failures are reported, never repaired.
#[derive(Clone, Copy, PartialEq, Eq, Structural, Debug)]
pub enum EditError {
    /// The source bytes could not be read as text at all.
    ParseUnusable,
    /// No binding of the target name to an attribute set exists.
    SectionNotFound,
    /// The target set was found but has no closing delimiter.
    MalformedSection,
}

/// `src` with `ins` spliced in at byte `offset`: a pure string operation,
/// leaving every other byte where it was.
pub open spec fn spliced(src: Seq<u8>, offset: int, ins: Seq<u8>) -> Seq<u8> {
    src.take(offset) + ins + src.skip(offset)
}

/// The Splice-and-Rewrite step: applies a computed plan to the original
/// text.
pub fn apply_plan(src: &Vec<u8>, plan: &InsertionPlan) -> (r: Vec<u8>)
    requires
        plan.offset <= src.len(),
    ensures
        r@ == spliced(src@, plan.offset as int, plan.text@),
{
    let mut out: Vec<u8> = Vec::new();
    let mut i: usize = 0;
    while i < plan.offset
        invariant
            i <= plan.offset <= src.len(),
            out@ == src@.take(i as int),
        decreases plan.offset - i,
    {
        out.push(src[i]);
        proof {
            assert(src@.take(i + 1 as int) =~= src@.take(i as int).push(src@[i as int]));
        }
        i += 1;
    }
    append_bytes(&mut out, &plan.text);
    let mut j: usize = plan.offset;
    while j < src.len()
        invariant
            plan.offset <= j <= src.len(),
            out@ == src@.take(plan.offset as int) + plan.text@ + src@.subrange(
                plan.offset as int,
                j as int,
            ),
        decreases src.len() - j,
    {
        out.push(src[j]);
        proof {
            assert(src@.subrange(plan.offset as int, j + 1 as int) =~= src@.subrange(
                plan.offset as int,
                j as int,
            ).push(src@[j as int]));
        }
        j += 1;
    }
    proof {
        assert(src@.subrange(plan.offset as int, src@.len() as int) =~= src@.skip(
            plan.offset as int,
        ));
        assert(out@ =~= spliced(src@, plan.offset as int, plan.text@));
    }
    out
}

/// The name of the section this editor targets: `inputs`.
pub open spec fn inputs_name() -> Seq<u8> {
    seq![105u8, 110u8, 112u8, 117u8, 116u8, 115u8]
}

/// The bytes of `inputs`, as a vector.
pub fn inputs_name_vec() -> (r: Vec<u8>)
    ensures
        r@ == inputs_name(),
{
    let mut v: Vec<u8> = Vec::new();
    v.push(105u8);
    v.push(110u8);
    v.push(112u8);
    v.push(117u8);
    v.push(116u8);
    v.push(115u8);
    proof {
        assert(v@ =~= inputs_name());
    }
    v
}

/// One whole edit request on one source text: parse it losslessly, locate
/// the `inputs` attribute set, return early when `key` is already bound,
/// otherwise splice the new entry in just before the set's closing brace.
/// The file itself is the caller's business: this function maps old text to
/// new text and never touches anything else.
pub fn add_flake_input(source: &Vec<u8>, key: &Vec<u8>, url: &Vec<u8>) -> (r: Result<
    AddOutcome,
    EditError,
>)
    ensures
        ({
            let p = parse_of(source@);
            match r {
                Result::Err(EditError::ParseUnusable) => p is None && !utf8_ok(source@),
                Result::Err(EditError::SectionNotFound) => match p {
                    Some(root) => locate_in_node(root, inputs_name(), 0) is None,
                    None => false,
                },
                Result::Err(EditError::MalformedSection) => match p {
                    Some(root) => match locate_in_node(root, inputs_name(), 0) {
                        Some(f) => !set_has_entry(f.1, key@) && brace_offset_from(
                            f.1.children@,
                        ) is None,
                        None => false,
                    },
                    None => false,
                },
                Result::Ok(AddOutcome::AlreadyPresent) => match p {
                    Some(root) => match locate_in_node(root, inputs_name(), 0) {
                        Some(f) => set_has_entry(f.1, key@),
                        None => false,
                    },
                    None => false,
                },
                Result::Ok(AddOutcome::Added(out)) => match p {
                    Some(root) => match locate_in_node(root, inputs_name(), 0) {
                        Some(f) => !set_has_entry(f.1, key@) && match brace_offset_from(
                            f.1.children@,
                        ) {
                            Some(b) => out@ == spliced(
                                source@,
                                f.0 + b,
                                insertion_text(key@, url@),
                            ),
                            None => false,
                        },
                        None => false,
                    },
                    None => false,
                },
            }
        }),
{
    let root = match parse_nix(source) {
        Some(root) => root,
        None => {
            return Result::Err(EditError::ParseUnusable);
        },
    };
    let n: usize = source.len();
    let name = inputs_name_vec();
    let (set_offset, set) = match locate_target_set(&root, &name) {
        Some(p) => p,
        None => {
            return Result::Err(EditError::SectionNotFound);
        },
    };
    if has_entry(set, key) {
        return Result::Ok(AddOutcome::AlreadyPresent);
    }
    proof {
        lemma_locate_node_bounds(root, inputs_name(), 0);
    }
    let plan = match plan_insert(set, set_offset, key, url) {
        Some(plan) => plan,
        None => {
            return Result::Err(EditError::MalformedSection);
        },
    };
    proof {
        lemma_brace_offset_bounds(set.children@);
    }
    Result::Ok(AddOutcome::Added(apply_plan(source, &plan)))
}

/// Losslessness of a splice: the output keeps every byte of the original
/// text unmodified and contiguous, the part before the insertion offset in
/// place and the part from the offset on shifted right by the length of the
/// inserted span, which itself appears verbatim between them.
pub proof fn lemma_splice_lossless(src: Seq<u8>, offset: int, ins: Seq<u8>)
    requires
        0 <= offset <= src.len(),
    ensures
        spliced(src, offset, ins).len() == src.len() + ins.len(),
        forall|j: int| 0 <= j < offset ==> spliced(src, offset, ins)[j] == src[j],
        forall|j: int| offset <= j < src.len() ==> spliced(src, offset, ins)[j + ins.len()]
            == src[j],
        spliced(src, offset, ins).subrange(offset, offset + ins.len() as int) =~= ins,
{
}

} // verus!

//! Declarative duplication of a declaration over the combinations of
//! template parameters.
//!
//! A specification such as `i = [u8, u16], pair = [(A, X), (B, Y)]` binds
//! each parameter to a list of values. Every combination of values gives a
//! mapping from placeholders (`__i__`, `__pair__0__`, `__v__name__`) to
//! identifiers, and each mapping gives one copy of the template body with
//! its placeholders replaced.
pub mod token;
pub mod replacement;
pub mod attr;
pub mod mapping;

use vstd::prelude::*;
use crate::attr::{attr_model, is_clause_list, ErrorKind, MetaforAttr, SpecError, ValuesModel};
use crate::mapping::{
    combination, combination_count, digits, generate_mappings, lemma_digits_injective,
    lemma_digits_surjective, mapping_of, product, radices, value,
};
use crate::replacement::{lemma_replaced_unique_seq, replaced_seq, same_seq, IdentReplacer};
use crate::token::{IdentView, TokenTree};

verus! {

/// `out` holds, for each combination of `params` in counter order, the body
/// with that combination's placeholders replaced.
pub open spec fn is_expansion(
    params: Seq<(IdentView, ValuesModel)>,
    body: Seq<TokenTree>,
    out: Seq<Vec<TokenTree>>,
) -> bool {
    &&& out.len() == product(radices(params))
    &&& forall|k: int| 0 <= k < out.len() ==> replaced_seq(combination(params, k as nat), body, #[trigger] out[k]@)
}

/// One copy of `input` per combination of the specification's values, each
/// with its placeholders replaced; `input` itself is left as it is.
pub fn impl_metafor(input: &Vec<TokenTree>, attr: &MetaforAttr) -> (r: Vec<Vec<TokenTree>>)
    requires
        product(radices(attr@)) <= usize::MAX,
    ensures
        r@.len() == product(radices(attr@)),
        is_expansion(attr@, input@, r@),
{
    let mappings = generate_mappings(attr);
    let mut out: Vec<Vec<TokenTree>> = Vec::new();
    let mut k: usize = 0;
    while k < mappings.len()
        invariant
            k <= mappings@.len(),
            mappings@.len() == product(radices(attr@)),
            forall|m: int|
                0 <= m < mappings@.len() ==> crate::replacement::mapping_view(#[trigger] mappings@[m]@)
                    == combination(attr@, m as nat),
            out@.len() == k,
            forall|m: int| 0 <= m < k ==> replaced_seq(combination(attr@, m as nat), input@, #[trigger] out@[m]@),
        decreases mappings@.len() - k,
    {
        let replacer = IdentReplacer::new(&mappings[k]);
        out.push(replacer.visit_all(input));
        k = k + 1;
    }
    out
}

/// `impl_metafor` where the number of combinations fits in a `usize`;
/// `None` where it does not.
pub fn expand(input: &Vec<TokenTree>, attr: &MetaforAttr) -> (r: Option<Vec<Vec<TokenTree>>>)
    ensures
        r is None <==> product(radices(attr@)) > usize::MAX,
        r matches Some(out) ==> is_expansion(attr@, input@, out@),
{
    match combination_count(attr) {
        Some(_) => Some(impl_metafor(input, attr)),
        None => None,
    }
}

/// Parses the specification `attr` and expands the template body `input`
/// over it.
pub fn metafor(attr: &Vec<TokenTree>, input: &Vec<TokenTree>) -> (r: Result<Vec<Vec<TokenTree>>, SpecError>)
    ensures
        r is Ok <==> is_clause_list(attr@) && product(radices(attr_model(attr@))) <= usize::MAX,
        r matches Ok(out) ==> is_expansion(attr_model(attr@), input@, out@),
        r matches Err(e) ==> (e.kind == ErrorKind::TooManyCombinations <==> is_clause_list(attr@)),
{
    match MetaforAttr::parse(attr) {
        Ok(spec) => match expand(input, &spec) {
            Some(out) => Ok(out),
            None => Err(SpecError { kind: ErrorKind::TooManyCombinations, pos: None }),
        },
        Err(e) => Err(e),
    }
}

/// Expansion is deterministic: two expansions of one body over one
/// specification are equal, copy by copy, in the same order.
pub proof fn lemma_expansion_deterministic(
    params: Seq<(IdentView, ValuesModel)>,
    body: Seq<TokenTree>,
    out1: Seq<Vec<TokenTree>>,
    out2: Seq<Vec<TokenTree>>,
)
    requires
        is_expansion(params, body, out1),
        is_expansion(params, body, out2),
    ensures
        out1.len() == out2.len(),
        forall|k: int| 0 <= k < out1.len() ==> same_seq(#[trigger] out1[k]@, out2[k]@),
{
    assert forall|k: int| 0 <= k < out1.len() implies same_seq(#[trigger] out1[k]@, out2[k]@) by {
        lemma_replaced_unique_seq(combination(params, k as nat), body, out1[k]@, out2[k]@);
    }
}

/// Each choice of one value per parameter gives exactly one copy of an
/// expansion: the copy at position `value(c, ...)`, which is the body under
/// that choice's mapping, and no other position has that choice.
pub proof fn lemma_each_combination_once(
    params: Seq<(IdentView, ValuesModel)>,
    body: Seq<TokenTree>,
    out: Seq<Vec<TokenTree>>,
    c: Seq<int>,
)
    requires
        is_expansion(params, body, out),
        c.len() == params.len(),
        forall|j: int| 0 <= j < c.len() ==> 0 <= #[trigger] c[j] < radices(params)[j],
    ensures
        0 <= value(c, radices(params)) < out.len(),
        replaced_seq(mapping_of(params, c), body, out[value(c, radices(params))]@),
        forall|k: int| 0 <= k < out.len() && #[trigger] digits(radices(params), k as nat) == c
            ==> k == value(c, radices(params)),
{
    let l = radices(params);
    lemma_digits_surjective(l, c);
    let v = value(c, l);
    assert(replaced_seq(combination(params, v as nat), body, out[v]@));
    assert forall|k: int| 0 <= k < out.len() && #[trigger] digits(l, k as nat) == c implies k == v by {
        lemma_digits_injective(l, k as nat, v as nat);
    }
}

} // verus!

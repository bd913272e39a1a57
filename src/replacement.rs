//! Replacement of placeholder identifiers throughout a token tree.
use vstd::prelude::*;
use crate::token::{Ident, IdentView, TokenTree};

verus! {

broadcast use vstd::std_specs::vec::group_vec_axioms;

/// A substitution mapping: placeholder names paired with their replacements.
pub type MappingView = Seq<(Seq<char>, IdentView)>;

pub open spec fn mapping_view(m: Seq<(String, Ident)>) -> MappingView {
    m.map_values(|e: (String, Ident)| (e.0@, e.1@))
}

/// What a mapping gives for a name: the last entry with that name wins.
pub open spec fn lookup(m: MappingView, name: Seq<char>) -> Option<IdentView>
    decreases m.len(),
{
    if m.len() == 0 {
        None
    } else if m.last().0 == name {
        Some(m.last().1)
    } else {
        lookup(m.drop_last(), name)
    }
}

/// The identifier that stands in place of `a` under `m`.
pub open spec fn replace_ident(m: MappingView, a: IdentView) -> IdentView {
    match lookup(m, a.0) {
        Some(v) => v,
        None => a,
    }
}

/// `r` is `t` with every identifier that `m` names replaced, and nothing else
/// changed.
pub open spec fn replaced(m: MappingView, t: TokenTree, r: TokenTree) -> bool
    decreases t, 0nat,
{
    match t {
        TokenTree::Ident(a) => r is Ident && r->Ident_0@ == replace_ident(m, a@),
        TokenTree::Punct(c, p) => r is Punct && r->Punct_0 == c && r->Punct_1 == p,
        TokenTree::Literal(s, p) => r is Literal && r->Literal_0@ == s@ && r->Literal_1 == p,
        TokenTree::Group(d, ch, p) => {
            &&& r is Group
            &&& r->Group_0 == d
            &&& r->Group_2 == p
            &&& replaced_upto(m, ch@, r->Group_1@, ch@.len())
        },
    }
}

/// The first `n` trees of `rs` are those of `ts` under `m`, and the two
/// sequences have one length.
pub open spec fn replaced_upto(m: MappingView, ts: Seq<TokenTree>, rs: Seq<TokenTree>, n: nat) -> bool
    decreases ts, n,
{
    &&& rs.len() == ts.len()
    &&& n <= ts.len()
    &&& (n == 0 || (replaced_upto(m, ts, rs, (n - 1) as nat) && replaced(m, ts[n - 1], rs[n - 1])))
}

/// Pointwise replacement over a sequence of trees.
pub open spec fn replaced_seq(m: MappingView, ts: Seq<TokenTree>, rs: Seq<TokenTree>) -> bool {
    replaced_upto(m, ts, rs, ts.len())
}

pub proof fn lemma_replaced_upto(m: MappingView, ts: Seq<TokenTree>, rs: Seq<TokenTree>, n: nat)
    ensures
        replaced_upto(m, ts, rs, n) <==> (rs.len() == ts.len() && n <= ts.len() && forall|i: int|
            0 <= i < n ==> #[trigger] replaced(m, ts[i], rs[i])),
    decreases n,
{
    if n > 0 {
        lemma_replaced_upto(m, ts, rs, (n - 1) as nat);
        let k = n - 1;
        if rs.len() == ts.len() && n <= ts.len() {
            if forall|i: int| 0 <= i < n ==> #[trigger] replaced(m, ts[i], rs[i]) {
                assert(replaced(m, ts[k], rs[k]));
            }
            if replaced_upto(m, ts, rs, n) {
                assert forall|i: int| 0 <= i < n implies #[trigger] replaced(m, ts[i], rs[i]) by {
                    if i < k {
                        assert(replaced_upto(m, ts, rs, (n - 1) as nat));
                    }
                }
            }
        }
    }
}

/// `a` and `b` are the same tree: same shape, same names, same locations.
pub open spec fn same_tree(a: TokenTree, b: TokenTree) -> bool {
    replaced(Seq::empty(), a, b)
}

pub open spec fn same_seq(a: Seq<TokenTree>, b: Seq<TokenTree>) -> bool {
    replaced_seq(Seq::empty(), a, b)
}

/// No identifier of `t` is a name of `m`.
pub open spec fn free_of(m: MappingView, t: TokenTree) -> bool
    decreases t, 0nat,
{
    match t {
        TokenTree::Ident(a) => lookup(m, a.name@) is None,
        TokenTree::Group(_, ch, _) => free_upto(m, ch@, ch@.len()),
        _ => true,
    }
}

/// None of the first `n` trees of `ts` holds an identifier that `m` names.
pub open spec fn free_upto(m: MappingView, ts: Seq<TokenTree>, n: nat) -> bool
    decreases ts, n,
{
    &&& n <= ts.len()
    &&& (n == 0 || (free_upto(m, ts, (n - 1) as nat) && free_of(m, ts[n - 1])))
}

pub proof fn lemma_free_upto(m: MappingView, ts: Seq<TokenTree>, n: nat)
    ensures
        free_upto(m, ts, n) <==> (n <= ts.len() && forall|i: int| 0 <= i < n ==> #[trigger] free_of(m, ts[i])),
    decreases n,
{
    if n > 0 {
        lemma_free_upto(m, ts, (n - 1) as nat);
        let k = n - 1;
        if n <= ts.len() {
            if forall|i: int| 0 <= i < n ==> #[trigger] free_of(m, ts[i]) {
                assert(free_of(m, ts[k]));
            }
        }
    }
}

/// Substitution is a function: two results of one substitution on one tree
/// are the same tree.
pub proof fn lemma_replaced_unique(m: MappingView, t: TokenTree, r1: TokenTree, r2: TokenTree)
    requires
        replaced(m, t, r1),
        replaced(m, t, r2),
    ensures
        same_tree(r1, r2),
    decreases t,
{
    if let TokenTree::Group(d, ch, p) = t {
        let c1 = r1->Group_1@;
        let c2 = r2->Group_1@;
        lemma_replaced_upto(m, ch@, c1, ch@.len());
        lemma_replaced_upto(m, ch@, c2, ch@.len());
        assert forall|i: int| 0 <= i < c1.len() implies #[trigger] replaced(Seq::empty(), c1[i], c2[i]) by {
            assert(decreases_to!(t => ch));
            assert(decreases_to!(ch => ch[i]));
            lemma_replaced_unique(m, ch@[i], c1[i], c2[i]);
        }
        lemma_replaced_upto(Seq::empty(), c1, c2, c1.len());
    }
}

/// Substitution on a tree with no identifier that the mapping names gives
/// the same tree back.
pub proof fn lemma_replaced_free(m: MappingView, t: TokenTree, r: TokenTree)
    requires
        free_of(m, t),
        replaced(m, t, r),
    ensures
        same_tree(t, r),
    decreases t,
{
    if let TokenTree::Group(d, ch, p) = t {
        let c = r->Group_1@;
        lemma_replaced_upto(m, ch@, c, ch@.len());
        lemma_free_upto(m, ch@, ch@.len());
        assert forall|i: int| 0 <= i < c.len() implies #[trigger] replaced(Seq::empty(), ch@[i], c[i]) by {
            assert(decreases_to!(t => ch));
            assert(decreases_to!(ch => ch[i]));
            lemma_replaced_free(m, ch@[i], c[i]);
        }
        lemma_replaced_upto(Seq::empty(), ch@, c, ch@.len());
    }
}

/// The sequence form of `lemma_replaced_free`.
pub proof fn lemma_replaced_free_seq(m: MappingView, ts: Seq<TokenTree>, rs: Seq<TokenTree>)
    requires
        forall|i: int| 0 <= i < ts.len() ==> #[trigger] free_of(m, ts[i]),
        replaced_seq(m, ts, rs),
    ensures
        same_seq(ts, rs),
{
    lemma_replaced_upto(m, ts, rs, ts.len());
    assert forall|i: int| 0 <= i < ts.len() implies #[trigger] replaced(Seq::empty(), ts[i], rs[i]) by {
        lemma_replaced_free(m, ts[i], rs[i]);
    }
    lemma_replaced_upto(Seq::empty(), ts, rs, ts.len());
}

/// The sequence form of `lemma_replaced_unique`.
pub proof fn lemma_replaced_unique_seq(m: MappingView, ts: Seq<TokenTree>, r1: Seq<TokenTree>, r2: Seq<TokenTree>)
    requires
        replaced_seq(m, ts, r1),
        replaced_seq(m, ts, r2),
    ensures
        same_seq(r1, r2),
{
    lemma_replaced_upto(m, ts, r1, ts.len());
    lemma_replaced_upto(m, ts, r2, ts.len());
    assert forall|i: int| 0 <= i < r1.len() implies #[trigger] replaced(Seq::empty(), r1[i], r2[i]) by {
        lemma_replaced_unique(m, ts[i], r1[i], r2[i]);
    }
    lemma_replaced_upto(Seq::empty(), r1, r2, r1.len());
}

/// Replaces the identifiers of a token tree that a mapping names.
pub struct IdentReplacer<'a> {
    pub mapping: &'a Vec<(String, Ident)>,
}

impl<'a> View for IdentReplacer<'a> {
    type V = MappingView;

    open spec fn view(&self) -> MappingView {
        mapping_view(self.mapping@)
    }
}

impl<'a> IdentReplacer<'a> {
    pub fn new(mapping: &'a Vec<(String, Ident)>) -> (r: Self)
        ensures
            r@ == mapping_view(mapping@),
    {
        IdentReplacer { mapping }
    }

    /// The replacement for `name`, if the mapping has one.
    pub fn get(&self, name: &String) -> (r: Option<&Ident>)
        ensures
            match r {
                Some(v) => lookup(self@, name@) == Some(v@),
                None => lookup(self@, name@) is None,
            },
    {
        let mut i: usize = self.mapping.len();
        assert(self@.subrange(0, i as int) =~= self@);
        while i > 0
            invariant
                i <= self.mapping@.len(),
                lookup(self@, name@) == lookup(self@.subrange(0, i as int), name@),
            decreases i,
        {
            let ghost m = self@.subrange(0, i as int);
            assert(m.drop_last() =~= self@.subrange(0, i - 1));
            if self.mapping[i - 1].0 == *name {
                return Some(&self.mapping[i - 1].1);
            }
            i = i - 1;
        }
        assert(self@.subrange(0, 0).len() == 0);
        None
    }

    /// Replaces `ident` by a copy of its mapped value, if the mapping has one.
    pub fn visit_ident_mut(&self, ident: &mut Ident)
        ensures
            final(ident)@ == replace_ident(self@, old(ident)@),
    {
        match self.get(&ident.name) {
            Some(v) => {
                *ident = v.copy();
            },
            None => {},
        }
    }

    /// A copy of `t` with every identifier that the mapping names replaced.
    pub fn visit_tree(&self, t: &TokenTree) -> (r: TokenTree)
        ensures
            replaced(self@, *t, r),
        decreases t,
    {
        match t {
            TokenTree::Ident(a) => {
                let mut b = a.copy();
                self.visit_ident_mut(&mut b);
                TokenTree::Ident(b)
            },
            TokenTree::Punct(c, p) => TokenTree::Punct(*c, *p),
            TokenTree::Literal(s, p) => TokenTree::Literal(s.clone(), *p),
            TokenTree::Group(d, ch, p) => {
                let mut out: Vec<TokenTree> = Vec::new();
                let mut i: usize = 0;
                while i < ch.len()
                    invariant
                        *t == TokenTree::Group(*d, *ch, *p),
                        i <= ch@.len(),
                        out@.len() == i,
                        forall|j: int| 0 <= j < i ==> #[trigger] replaced(self@, ch@[j], out@[j]),
                    decreases ch@.len() - i,
                {
                    proof {
                        assert(decreases_to!(*t => t->Group_1));
                        assert(decreases_to!(t->Group_1 => t->Group_1[i as int]));
                    }
                    out.push(self.visit_tree(&ch[i]));
                    i = i + 1;
                }
                proof {
                    lemma_replaced_upto(self@, ch@, out@, ch@.len());
                }
                TokenTree::Group(*d, out, *p)
            },
        }
    }

    /// A copy of a token sequence with every identifier that the mapping
    /// names replaced.
    pub fn visit_all(&self, ts: &Vec<TokenTree>) -> (r: Vec<TokenTree>)
        ensures
            replaced_seq(self@, ts@, r@),
    {
        let mut out: Vec<TokenTree> = Vec::new();
        let mut i: usize = 0;
        while i < ts.len()
            invariant
                i <= ts@.len(),
                out@.len() == i,
                forall|j: int| 0 <= j < i ==> #[trigger] replaced(self@, ts@[j], out@[j]),
            decreases ts@.len() - i,
        {
            let r = self.visit_tree(&ts[i]);
            out.push(r);
            i = i + 1;
        }
        proof {
            lemma_replaced_upto(self@, ts@, out@, ts@.len());
        }
        out
    }
}

} // verus!

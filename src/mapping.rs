//! Combinations of parameter values, enumerated by a mixed-radix counter,
//! and the substitution mapping of each combination.
use vstd::prelude::*;
use vstd::arithmetic::div_mod::{lemma_fundamental_div_mod, lemma_fundamental_div_mod_converse};
use crate::attr::{values_len, MetaforAttr, TemplateValues, ValuesModel};
use crate::replacement::{mapping_view, MappingView};
use crate::token::{Ident, IdentView};

verus! {

/// The number of combinations of digits with the given radices.
pub open spec fn product(lens: Seq<nat>) -> nat
    decreases lens.len(),
{
    if lens.len() == 0 {
        1
    } else {
        lens[0] * product(lens.drop_first())
    }
}

/// The digits of `k` in the mixed radix `lens`, the first digit the least
/// significant.
pub open spec fn digits(lens: Seq<nat>, k: nat) -> Seq<int>
    decreases lens.len(),
{
    if lens.len() == 0 {
        Seq::empty()
    } else {
        seq![(k % lens[0]) as int] + digits(lens.drop_first(), k / lens[0])
    }
}

/// One step of the counter: the first digit goes up by one; a digit that
/// reaches its radix goes back to zero and carries into the next.
pub open spec fn advance(c: Seq<int>, lens: Seq<nat>) -> Seq<int>
    decreases c.len(),
{
    if c.len() == 0 {
        c
    } else if c[0] + 1 < lens[0] {
        c.update(0, c[0] + 1)
    } else {
        seq![0int] + advance(c.drop_first(), lens.drop_first())
    }
}

/// Each digit of `k < product(lens)` is below its radix.
pub proof fn lemma_digits_bounded(lens: Seq<nat>, k: nat)
    requires
        k < product(lens),
    ensures
        digits(lens, k).len() == lens.len(),
        forall|j: int| 0 <= j < lens.len() ==> 0 <= #[trigger] digits(lens, k)[j] < lens[j],
    decreases lens.len(),
{
    if lens.len() > 0 {
        let l = lens[0] as int;
        let p = product(lens.drop_first()) as int;
        assert(l > 0) by (nonlinear_arith)
            requires
                k < l * p,
                l >= 0,
                p >= 0,
        ;
        lemma_fundamental_div_mod(k as int, l);
        let q = k as int / l;
        assert(q < p) by (nonlinear_arith)
            requires
                k < l * p,
                k == l * q + k as int % l,
                0 <= k as int % l,
                l > 0,
        ;
        lemma_digits_bounded(lens.drop_first(), (k / lens[0]) as nat);
        let d = digits(lens, k);
        assert forall|j: int| 0 <= j < lens.len() implies 0 <= #[trigger] d[j] < lens[j] by {
            if j > 0 {
                assert(d[j] == digits(lens.drop_first(), k / lens[0])[j - 1]);
            }
        }
    }
}

/// The counter never repeats itself: below the product of the radices,
/// distinct combination numbers have distinct digits, so no combination is
/// emitted twice.
pub proof fn lemma_digits_injective(lens: Seq<nat>, k1: nat, k2: nat)
    requires
        k1 < product(lens),
        k2 < product(lens),
        digits(lens, k1) == digits(lens, k2),
    ensures
        k1 == k2,
    decreases lens.len(),
{
    if lens.len() > 0 {
        let l = lens[0] as int;
        let p = product(lens.drop_first()) as int;
        assert(l > 0) by (nonlinear_arith)
            requires
                k1 < l * p,
                l >= 0,
                p >= 0,
        ;
        lemma_fundamental_div_mod(k1 as int, l);
        lemma_fundamental_div_mod(k2 as int, l);
        let q1 = k1 as int / l;
        let q2 = k2 as int / l;
        assert(q1 < p) by (nonlinear_arith)
            requires
                k1 < l * p,
                k1 == l * q1 + k1 as int % l,
                0 <= k1 as int % l,
                l > 0,
        ;
        assert(q2 < p) by (nonlinear_arith)
            requires
                k2 < l * p,
                k2 == l * q2 + k2 as int % l,
                0 <= k2 as int % l,
                l > 0,
        ;
        let d1 = digits(lens, k1);
        let d2 = digits(lens, k2);
        assert(d1[0] == d2[0]);
        assert(d1.drop_first() =~= digits(lens.drop_first(), q1 as nat));
        assert(d2.drop_first() =~= digits(lens.drop_first(), q2 as nat));
        lemma_digits_injective(lens.drop_first(), q1 as nat, q2 as nat);
    }
}

/// The number whose digits are `c`, the first digit the least significant.
pub open spec fn value(c: Seq<int>, lens: Seq<nat>) -> int
    decreases c.len(),
{
    if c.len() == 0 {
        0
    } else {
        c[0] + lens[0] * value(c.drop_first(), lens.drop_first())
    }
}

/// The counter reaches every combination: any choice of one value per
/// parameter is the combination of some number below the product.
pub proof fn lemma_digits_surjective(lens: Seq<nat>, c: Seq<int>)
    requires
        c.len() == lens.len(),
        forall|j: int| 0 <= j < c.len() ==> 0 <= #[trigger] c[j] < lens[j],
    ensures
        0 <= value(c, lens) < product(lens),
        digits(lens, value(c, lens) as nat) == c,
    decreases c.len(),
{
    if c.len() > 0 {
        let rest = c.drop_first();
        let lr = lens.drop_first();
        assert forall|j: int| 0 <= j < rest.len() implies 0 <= #[trigger] rest[j] < lr[j] by {
            assert(rest[j] == c[j + 1]);
        }
        lemma_digits_surjective(lr, rest);
        let l = lens[0] as int;
        let vr = value(rest, lr);
        let p = product(lr) as int;
        let v = value(c, lens);
        assert(c[0] < l);
        assert(0 <= v < l * p) by (nonlinear_arith)
            requires
                v == c[0] + l * vr,
                0 <= c[0] < l,
                0 <= vr < p,
        ;
        lemma_fundamental_div_mod_converse(v, l, vr, c[0]);
        assert(digits(lens, v as nat) =~= c);
    }
}

/// Advancing the counter from the digits of `k` gives the digits of `k + 1`.
pub proof fn lemma_advance_digits(lens: Seq<nat>, k: nat)
    requires
        k + 1 < product(lens),
    ensures
        advance(digits(lens, k), lens) == digits(lens, k + 1),
    decreases lens.len(),
{
    if lens.len() > 0 {
        let l = lens[0] as int;
        let p = product(lens.drop_first()) as int;
        assert(l > 0) by (nonlinear_arith)
            requires
                k + 1 < l * p,
                l >= 0,
                p >= 0,
        ;
        lemma_fundamental_div_mod(k as int, l);
        let q = k as int / l;
        let r = k as int % l;
        let c = digits(lens, k);
        let rest = digits(lens.drop_first(), (k / lens[0]) as nat);
        assert(c[0] == r);
        assert(c.drop_first() =~= rest);
        if r + 1 < l {
            lemma_fundamental_div_mod_converse(k + 1 as int, l, q, r + 1);
            assert(advance(c, lens) =~= digits(lens, k + 1));
        } else {
            assert(r == l - 1);
            assert(k + 1 == (q + 1) * l) by (nonlinear_arith)
                requires
                    k == l * q + r,
                    r == l - 1,
            ;
            lemma_fundamental_div_mod_converse(k + 1 as int, l, q + 1, 0);
            assert(q + 1 < p) by (nonlinear_arith)
                requires
                    k + 1 < l * p,
                    k + 1 == (q + 1) * l,
                    l > 0,
            ;
            lemma_advance_digits(lens.drop_first(), q as nat);
            assert(advance(c, lens) =~= digits(lens, k + 1));
        }
    }
}


/// The radices of the counter: the number of values of each parameter.
pub open spec fn radices(params: Seq<(IdentView, ValuesModel)>) -> Seq<nat> {
    params.map_values(|p: (IdentView, ValuesModel)| values_len(p.1))
}

pub open spec fn decimal_digit(d: nat) -> char {
    seq!['0', '1', '2', '3', '4', '5', '6', '7', '8', '9'][d as int]
}

/// The decimal numeral of `n`.
pub open spec fn decimal(n: nat) -> Seq<char>
    decreases n,
{
    if n < 10 {
        seq![decimal_digit(n)]
    } else {
        decimal(n / 10).push(decimal_digit(n % 10))
    }
}

pub open spec fn marker() -> Seq<char> {
    seq!['_', '_']
}

/// `__p__`: the placeholder of an identifier parameter.
pub open spec fn placeholder(p: Seq<char>) -> Seq<char> {
    marker() + p + marker()
}

/// `__p__x__`: the placeholder of position or field `x` of parameter `p`.
pub open spec fn sub_placeholder(p: Seq<char>, x: Seq<char>) -> Seq<char> {
    marker() + p + marker() + x + marker()
}

/// The entries that value `c` of parameter `p` contributes to a mapping.
pub open spec fn entries(p: Seq<char>, v: ValuesModel, c: int) -> MappingView {
    match v {
        ValuesModel::Idents(s) => seq![(placeholder(p), s[c])],
        ValuesModel::Tuples(t) => Seq::new(
            t[c].len(),
            |j: int| (sub_placeholder(p, decimal(j as nat)), t[c][j]),
        ),
        ValuesModel::Structs(r) => Seq::new(
            r[c].len(),
            |j: int| (sub_placeholder(p, r[c][j].0.0), r[c][j].1),
        ),
    }
}

/// The substitution mapping of the combination that picks value `c[j]` of
/// parameter `j`.
pub open spec fn mapping_of(params: Seq<(IdentView, ValuesModel)>, c: Seq<int>) -> MappingView
    decreases params.len(),
{
    if params.len() == 0 {
        Seq::empty()
    } else {
        mapping_of(params.drop_last(), c.drop_last()) + entries(
            params.last().0.0,
            params.last().1,
            c[params.len() - 1],
        )
    }
}

/// The mapping of combination number `k`.
pub open spec fn combination(params: Seq<(IdentView, ValuesModel)>, k: nat) -> MappingView {
    mapping_of(params, digits(radices(params), k))
}

pub open spec fn counters_view(c: Seq<usize>) -> Seq<int> {
    c.map_values(|x: usize| x as int)
}

/// Relies on the standard library's `Display` for `usize`: its decimal
/// numeral, without sign or padding.
#[verifier::external_body]
fn decimal_text(n: usize) -> (r: String)
    ensures
        r@ == decimal(n as nat),
{
    n.to_string()
}

/// `__p__`.
pub fn placeholder_name(p: &String) -> (r: String)
    ensures
        r@ == placeholder(p@),
{
    proof {
        reveal_strlit("__");
    }
    let mut s = "__".to_owned();
    s.append(p.as_str());
    s.append("__");
    s
}

/// `__p__x__`.
pub fn sub_placeholder_name(p: &String, x: &String) -> (r: String)
    ensures
        r@ == sub_placeholder(p@, x@),
{
    proof {
        reveal_strlit("__");
    }
    let mut s = placeholder_name(p);
    s.append(x.as_str());
    s.append("__");
    s
}

/// Appends the entries of value `c` of parameter `p` to `out`.
fn push_entries(out: &mut Vec<(String, Ident)>, p: &Ident, v: &TemplateValues, c: usize)
    requires
        c < values_len(v@),
    ensures
        mapping_view(final(out)@) == mapping_view(old(out)@) + entries(p@.0, v@, c as int),
{
    let ghost start = mapping_view(out@);
    match v {
        TemplateValues::Idents(s) => {
            out.push((placeholder_name(&p.name), s[c].copy()));
            assert(mapping_view(out@) =~= start + entries(p@.0, v@, c as int));
        },
        TemplateValues::Tuples(t) => {
            let vals = t[c].values();
            let mut j: usize = 0;
            while j < vals.len()
                invariant
                    j <= vals@.len(),
                    c < t@.len(),
                    v@ == ValuesModel::Tuples(t@.map_values(|x: crate::attr::TupleValue| x@)),
                    crate::attr::idents_view(vals@) == t@[c as int]@,
                    mapping_view(out@) =~= start + entries(p@.0, v@, c as int).take(j as int),
                decreases vals@.len() - j,
            {
                let key = sub_placeholder_name(&p.name, &decimal_text(j));
                let ghost e = entries(p@.0, v@, c as int);
                proof {
                    assert(e[j as int] == (key@, vals@[j as int]@));
                    assert(e.take(j + 1) =~= e.take(j as int).push(e[j as int]));
                }
                let ghost before = out@;
                out.push((key, vals[j].copy()));
                assert(mapping_view(out@) =~= mapping_view(before).push(e[j as int]));
                j = j + 1;
            }
        },
        TemplateValues::Structs(r) => {
            let fields = r[c].fields();
            let mut j: usize = 0;
            while j < fields.len()
                invariant
                    j <= fields@.len(),
                    c < r@.len(),
                    v@ == ValuesModel::Structs(r@.map_values(|x: crate::attr::StructValue| x@)),
                    crate::attr::fields_view(fields@) == r@[c as int]@,
                    mapping_view(out@) =~= start + entries(p@.0, v@, c as int).take(j as int),
                decreases fields@.len() - j,
            {
                let key = sub_placeholder_name(&p.name, &fields[j].0.name);
                let ghost e = entries(p@.0, v@, c as int);
                proof {
                    assert(e[j as int] == (key@, fields@[j as int].1@));
                    assert(e.take(j + 1) =~= e.take(j as int).push(e[j as int]));
                }
                let ghost before = out@;
                out.push((key, fields[j].1.copy()));
                assert(mapping_view(out@) =~= mapping_view(before).push(e[j as int]));
                j = j + 1;
            }
        },
    }
}


pub open spec fn lens_view(v: Seq<usize>) -> Seq<nat> {
    v.map_values(|x: usize| x as nat)
}

proof fn lemma_product_zero(lens: Seq<nat>, i: int)
    requires
        0 <= i < lens.len(),
        lens[i] == 0,
    ensures
        product(lens) == 0,
    decreases lens.len(),
{
    let a = lens[0] as int;
    let b = product(lens.drop_first()) as int;
    if i > 0 {
        lemma_product_zero(lens.drop_first(), i - 1);
        assert(a * b == 0) by (nonlinear_arith)
            requires
                b == 0,
        ;
    } else {
        assert(a * b == 0) by (nonlinear_arith)
            requires
                a == 0,
        ;
    }
}

proof fn lemma_product_suffix(lens: Seq<nat>, j: int)
    requires
        0 <= j <= lens.len(),
        forall|i: int| 0 <= i < lens.len() ==> #[trigger] lens[i] >= 1,
    ensures
        product(lens) >= product(lens.subrange(j, lens.len() as int)),
    decreases j,
{
    if j == 0 {
        assert(lens.subrange(0, lens.len() as int) =~= lens);
    } else {
        let rest = lens.drop_first();
        lemma_product_suffix(rest, j - 1);
        assert(rest.subrange(j - 1, rest.len() as int) =~= lens.subrange(j, lens.len() as int));
        let a = lens[0] as int;
        let b = product(rest) as int;
        assert(a * b >= b) by (nonlinear_arith)
            requires
                a >= 1,
                b >= 0,
        ;
    }
}

proof fn lemma_digits_zero(lens: Seq<nat>)
    requires
        product(lens) > 0,
    ensures
        digits(lens, 0) =~= Seq::new(lens.len(), |i: int| 0int),
    decreases lens.len(),
{
    if lens.len() > 0 {
        lemma_digits_bounded(lens, 0);
        let l = lens[0] as int;
        lemma_fundamental_div_mod_converse(0, l, 0, 0);
        let p = product(lens.drop_first()) as int;
        assert(p > 0) by (nonlinear_arith)
            requires
                l * p > 0,
                l >= 0,
                p >= 0,
        ;
        lemma_digits_zero(lens.drop_first());
    }
}

/// The number of values of each parameter.
pub fn radix_list(attr: &MetaforAttr) -> (r: Vec<usize>)
    ensures
        lens_view(r@) == radices(attr@),
{
    let mut out: Vec<usize> = Vec::new();
    let mut j: usize = 0;
    while j < attr.replacements.len()
        invariant
            j <= attr@.len(),
            out@.len() == j,
            forall|i: int| 0 <= i < j ==> #[trigger] out@[i] as nat == values_len(attr@[i].1),
        decreases attr@.len() - j,
    {
        out.push(attr.replacements[j].1.len());
        j = j + 1;
    }
    assert(lens_view(out@) =~= radices(attr@));
    out
}

/// The number of combinations of a specification: the product of the
/// numbers of values of its parameters, or `None` where that exceeds
/// `usize::MAX`.
pub fn combination_count(attr: &MetaforAttr) -> (r: Option<usize>)
    ensures
        r matches Some(n) ==> n == product(radices(attr@)),
        r is None ==> product(radices(attr@)) > usize::MAX,
{
    let lens = radix_list(attr);
    let ghost l = lens_view(lens@);
    let mut i: usize = 0;
    while i < lens.len()
        invariant
            i <= lens@.len(),
            l == lens_view(lens@),
            l == radices(attr@),
            forall|m: int| 0 <= m < i ==> #[trigger] l[m] >= 1,
        decreases lens@.len() - i,
    {
        if lens[i] == 0 {
            proof {
                assert(l[i as int] == lens@[i as int] as nat);
                lemma_product_zero(l, i as int);
            }
            return Some(0);
        }
        i = i + 1;
    }
    let mut acc: usize = 1;
    let mut j: usize = lens.len();
    assert(l.subrange(j as int, l.len() as int) =~= Seq::<nat>::empty());
    while j > 0
        invariant
            j <= lens@.len(),
            l == lens_view(lens@),
            l == radices(attr@),
            forall|m: int| 0 <= m < l.len() ==> #[trigger] l[m] >= 1,
            acc as nat == product(l.subrange(j as int, l.len() as int)),
        decreases j,
    {
        let ghost sub = l.subrange(j - 1, l.len() as int);
        assert(sub.drop_first() =~= l.subrange(j as int, l.len() as int));
        assert(sub[0] == lens@[j - 1] as nat);
        assert(product(sub) == sub[0] * product(sub.drop_first()));
        let ghost a = acc as int;
        let ghost b = lens@[j - 1] as int;
        assert(a * b == b * a) by (nonlinear_arith);
        match acc.checked_mul(lens[j - 1]) {
            Some(n) => {
                acc = n;
            },
            None => {
                proof {
                    lemma_product_suffix(l, j - 1);
                }
                return None;
            },
        }
        j = j - 1;
    }
    assert(l.subrange(0, l.len() as int) =~= l);
    Some(acc)
}

/// One step of the counter from digit `j` on.
fn advance_from(c: &mut Vec<usize>, lens: &Vec<usize>, j: usize)
    requires
        old(c)@.len() == lens@.len(),
        j <= lens@.len(),
        forall|i: int| 0 <= i < lens@.len() ==> #[trigger] old(c)@[i] < lens@[i],
    ensures
        final(c)@.len() == lens@.len(),
        counters_view(final(c)@) == counters_view(old(c)@).take(j as int) + advance(
            counters_view(old(c)@).skip(j as int),
            lens_view(lens@).skip(j as int),
        ),
    decreases lens@.len() - j,
{
    let ghost o = counters_view(c@);
    let ghost l = lens_view(lens@);
    if j == lens.len() {
        assert(o.take(j as int) =~= o);
        assert(o.skip(j as int) =~= Seq::<int>::empty());
        return;
    }
    let ghost sk = o.skip(j as int);
    assert(sk[0] == c@[j as int]);
    assert(l.skip(j as int)[0] == lens@[j as int]);
    if c[j] + 1 < lens[j] {
        let v = c[j] + 1;
        c.set(j, v);
        assert(counters_view(c@) =~= o.take(j as int) + sk.update(0, sk[0] + 1));
    } else {
        c.set(j, 0);
        let ghost mid = c@;
        advance_from(c, lens, j + 1);
        assert(counters_view(mid).skip(j + 1) =~= sk.drop_first());
        assert(l.skip(j + 1) =~= l.skip(j as int).drop_first());
        assert(counters_view(mid).take(j + 1) =~= o.take(j as int).push(0));
        assert(counters_view(c@) =~= o.take(j as int) + (seq![0int] + advance(sk.drop_first(), l.skip(j as int).drop_first())));
    }
}

/// The substitution mapping of the combination that the counters pick.
pub fn build_mapping(attr: &MetaforAttr, c: &Vec<usize>) -> (r: Vec<(String, Ident)>)
    requires
        c@.len() == attr@.len(),
        forall|j: int| 0 <= j < c@.len() ==> #[trigger] c@[j] < values_len(attr@[j].1),
    ensures
        mapping_view(r@) == mapping_of(attr@, counters_view(c@)),
{
    let mut out: Vec<(String, Ident)> = Vec::new();
    let mut j: usize = 0;
    while j < attr.replacements.len()
        invariant
            j <= attr@.len(),
            c@.len() == attr@.len(),
            forall|i: int| 0 <= i < c@.len() ==> #[trigger] c@[i] < values_len(attr@[i].1),
            mapping_view(out@) == mapping_of(attr@.take(j as int), counters_view(c@).take(j as int)),
        decreases attr@.len() - j,
    {
        let entry = &attr.replacements[j];
        assert(attr@[j as int] == (entry.0@, entry.1@));
        push_entries(&mut out, &entry.0, &entry.1, c[j]);
        proof {
            let t = attr@.take(j + 1);
            assert(t.drop_last() =~= attr@.take(j as int));
            assert(counters_view(c@).take(j + 1).drop_last() =~= counters_view(c@).take(j as int));
        }
        j = j + 1;
    }
    assert(attr@.take(j as int) =~= attr@);
    assert(counters_view(c@).take(j as int) =~= counters_view(c@));
    out
}

/// Every substitution mapping of a specification, one per combination of
/// its parameters' values, in the order of a counter whose first digit
/// moves fastest.
pub fn generate_mappings(attr: &MetaforAttr) -> (r: Vec<Vec<(String, Ident)>>)
    requires
        product(radices(attr@)) <= usize::MAX,
    ensures
        r@.len() == product(radices(attr@)),
        forall|k: int| 0 <= k < r@.len() ==> mapping_view(#[trigger] r@[k]@) == combination(attr@, k as nat),
{
    let ghost l = radices(attr@);
    let lens = radix_list(attr);
    let total = match combination_count(attr) {
        Some(n) => n,
        None => {
            return Vec::new();
        },
    };
    let mut counters: Vec<usize> = Vec::new();
    let mut i: usize = 0;
    while i < lens.len()
        invariant
            i <= lens@.len(),
            counters@.len() == i,
            forall|m: int| 0 <= m < i ==> #[trigger] counters@[m] == 0,
        decreases lens@.len() - i,
    {
        counters.push(0);
        i = i + 1;
    }
    proof {
        if total > 0 {
            lemma_digits_zero(l);
            assert(counters_view(counters@) =~= digits(l, 0));
        }
    }
    let mut out: Vec<Vec<(String, Ident)>> = Vec::new();
    let mut k: usize = 0;
    while k < total
        invariant
            l == radices(attr@),
            l == lens_view(lens@),
            total == product(l),
            counters@.len() == lens@.len(),
            k <= total,
            k < total ==> counters_view(counters@) == digits(l, k as nat),
            out@.len() == k,
            forall|m: int| 0 <= m < k ==> mapping_view(#[trigger] out@[m]@) == combination(attr@, m as nat),
        decreases total - k,
    {
        proof {
            lemma_digits_bounded(l, k as nat);
            assert forall|j: int| 0 <= j < counters@.len() implies #[trigger] counters@[j] < values_len(attr@[j].1) by {
                assert(counters_view(counters@)[j] == digits(l, k as nat)[j]);
            }
        }
        let m = build_mapping(attr, &counters);
        out.push(m);
        if k + 1 < total {
            proof {
                assert forall|j: int| 0 <= j < lens@.len() implies #[trigger] counters@[j] < lens@[j] by {
                    assert(counters_view(counters@)[j] == digits(l, k as nat)[j]);
                    assert(lens_view(lens@)[j] == lens@[j] as nat);
                }
            }
            let ghost before = counters_view(counters@);
            advance_from(&mut counters, &lens, 0);
            proof {
                assert(before.take(0) =~= Seq::<int>::empty());
                assert(before.skip(0) =~= before);
                assert(l.skip(0) =~= l);
                assert(counters_view(counters@) =~= advance(before, l));
                lemma_advance_digits(l, k as nat);
            }
        }
        k = k + 1;
    }
    out
}

} // verus!

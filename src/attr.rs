//! The template specification: `name = [values], ...`, where the values of
//! one parameter are all identifiers, all tuples of identifiers, or all
//! records of identifiers.
use vstd::prelude::*;
use crate::token::{is_group, is_punct, pos_of, Delimiter, Ident, IdentView, TokenTree};

verus! {

/// What went wrong in a specification.
#[derive(Clone, Copy, Debug, PartialEq, Eq, Structural)]
pub enum ErrorKind {
    /// A token that the grammar does not allow, or a missing one.
    MalformedSpecification,
    /// A tuple whose length differs from that of the first tuple.
    InconsistentTupleArity { expected: usize, found: usize },
    /// A record whose field names differ from those of the first record.
    InconsistentRecordShape,
    /// A parameter with `[]` as its values.
    EmptyValueList,
    /// More combinations than a `usize` can count.
    TooManyCombinations,
}

/// An error and the location it points at (`None`: the end of the input).
#[derive(Clone, Copy, Debug, PartialEq, Eq, Structural)]
pub struct SpecError {
    pub kind: ErrorKind,
    pub pos: Option<usize>,
}

pub fn malformed(pos: Option<usize>) -> (r: SpecError)
    ensures
        r.kind == ErrorKind::MalformedSpecification,
        r.pos == pos,
{
    SpecError { kind: ErrorKind::MalformedSpecification, pos }
}

// ---- the grammar, stated over token sequences ----

pub open spec fn idents_view(v: Seq<Ident>) -> Seq<IdentView> {
    v.map_values(|x: Ident| x@)
}

/// `a, b, c`: identifiers separated by commas.
pub open spec fn is_ident_list(s: Seq<TokenTree>) -> bool {
    &&& s.len() % 2 == 1
    &&& forall|i: int|
        0 <= i < s.len() ==> if i % 2 == 0 {
            #[trigger] s[i] is Ident
        } else {
            is_punct(s[i], ',')
        }
}

pub open spec fn ident_list_model(s: Seq<TokenTree>) -> Seq<IdentView> {
    Seq::new((s.len() / 2 + 1) as nat, |k: int| s[2 * k]->Ident_0@)
}

/// `(a, b), (c, d)`: parenthesised identifier lists separated by commas.
pub open spec fn is_tuple_list(s: Seq<TokenTree>) -> bool {
    &&& s.len() % 2 == 1
    &&& forall|i: int|
        0 <= i < s.len() ==> if i % 2 == 0 {
            is_group(#[trigger] s[i], Delimiter::Parenthesis) && is_ident_list(s[i]->Group_1@)
        } else {
            is_punct(s[i], ',')
        }
}

pub open spec fn tuple_list_model(s: Seq<TokenTree>) -> Seq<Seq<IdentView>> {
    Seq::new((s.len() / 2 + 1) as nat, |k: int| ident_list_model(s[2 * k]->Group_1@))
}

/// `x: a, y: b`: fields with distinct names, separated by commas.
pub open spec fn is_field_list(s: Seq<TokenTree>) -> bool {
    &&& s.len() % 4 == 3
    &&& forall|i: int|
        0 <= i < s.len() ==> if i % 4 == 0 || i % 4 == 2 {
            #[trigger] s[i] is Ident
        } else if i % 4 == 1 {
            is_punct(s[i], ':')
        } else {
            is_punct(s[i], ',')
        }
    &&& forall|a: int, b: int|
        0 <= a < b < field_list_model(s).len() ==> #[trigger] field_list_model(s)[a].0.0
            != #[trigger] field_list_model(s)[b].0.0
}

pub open spec fn field_list_model(s: Seq<TokenTree>) -> Seq<(IdentView, IdentView)> {
    Seq::new(
        ((s.len() + 1) / 4) as nat,
        |k: int| (s[4 * k]->Ident_0@, s[4 * k + 2]->Ident_0@),
    )
}

/// `{x: a}, {x: b}`: braced field lists separated by commas.
pub open spec fn is_record_list(s: Seq<TokenTree>) -> bool {
    &&& s.len() % 2 == 1
    &&& forall|i: int|
        0 <= i < s.len() ==> if i % 2 == 0 {
            is_group(#[trigger] s[i], Delimiter::Brace) && is_field_list(s[i]->Group_1@)
        } else {
            is_punct(s[i], ',')
        }
}

pub open spec fn record_list_model(s: Seq<TokenTree>) -> Seq<Seq<(IdentView, IdentView)>> {
    Seq::new((s.len() / 2 + 1) as nat, |k: int| field_list_model(s[2 * k]->Group_1@))
}

/// The values of one parameter, as the specification gives them.
pub enum ValuesModel {
    Idents(Seq<IdentView>),
    Tuples(Seq<Seq<IdentView>>),
    Structs(Seq<Seq<(IdentView, IdentView)>>),
}

/// Every tuple has the length of the first.
pub open spec fn uniform_arity(t: Seq<Seq<IdentView>>) -> bool {
    forall|k: int| 0 <= k < t.len() ==> (#[trigger] t[k]).len() == t[0].len()
}

/// Record `b` has a field named `n`.
pub open spec fn has_field(b: Seq<(IdentView, IdentView)>, n: Seq<char>) -> bool {
    exists|j: int| 0 <= j < b.len() && #[trigger] b[j].0.0 == n
}

/// `a` and `b` have the same field names (each record's names are distinct).
pub open spec fn same_fields(a: Seq<(IdentView, IdentView)>, b: Seq<(IdentView, IdentView)>) -> bool {
    &&& a.len() == b.len()
    &&& forall|i: int| 0 <= i < a.len() ==> has_field(b, (#[trigger] a[i]).0.0)
}

/// Every record has the field names of the first.
pub open spec fn uniform_fields(r: Seq<Seq<(IdentView, IdentView)>>) -> bool {
    forall|k: int| 0 <= k < r.len() ==> same_fields(#[trigger] r[k], r[0])
}

/// Tuples agree in length; records agree in field names.
pub open spec fn consistent(v: ValuesModel) -> bool {
    match v {
        ValuesModel::Idents(_) => true,
        ValuesModel::Tuples(t) => uniform_arity(t),
        ValuesModel::Structs(r) => uniform_fields(r),
    }
}

/// The inside of `[...]` follows the grammar of the shape of its first value.
pub open spec fn values_grammar_ok(s: Seq<TokenTree>) -> bool {
    &&& s.len() > 0
    &&& if s[0] is Ident {
        is_ident_list(s)
    } else if is_group(s[0], Delimiter::Parenthesis) {
        is_tuple_list(s)
    } else {
        is_group(s[0], Delimiter::Brace) && is_record_list(s)
    }
}

/// The inside of `[...]` is a well-formed and consistent list of values.
pub open spec fn values_ok(s: Seq<TokenTree>) -> bool {
    &&& s.len() > 0
    &&& if s[0] is Ident {
        is_ident_list(s)
    } else if is_group(s[0], Delimiter::Parenthesis) {
        is_tuple_list(s) && uniform_arity(tuple_list_model(s))
    } else {
        is_group(s[0], Delimiter::Brace) && is_record_list(s) && uniform_fields(record_list_model(s))
    }
}

pub open spec fn values_model(s: Seq<TokenTree>) -> ValuesModel {
    if s[0] is Ident {
        ValuesModel::Idents(ident_list_model(s))
    } else if is_group(s[0], Delimiter::Parenthesis) {
        ValuesModel::Tuples(tuple_list_model(s))
    } else {
        ValuesModel::Structs(record_list_model(s))
    }
}

pub open spec fn values_len(v: ValuesModel) -> nat {
    match v {
        ValuesModel::Idents(s) => s.len(),
        ValuesModel::Tuples(s) => s.len(),
        ValuesModel::Structs(s) => s.len(),
    }
}


/// Whether `t` is the punctuation character `c`.
pub fn punct_is(t: &TokenTree, c: char) -> (r: bool)
    ensures
        r == is_punct(*t, c),
{
    match t {
        TokenTree::Punct(d, _) => *d == c,
        _ => false,
    }
}

/// Parses `a, b, c`; `end` locates the end of the input.
pub fn parse_ident_list(s: &Vec<TokenTree>, end: Option<usize>) -> (r: Result<Vec<Ident>, SpecError>)
    ensures
        r is Ok <==> is_ident_list(s@),
        r is Ok ==> idents_view(r->Ok_0@) == ident_list_model(s@),
        r is Err ==> r->Err_0.kind == ErrorKind::MalformedSpecification,
{
    if s.len() == 0 {
        return Err(malformed(end));
    }
    let mut out: Vec<Ident> = Vec::new();
    let mut i: usize = 0;
    while i < s.len()
        invariant
            s@.len() > 0,
            i <= s@.len(),
            i % 2 == 1 <==> i == s@.len(),
            out@.len() == (i + 1) / 2,
            forall|j: int|
                0 <= j < i && j < s@.len() ==> if j % 2 == 0 {
                    #[trigger] s@[j] is Ident
                } else {
                    is_punct(s@[j], ',')
                },
            forall|k: int| 0 <= k < out@.len() ==> (#[trigger] out@[k])@ == s@[2 * k]->Ident_0@,
        decreases s@.len() - i,
    {
        match &s[i] {
            TokenTree::Ident(a) => {
                out.push(a.copy());
            },
            other => {
                return Err(malformed(Some(other.pos())));
            },
        }
        if i + 1 < s.len() {
            if !punct_is(&s[i + 1], ',') {
                return Err(malformed(Some(s[i + 1].pos())));
            }
            if i + 2 == s.len() {
                return Err(malformed(end));
            }
            i = i + 2;
        } else {
            i = i + 1;
        }
    }
    assert(idents_view(out@) =~= ident_list_model(s@));
    Ok(out)
}


/// A tuple of identifiers, `(a, b)`.
#[derive(Debug, PartialEq, Eq)]
pub struct TupleValue(pub Vec<Ident>);

impl View for TupleValue {
    type V = Seq<IdentView>;

    open spec fn view(&self) -> Seq<IdentView> {
        idents_view(self.0@)
    }
}

impl TupleValue {
    pub fn len(&self) -> (r: usize)
        ensures
            r == self@.len(),
    {
        self.0.len()
    }

    pub fn values(&self) -> (r: &Vec<Ident>)
        ensures
            idents_view(r@) == self@,
    {
        &self.0
    }

    /// The identifier at position `i`.
    pub fn index(&self, i: usize) -> (r: &Ident)
        requires
            i < self@.len(),
        ensures
            r@ == self@[i as int],
    {
        &self.0[i]
    }

    /// The location of the tuple: that of its first identifier.
    pub fn span(&self) -> (r: Option<usize>)
        ensures
            r == (if self@.len() > 0 { Some(self@[0].1) } else { None::<usize> }),
    {
        if self.0.len() > 0 {
            Some(self.0[0].pos)
        } else {
            None
        }
    }

    /// Parses `(a, b, ...)`.
    pub fn parse(t: &TokenTree) -> (r: Result<TupleValue, SpecError>)
        ensures
            r is Ok <==> is_group(*t, Delimiter::Parenthesis) && is_ident_list(t->Group_1@),
            r is Ok ==> r->Ok_0@ == ident_list_model(t->Group_1@),
            r is Err ==> r->Err_0.kind == ErrorKind::MalformedSpecification,
    {
        match t {
            TokenTree::Group(Delimiter::Parenthesis, ch, p) => {
                match parse_ident_list(ch, Some(*p)) {
                    Ok(v) => Ok(TupleValue(v)),
                    Err(e) => Err(e),
                }
            },
            other => Err(malformed(Some(other.pos()))),
        }
    }
}

pub open spec fn fields_view(v: Seq<(Ident, Ident)>) -> Seq<(IdentView, IdentView)> {
    v.map_values(|f: (Ident, Ident)| (f.0@, f.1@))
}

/// A record of identifiers, `{x: a, y: b}`, its fields in written order.
#[derive(Debug, PartialEq, Eq)]
pub struct StructValue(pub Vec<(Ident, Ident)>);

impl View for StructValue {
    type V = Seq<(IdentView, IdentView)>;

    open spec fn view(&self) -> Seq<(IdentView, IdentView)> {
        fields_view(self.0@)
    }
}

impl StructValue {
    pub fn fields(&self) -> (r: &Vec<(Ident, Ident)>)
        ensures
            fields_view(r@) == self@,
    {
        &self.0
    }

    /// The value of field `name`, if the record has one.
    pub fn index(&self, name: &String) -> (r: Option<&Ident>)
        ensures
            r is None <==> forall|j: int| 0 <= j < self@.len() ==> #[trigger] self@[j].0.0 != name@,
            r matches Some(v) ==> exists|j: int|
                0 <= j < self@.len() && #[trigger] self@[j].0.0 == name@ && self@[j].1 == v@,
    {
        let mut j: usize = 0;
        while j < self.0.len()
            invariant
                j <= self@.len(),
                forall|k: int| 0 <= k < j ==> #[trigger] self@[k].0.0 != name@,
            decreases self@.len() - j,
        {
            if self.0[j].0.name == *name {
                assert(self@[j as int].0.0 == self.0@[j as int].0.name@);
                return Some(&self.0[j].1);
            }
            j = j + 1;
        }
        None
    }

    /// The location of the record: that of its first field name.
    pub fn span(&self) -> (r: Option<usize>)
        ensures
            r == (if self@.len() > 0 { Some(self@[0].0.1) } else { None::<usize> }),
    {
        if self.0.len() > 0 {
            Some(self.0[0].0.pos)
        } else {
            None
        }
    }

    /// Parses `{x: a, y: b, ...}`.
    pub fn parse(t: &TokenTree) -> (r: Result<StructValue, SpecError>)
        ensures
            r is Ok <==> is_group(*t, Delimiter::Brace) && is_field_list(t->Group_1@),
            r is Ok ==> r->Ok_0@ == field_list_model(t->Group_1@),
            r is Err ==> r->Err_0.kind == ErrorKind::MalformedSpecification,
    {
        match t {
            TokenTree::Group(Delimiter::Brace, ch, p) => parse_field_list(ch, *p),
            other => Err(malformed(Some(other.pos()))),
        }
    }
}

/// The index of the field named `name` among `fields`, if there is one.
fn find_field(fields: &Vec<(Ident, Ident)>, name: &String) -> (r: Option<usize>)
    ensures
        r is None ==> forall|m: int| 0 <= m < fields@.len() ==> (#[trigger] fields@[m]).0.name@ != name@,
        r matches Some(k) ==> k < fields@.len() && fields@[k as int].0.name@ == name@,
{
    let mut k: usize = 0;
    while k < fields.len()
        invariant
            k <= fields@.len(),
            forall|m: int| 0 <= m < k ==> (#[trigger] fields@[m]).0.name@ != name@,
        decreases fields@.len() - k,
    {
        if fields[k].0.name == *name {
            return Some(k);
        }
        k = k + 1;
    }
    None
}

/// Parses the inside of `{x: a, y: b, ...}`; `p` locates the braces.
fn parse_field_list(ch: &Vec<TokenTree>, p: usize) -> (r: Result<StructValue, SpecError>)
    ensures
        r is Ok <==> is_field_list(ch@),
        r is Ok ==> r->Ok_0@ == field_list_model(ch@),
        r is Err ==> r->Err_0.kind == ErrorKind::MalformedSpecification,
{
    let ghost s = ch@;
    if ch.len() == 0 {
        return Err(malformed(Some(p)));
    }
    let mut out: Vec<(Ident, Ident)> = Vec::new();
    let mut i: usize = 0;
    while i < ch.len()
        invariant
            s == ch@,
            s.len() > 0,
            i <= s.len(),
            i % 4 == 0 || i == s.len(),
            i == s.len() ==> s.len() % 4 == 3,
            out@.len() == (i + 1) / 4,
            forall|j: int|
                0 <= j < i && j < s.len() ==> if j % 4 == 0 || j % 4 == 2 {
                    #[trigger] s[j] is Ident
                } else if j % 4 == 1 {
                    is_punct(s[j], ':')
                } else {
                    is_punct(s[j], ',')
                },
            forall|k: int|
                0 <= k < out@.len() ==> (#[trigger] out@[k]).0@ == s[4 * k]->Ident_0@
                    && out@[k].1@ == s[4 * k + 2]->Ident_0@,
            forall|a: int, b: int|
                0 <= a < b < out@.len() ==> (#[trigger] out@[a]).0.name@
                    != (#[trigger] out@[b]).0.name@,
        decreases s.len() - i,
    {
        assert(i % 4 == 0);
        assert(is_field_list(s) ==> s[i as int] is Ident);
        let name = match &ch[i] {
            TokenTree::Ident(a) => a,
            other => {
                return Err(malformed(Some(other.pos())));
            },
        };
        if i + 1 >= ch.len() {
            assert((i + 1) % 4 == 1);
            return Err(malformed(Some(p)));
        }
        assert(is_field_list(s) ==> is_punct(s[i + 1], ':'));
        if !punct_is(&ch[i + 1], ':') {
            return Err(malformed(Some(ch[i + 1].pos())));
        }
        if i + 2 >= ch.len() {
            assert((i + 2) % 4 == 2);
            return Err(malformed(Some(p)));
        }
        assert(is_field_list(s) ==> s[i + 2] is Ident);
        let value = match &ch[i + 2] {
            TokenTree::Ident(a) => a,
            other => {
                return Err(malformed(Some(other.pos())));
            },
        };
        assert(i == 4 * out@.len());
        match find_field(&out, &name.name) {
            Some(k) => {
                proof {
                    let fm = field_list_model(s);
                    if is_field_list(s) {
                        assert(fm.len() > out@.len());
                        assert(fm[k as int].0.0 == fm[out@.len() as int].0.0);
                    }
                }
                return Err(malformed(Some(name.pos)));
            },
            None => {},
        }
        out.push((name.copy(), value.copy()));
        if i + 3 < ch.len() {
            assert(is_field_list(s) ==> is_punct(s[i + 3], ','));
            if !punct_is(&ch[i + 3], ',') {
                return Err(malformed(Some(ch[i + 3].pos())));
            }
            if i + 4 == ch.len() {
                assert((i + 4) % 4 == 0);
                return Err(malformed(Some(p)));
            }
            i = i + 4;
        } else {
            i = i + 3;
        }
    }
    proof {
        assert(fields_view(out@) =~= field_list_model(s));
    }
    Ok(StructValue(out))
}


/// Parses `(a, b), (a, b), ...`; `end` locates the end of the input.
fn parse_tuple_list(s: &Vec<TokenTree>, end: Option<usize>) -> (r: Result<Vec<TupleValue>, SpecError>)
    ensures
        r is Ok <==> is_tuple_list(s@),
        r is Ok ==> r->Ok_0@.map_values(|x: TupleValue| x@) == tuple_list_model(s@),
        r is Err ==> r->Err_0.kind == ErrorKind::MalformedSpecification,
{
    if s.len() == 0 {
        return Err(malformed(end));
    }
    let mut out: Vec<TupleValue> = Vec::new();
    let mut i: usize = 0;
    while i < s.len()
        invariant
            s@.len() > 0,
            i <= s@.len(),
            i % 2 == 1 <==> i == s@.len(),
            out@.len() == (i + 1) / 2,
            forall|j: int|
                0 <= j < i && j < s@.len() ==> if j % 2 == 0 {
                    is_group(#[trigger] s@[j], Delimiter::Parenthesis) && is_ident_list(s@[j]->Group_1@)
                } else {
                    is_punct(s@[j], ',')
                },
            forall|k: int| 0 <= k < out@.len() ==> (#[trigger] out@[k])@ == ident_list_model(s@[2 * k]->Group_1@),
        decreases s@.len() - i,
    {
        let v = TupleValue::parse(&s[i]);
        match v {
            Ok(v) => out.push(v),
            Err(e) => {
                return Err(e);
            },
        }
        if i + 1 < s.len() {
            if !punct_is(&s[i + 1], ',') {
                return Err(malformed(Some(s[i + 1].pos())));
            }
            if i + 2 == s.len() {
                return Err(malformed(end));
            }
            i = i + 2;
        } else {
            i = i + 1;
        }
    }
    assert(out@.map_values(|x: TupleValue| x@) =~= tuple_list_model(s@));
    Ok(out)
}

/// Parses `{x: a}, {x: a}, ...`; `end` locates the end of the input.
fn parse_record_list(s: &Vec<TokenTree>, end: Option<usize>) -> (r: Result<Vec<StructValue>, SpecError>)
    ensures
        r is Ok <==> is_record_list(s@),
        r is Ok ==> r->Ok_0@.map_values(|x: StructValue| x@) == record_list_model(s@),
        r is Err ==> r->Err_0.kind == ErrorKind::MalformedSpecification,
{
    if s.len() == 0 {
        return Err(malformed(end));
    }
    let mut out: Vec<StructValue> = Vec::new();
    let mut i: usize = 0;
    while i < s.len()
        invariant
            s@.len() > 0,
            i <= s@.len(),
            i % 2 == 1 <==> i == s@.len(),
            out@.len() == (i + 1) / 2,
            forall|j: int|
                0 <= j < i && j < s@.len() ==> if j % 2 == 0 {
                    is_group(#[trigger] s@[j], Delimiter::Brace) && is_field_list(s@[j]->Group_1@)
                } else {
                    is_punct(s@[j], ',')
                },
            forall|k: int| 0 <= k < out@.len() ==> (#[trigger] out@[k])@ == field_list_model(s@[2 * k]->Group_1@),
        decreases s@.len() - i,
    {
        let v = StructValue::parse(&s[i]);
        match v {
            Ok(v) => out.push(v),
            Err(e) => {
                return Err(e);
            },
        }
        if i + 1 < s.len() {
            if !punct_is(&s[i + 1], ',') {
                return Err(malformed(Some(s[i + 1].pos())));
            }
            if i + 2 == s.len() {
                return Err(malformed(end));
            }
            i = i + 2;
        } else {
            i = i + 1;
        }
    }
    assert(out@.map_values(|x: StructValue| x@) =~= record_list_model(s@));
    Ok(out)
}

/// The values of one template parameter.
#[derive(Debug, PartialEq, Eq)]
pub enum TemplateValues {
    Idents(Vec<Ident>),
    Tuples(Vec<TupleValue>),
    Structs(Vec<StructValue>),
}

impl View for TemplateValues {
    type V = ValuesModel;

    open spec fn view(&self) -> ValuesModel {
        match self {
            TemplateValues::Idents(v) => ValuesModel::Idents(idents_view(v@)),
            TemplateValues::Tuples(v) => ValuesModel::Tuples(v@.map_values(|x: TupleValue| x@)),
            TemplateValues::Structs(v) => ValuesModel::Structs(v@.map_values(|x: StructValue| x@)),
        }
    }
}

/// The index of the first tuple whose length differs from the first one's.
fn find_odd_tuple(t: &Vec<TupleValue>) -> (r: Option<usize>)
    requires
        t@.len() > 0,
    ensures
        r is None <==> uniform_arity(t@.map_values(|x: TupleValue| x@)),
        r matches Some(k) ==> k < t@.len() && t@[k as int]@.len() != t@[0]@.len(),
{
    let ghost m = t@.map_values(|x: TupleValue| x@);
    let count = t[0].len();
    let mut k: usize = 0;
    while k < t.len()
        invariant
            k <= t@.len(),
            count == t@[0]@.len(),
            m == t@.map_values(|x: TupleValue| x@),
            forall|j: int| 0 <= j < k ==> (#[trigger] m[j]).len() == m[0].len(),
        decreases t@.len() - k,
    {
        if t[k].len() != count {
            assert(m[k as int].len() != m[0].len());
            return Some(k);
        }
        k = k + 1;
    }
    None
}

/// Whether `a` has the field names of `b`.
fn same_fields_exec(a: &StructValue, b: &StructValue) -> (r: bool)
    ensures
        r == same_fields(a@, b@),
{
    if a.0.len() != b.0.len() {
        return false;
    }
    let mut i: usize = 0;
    while i < a.0.len()
        invariant
            i <= a@.len(),
            a@.len() == b@.len(),
            forall|x: int| 0 <= x < i ==> has_field(b@, (#[trigger] a@[x]).0.0),
        decreases a@.len() - i,
    {
        match find_field(&b.0, &a.0[i].0.name) {
            Some(j) => {
                assert(b@[j as int].0.0 == a@[i as int].0.0);
            },
            None => {
                assert forall|j: int| 0 <= j < b@.len() implies b@[j].0.0 != a@[i as int].0.0 by {
                    assert(b@[j].0.0 == b.0@[j].0.name@);
                }
                proof {
                    if same_fields(a@, b@) {
                        assert(has_field(b@, a@[i as int].0.0));
                    }
                }
                return false;
            },
        }
        i = i + 1;
    }
    assert(same_fields(a@, b@));
    true
}

/// The index of the first record whose field names differ from the first one's.
fn find_odd_record(r: &Vec<StructValue>) -> (res: Option<usize>)
    requires
        r@.len() > 0,
    ensures
        res is None <==> uniform_fields(r@.map_values(|x: StructValue| x@)),
        res matches Some(k) ==> k < r@.len(),
{
    let ghost m = r@.map_values(|x: StructValue| x@);
    let mut k: usize = 0;
    while k < r.len()
        invariant
            k <= r@.len(),
            m == r@.map_values(|x: StructValue| x@),
            forall|j: int| 0 <= j < k ==> same_fields(#[trigger] m[j], m[0]),
        decreases r@.len() - k,
    {
        if !same_fields_exec(&r[k], &r[0]) {
            assert(!same_fields(m[k as int], m[0]));
            return Some(k);
        }
        k = k + 1;
    }
    None
}

impl TemplateValues {
    /// The number of values.
    pub fn len(&self) -> (r: usize)
        ensures
            r == values_len(self@),
    {
        match self {
            TemplateValues::Idents(v) => v.len(),
            TemplateValues::Tuples(v) => v.len(),
            TemplateValues::Structs(v) => v.len(),
        }
    }

    /// Checks that tuples agree in length and records in field names; the
    /// error points at the first value that disagrees with the first one.
    pub fn validate(self) -> (r: Result<Self, SpecError>)
        requires
            values_len(self@) > 0,
        ensures
            r is Ok <==> consistent(self@),
            r matches Ok(v) ==> v@ == self@,
            r matches Err(e) ==> match self@ {
                ValuesModel::Idents(_) => false,
                ValuesModel::Tuples(t) => e.kind matches ErrorKind::InconsistentTupleArity { expected, found }
                    && expected == t[0].len() && found != expected
                    && exists|k: int| 0 <= k < t.len() && found == (#[trigger] t[k]).len(),
                ValuesModel::Structs(_) => e.kind == ErrorKind::InconsistentRecordShape,
            },
    {
        match &self {
            TemplateValues::Idents(_) => Ok(self),
            TemplateValues::Tuples(v) => {
                assert(v@.map_values(|x: TupleValue| x@)[0] == v@[0]@);
                match find_odd_tuple(v) {
                    Some(k) => {
                        let ghost t = v@.map_values(|x: TupleValue| x@);
                        assert(t[k as int] == v@[k as int]@);
                        Err(SpecError {
                            kind: ErrorKind::InconsistentTupleArity { expected: v[0].len(), found: v[k].len() },
                            pos: v[k].span(),
                        })
                    },
                    None => Ok(self),
                }
            },
            TemplateValues::Structs(v) => {
                match find_odd_record(v) {
                    Some(k) => Err(SpecError { kind: ErrorKind::InconsistentRecordShape, pos: v[k].span() }),
                    None => Ok(self),
                }
            },
        }
    }

    /// Parses the inside of `[...]`: the shape of the first value decides the
    /// shape of all, and tuples must agree in length, records in field names.
    /// `end` locates the closing bracket.
    pub fn parse(s: &Vec<TokenTree>, end: Option<usize>) -> (r: Result<TemplateValues, SpecError>)
        ensures
            r is Ok <==> values_ok(s@),
            r is Ok ==> r->Ok_0@ == values_model(s@),
            r matches Err(e) ==> (e.kind == ErrorKind::EmptyValueList <==> s@.len() == 0),
            r matches Err(e) ==> (e.kind == ErrorKind::MalformedSpecification <==> s@.len() > 0
                && !values_grammar_ok(s@)),
            r matches Err(e) ==> (e.kind is InconsistentTupleArity <==> values_grammar_ok(s@)
                && is_group(s@[0], Delimiter::Parenthesis)),
            r matches Err(e) ==> (e.kind == ErrorKind::InconsistentRecordShape <==> values_grammar_ok(s@)
                && is_group(s@[0], Delimiter::Brace)),
            r matches Err(e) ==> (e.kind matches ErrorKind::InconsistentTupleArity { expected, found }
                ==> expected == tuple_list_model(s@)[0].len() && expected != found
                && exists|k: int| 0 <= k < tuple_list_model(s@).len()
                    && found == (#[trigger] tuple_list_model(s@)[k]).len()),
            r matches Err(e) ==> e.kind != ErrorKind::TooManyCombinations,
    {
        if s.len() == 0 {
            return Err(SpecError { kind: ErrorKind::EmptyValueList, pos: end });
        }
        match &s[0] {
            TokenTree::Ident(_) => {
                match parse_ident_list(s, end) {
                    Ok(v) => Ok(TemplateValues::Idents(v)),
                    Err(e) => Err(e),
                }
            },
            TokenTree::Group(Delimiter::Parenthesis, _, _) => {
                match parse_tuple_list(s, end) {
                    Ok(v) => {
                        assert(tuple_list_model(s@).len() > 0);
                        TemplateValues::Tuples(v).validate()
                    },
                    Err(e) => Err(e),
                }
            },
            TokenTree::Group(Delimiter::Brace, _, _) => {
                match parse_record_list(s, end) {
                    Ok(v) => {
                        assert(record_list_model(s@).len() > 0);
                        TemplateValues::Structs(v).validate()
                    },
                    Err(e) => Err(e),
                }
            },
            other => Err(malformed(Some(other.pos()))),
        }
    }
}

/// `name = [values], ...`: clauses with distinct parameter names, separated
/// by commas.
pub open spec fn is_clause_list(s: Seq<TokenTree>) -> bool {
    &&& s.len() % 4 == 3
    &&& forall|i: int|
        0 <= i < s.len() ==> if i % 4 == 0 {
            #[trigger] s[i] is Ident
        } else if i % 4 == 1 {
            is_punct(s[i], '=')
        } else if i % 4 == 2 {
            is_group(s[i], Delimiter::Bracket) && values_ok(s[i]->Group_1@)
        } else {
            is_punct(s[i], ',')
        }
    &&& forall|a: int, b: int|
        0 <= a < b < attr_model(s).len() ==> #[trigger] attr_model(s)[a].0.0
            != #[trigger] attr_model(s)[b].0.0
}

/// The parameters of a specification, in written order.
pub open spec fn attr_model(s: Seq<TokenTree>) -> Seq<(IdentView, ValuesModel)> {
    Seq::new(
        ((s.len() + 1) / 4) as nat,
        |k: int| (s[4 * k]->Ident_0@, values_model(s[4 * k + 2]->Group_1@)),
    )
}

/// `t` is `[...]` holding well-formed tuples of differing lengths.
pub open spec fn tuple_arity_fault(t: TokenTree) -> bool {
    &&& is_group(t, Delimiter::Bracket)
    &&& values_grammar_ok(t->Group_1@)
    &&& is_group(t->Group_1@[0], Delimiter::Parenthesis)
    &&& !uniform_arity(tuple_list_model(t->Group_1@))
}

/// `t` is `[...]` holding well-formed records with differing field names.
pub open spec fn record_shape_fault(t: TokenTree) -> bool {
    &&& is_group(t, Delimiter::Bracket)
    &&& values_grammar_ok(t->Group_1@)
    &&& is_group(t->Group_1@[0], Delimiter::Brace)
    &&& !uniform_fields(record_list_model(t->Group_1@))
}

/// A parsed template specification: each parameter with its values, in
/// written order.
#[derive(Debug, PartialEq, Eq)]
pub struct MetaforAttr {
    pub replacements: Vec<(Ident, TemplateValues)>,
}

pub open spec fn params_view(v: Seq<(Ident, TemplateValues)>) -> Seq<(IdentView, ValuesModel)> {
    v.map_values(|e: (Ident, TemplateValues)| (e.0@, e.1@))
}

impl View for MetaforAttr {
    type V = Seq<(IdentView, ValuesModel)>;

    open spec fn view(&self) -> Seq<(IdentView, ValuesModel)> {
        params_view(self.replacements@)
    }
}

/// The index of the parameter named `name` among `params`, if there is one.
fn find_param(params: &Vec<(Ident, TemplateValues)>, name: &String) -> (r: Option<usize>)
    ensures
        r is None ==> forall|m: int| 0 <= m < params@.len() ==> (#[trigger] params@[m]).0.name@ != name@,
        r matches Some(k) ==> k < params@.len() && params@[k as int].0.name@ == name@,
{
    let mut k: usize = 0;
    while k < params.len()
        invariant
            k <= params@.len(),
            forall|m: int| 0 <= m < k ==> (#[trigger] params@[m]).0.name@ != name@,
        decreases params@.len() - k,
    {
        if params[k].0.name == *name {
            return Some(k);
        }
        k = k + 1;
    }
    None
}

impl MetaforAttr {
    /// Parses a template specification. The parameters keep their written
    /// order, which fixes the order of the combinations; a parameter named
    /// twice, like a record field named twice, makes the specification
    /// malformed.
    pub fn parse(s: &Vec<TokenTree>) -> (r: Result<MetaforAttr, SpecError>)
        ensures
            r is Ok <==> is_clause_list(s@),
            r is Ok ==> r->Ok_0@ == attr_model(s@),
            r matches Err(e) ==> (e.kind == ErrorKind::EmptyValueList ==> exists|i: int|
                0 <= i < s@.len() && is_group(#[trigger] s@[i], Delimiter::Bracket)
                    && s@[i]->Group_1@.len() == 0),
            r matches Err(e) ==> (e.kind matches ErrorKind::InconsistentTupleArity { expected, found }
                ==> expected != found),
            r matches Err(e) ==> (e.kind is InconsistentTupleArity ==> exists|i: int|
                0 <= i < s@.len() && tuple_arity_fault(#[trigger] s@[i])),
            r matches Err(e) ==> (e.kind == ErrorKind::InconsistentRecordShape ==> exists|i: int|
                0 <= i < s@.len() && record_shape_fault(#[trigger] s@[i])),
            r matches Err(e) ==> e.kind != ErrorKind::TooManyCombinations,
    {
        let ghost g = s@;
        if s.len() == 0 {
            return Err(malformed(None));
        }
        let mut out: Vec<(Ident, TemplateValues)> = Vec::new();
        let mut i: usize = 0;
        while i < s.len()
            invariant
                g == s@,
                g.len() > 0,
                i <= g.len(),
                i % 4 == 0 || i == g.len(),
                i == g.len() ==> g.len() % 4 == 3,
                out@.len() == (i + 1) / 4,
                forall|j: int|
                    0 <= j < i && j < g.len() ==> if j % 4 == 0 {
                        #[trigger] g[j] is Ident
                    } else if j % 4 == 1 {
                        is_punct(g[j], '=')
                    } else if j % 4 == 2 {
                        is_group(g[j], Delimiter::Bracket) && values_ok(g[j]->Group_1@)
                    } else {
                        is_punct(g[j], ',')
                    },
                forall|k: int|
                    0 <= k < out@.len() ==> (#[trigger] out@[k]).0@ == g[4 * k]->Ident_0@
                        && out@[k].1@ == values_model(g[4 * k + 2]->Group_1@),
                forall|a: int, b: int|
                    0 <= a < b < out@.len() ==> (#[trigger] out@[a]).0.name@
                        != (#[trigger] out@[b]).0.name@,
            decreases g.len() - i,
        {
            assert(i % 4 == 0);
            assert(is_clause_list(g) ==> g[i as int] is Ident);
            let name = match &s[i] {
                TokenTree::Ident(a) => a,
                other => {
                    return Err(malformed(Some(other.pos())));
                },
            };
            if i + 1 >= s.len() {
                assert((i + 1) % 4 == 1);
                return Err(malformed(None));
            }
            assert(is_clause_list(g) ==> is_punct(g[i + 1], '='));
            if !punct_is(&s[i + 1], '=') {
                return Err(malformed(Some(s[i + 1].pos())));
            }
            if i + 2 >= s.len() {
                assert((i + 2) % 4 == 2);
                return Err(malformed(None));
            }
            assert(is_clause_list(g) ==> is_group(g[i + 2], Delimiter::Bracket) && values_ok(
                g[i + 2]->Group_1@,
            ));
            let values = match &s[i + 2] {
                TokenTree::Group(Delimiter::Bracket, ch, p) => {
                    match TemplateValues::parse(ch, Some(*p)) {
                        Ok(v) => v,
                        Err(e) => {
                            assert(is_group(g[i + 2], Delimiter::Bracket));
                            assert(e.kind is InconsistentTupleArity ==> tuple_arity_fault(g[i + 2]));
                            assert(e.kind == ErrorKind::InconsistentRecordShape ==> record_shape_fault(g[i + 2]));
                            return Err(e);
                        },
                    }
                },
                other => {
                    return Err(malformed(Some(other.pos())));
                },
            };
            assert(i == 4 * out@.len());
            match find_param(&out, &name.name) {
                Some(k) => {
                    proof {
                        let am = attr_model(g);
                        if is_clause_list(g) {
                            assert(am.len() > out@.len());
                            assert(am[k as int].0.0 == am[out@.len() as int].0.0);
                        }
                    }
                    return Err(malformed(Some(name.pos)));
                },
                None => {},
            }
            out.push((name.copy(), values));
            if i + 3 < s.len() {
                assert(is_clause_list(g) ==> is_punct(g[i + 3], ','));
                if !punct_is(&s[i + 3], ',') {
                    return Err(malformed(Some(s[i + 3].pos())));
                }
                if i + 4 == s.len() {
                    assert((i + 4) % 4 == 0);
                    return Err(malformed(None));
                }
                i = i + 4;
            } else {
                i = i + 3;
            }
        }
        proof {
            assert(params_view(out@) =~= attr_model(g));
        }
        Ok(MetaforAttr { replacements: out })
    }
}

} // verus!

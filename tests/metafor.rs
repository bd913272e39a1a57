use metafor::attr::{ErrorKind, MetaforAttr, StructValue, TemplateValues, TupleValue};
use metafor::mapping::{combination_count, generate_mappings};
use metafor::replacement::IdentReplacer;
use metafor::token::{Delimiter, Ident, TokenTree};
use metafor::{expand, impl_metafor, metafor};

fn id(name: &str) -> Ident {
    Ident::new(name, 0)
}

fn ident(name: &str) -> TokenTree {
    TokenTree::Ident(id(name))
}

fn punct(c: char) -> TokenTree {
    TokenTree::Punct(c, 0)
}

fn group(d: Delimiter, children: Vec<TokenTree>) -> TokenTree {
    TokenTree::Group(d, children, 0)
}

/// `impl <trait_name> for <ty> {}`
fn impl_for(trait_name: &str, ty: &str) -> Vec<TokenTree> {
    vec![ident("impl"), ident(trait_name), ident("for"), ident(ty), group(Delimiter::Brace, vec![])]
}

/// `name = [values]`
fn clause(name: &str, values: Vec<TokenTree>) -> Vec<TokenTree> {
    vec![ident(name), punct('='), group(Delimiter::Bracket, values)]
}

/// `a, b, c`
fn commas(items: Vec<TokenTree>) -> Vec<TokenTree> {
    let mut out = Vec::new();
    for (i, t) in items.into_iter().enumerate() {
        if i > 0 {
            out.push(punct(','));
        }
        out.push(t);
    }
    out
}

fn idents(names: &[&str]) -> Vec<TokenTree> {
    commas(names.iter().map(|n| ident(n)).collect())
}

fn tuple(names: &[&str]) -> TokenTree {
    group(Delimiter::Parenthesis, idents(names))
}

fn record(fields: &[(&str, &str)]) -> TokenTree {
    let mut inner = Vec::new();
    for (i, (f, v)) in fields.iter().enumerate() {
        if i > 0 {
            inner.push(punct(','));
        }
        inner.push(ident(f));
        inner.push(punct(':'));
        inner.push(ident(v));
    }
    group(Delimiter::Brace, inner)
}

fn parse(tokens: Vec<TokenTree>) -> MetaforAttr {
    MetaforAttr::parse(&tokens).unwrap()
}

fn names(ts: &[TokenTree]) -> Vec<String> {
    let mut out = Vec::new();
    for t in ts {
        match t {
            TokenTree::Ident(i) => out.push(i.name.clone()),
            TokenTree::Punct(c, _) => out.push(c.to_string()),
            TokenTree::Literal(s, _) => out.push(s.clone()),
            TokenTree::Group(_, ch, _) => {
                out.push("(".to_string());
                out.extend(names(ch));
                out.push(")".to_string());
            }
        }
    }
    out
}

#[test]
fn parse_attr_test() {
    let actual = parse(clause("i", idents(&["u8", "u16"])));
    let expected = MetaforAttr {
        replacements: vec![(id("i"), TemplateValues::Idents(vec![id("u8"), id("u16")]))],
    };
    assert_eq!(actual, expected)
}

#[test]
fn impl_metafor_test() {
    let input = impl_for("MyTrait", "__i__");
    let attr = parse(clause("i", idents(&["u8", "u16"])));
    let actual = impl_metafor(&input, &attr);
    let expected = vec![impl_for("MyTrait", "u8"), impl_for("MyTrait", "u16")];
    assert_eq!(actual, expected)
}

#[test]
fn replacement_test() {
    let mapping = vec![("__i__".to_string(), id("u8"))];
    let actual = IdentReplacer::new(&mapping).visit_all(&impl_for("MyTrait", "__i__"));
    let expected = impl_for("MyTrait", "u8");
    assert_eq!(actual, expected)
}

#[test]
fn tuple_and_record_values_parse() {
    let mut spec = clause("pair", commas(vec![tuple(&["A", "X"]), tuple(&["B", "Y"])]));
    spec.push(punct(','));
    spec.extend(clause("v", vec![record(&[("name", "Bool"), ("value", "bool")])]));
    let expected = MetaforAttr {
        replacements: vec![
            (
                id("pair"),
                TemplateValues::Tuples(vec![TupleValue(vec![id("A"), id("X")]), TupleValue(vec![id("B"), id("Y")])]),
            ),
            (id("v"), TemplateValues::Structs(vec![StructValue(vec![(id("name"), id("Bool")), (id("value"), id("bool"))])])),
        ],
    };
    assert_eq!(parse(spec), expected);
}

#[test]
fn cardinality_is_product_of_lengths() {
    let mut spec = clause("a", idents(&["x", "y"]));
    spec.push(punct(','));
    spec.extend(clause("b", idents(&["p", "q", "r"])));
    let attr = parse(spec);
    assert_eq!(combination_count(&attr), Some(6));
    let body = vec![ident("__a__"), ident("__b__")];
    let out = impl_metafor(&body, &attr);
    assert_eq!(out.len(), 6);
    let got: Vec<Vec<String>> = out.iter().map(|o| names(o)).collect();
    let want: Vec<Vec<String>> = [("x", "p"), ("y", "p"), ("x", "q"), ("y", "q"), ("x", "r"), ("y", "r")]
        .iter()
        .map(|(a, b)| vec![a.to_string(), b.to_string()])
        .collect();
    assert_eq!(got, want);
}

#[test]
fn expansion_is_deterministic() {
    let mut spec = clause("a", idents(&["x", "y", "z"]));
    spec.push(punct(','));
    spec.extend(clause("t", commas(vec![tuple(&["A", "B"]), tuple(&["C", "D"])])));
    let body = vec![ident("__a__"), group(Delimiter::Parenthesis, vec![ident("__t__0__"), ident("__t__1__")])];
    let first = metafor(&spec, &body).unwrap();
    let second = metafor(&spec, &body).unwrap();
    assert_eq!(first, second);
    assert_eq!(first.len(), 6);
}

#[test]
fn non_placeholders_are_left_alone() {
    let mapping = vec![("__i__".to_string(), id("u8")), ("__j__".to_string(), id("u16"))];
    let body = vec![
        ident("fn"),
        ident("f"),
        group(Delimiter::Parenthesis, vec![ident("x"), punct(':'), ident("i"), ident("__i")]),
        TokenTree::Literal("\"__i__\"".to_string(), 7),
        group(Delimiter::Brace, vec![group(Delimiter::Bracket, vec![ident("_i_")])]),
    ];
    let copy = IdentReplacer::new(&mapping).visit_all(&body);
    assert_eq!(copy, body);
}

#[test]
fn tuple_arity_mismatch_is_rejected() {
    let a = TokenTree::Ident(Ident::new("a", 1));
    let b = TokenTree::Ident(Ident::new("b", 2));
    let c = TokenTree::Ident(Ident::new("c", 3));
    let d = TokenTree::Ident(Ident::new("d", 4));
    let e = TokenTree::Ident(Ident::new("e", 5));
    let values = commas(vec![
        group(Delimiter::Parenthesis, commas(vec![a, b])),
        group(Delimiter::Parenthesis, commas(vec![c, d, e])),
    ]);
    let err = MetaforAttr::parse(&clause("t", values)).unwrap_err();
    assert_eq!(err.kind, ErrorKind::InconsistentTupleArity { expected: 2, found: 3 });
    assert_eq!(err.pos, Some(3));
}

#[test]
fn record_shape_mismatch_is_rejected() {
    let values = commas(vec![record(&[("x", "a"), ("y", "b")]), record(&[("x", "c"), ("z", "d")])]);
    let err = MetaforAttr::parse(&clause("r", values)).unwrap_err();
    assert_eq!(err.kind, ErrorKind::InconsistentRecordShape);
}

#[test]
fn records_with_fields_in_another_order_agree() {
    let values = commas(vec![record(&[("x", "a"), ("y", "b")]), record(&[("y", "c"), ("x", "d")])]);
    let attr = parse(clause("r", values));
    assert_eq!(combination_count(&attr), Some(2));
}

#[test]
fn identifier_substitution_end_to_end() {
    let spec = clause("i", idents(&["u8", "u16"]));
    let out = metafor(&spec, &impl_for("Trait", "__i__")).unwrap();
    assert_eq!(out, vec![impl_for("Trait", "u8"), impl_for("Trait", "u16")]);
}

#[test]
fn tuple_substitution() {
    let spec = clause("pair", commas(vec![tuple(&["A", "X"]), tuple(&["B", "Y"])]));
    let body = vec![ident("impl"), ident("From"), punct('<'), ident("__pair__1__"), punct('>'), ident("for"), ident("__pair__0__")];
    let out = metafor(&spec, &body).unwrap();
    assert_eq!(out.len(), 2);
    assert_eq!(names(&out[0]), vec!["impl", "From", "<", "X", ">", "for", "A"]);
    assert_eq!(names(&out[1]), vec!["impl", "From", "<", "Y", ">", "for", "B"]);
}

#[test]
fn record_substitution() {
    let spec = clause("v", vec![record(&[("name", "Bool"), ("value", "bool")])]);
    let body = vec![
        ident("PolyValue"),
        punct(':'),
        punct(':'),
        ident("__v__name__"),
        group(Delimiter::Parenthesis, vec![ident("__v__value__")]),
    ];
    let out = metafor(&spec, &body).unwrap();
    assert_eq!(out.len(), 1);
    assert_eq!(names(&out[0]), vec!["PolyValue", ":", ":", "Bool", "(", "bool", ")"]);
}

#[test]
fn expansion_leaves_template_untouched() {
    let attr = parse(clause("i", idents(&["u8", "u16"])));
    let body = impl_for("Trait", "__i__");
    let mut first = impl_metafor(&body, &attr);
    let second = impl_metafor(&body, &attr);
    assert_eq!(body, impl_for("Trait", "__i__"));
    first[0][0] = ident("changed");
    assert_eq!(second[0], impl_for("Trait", "u8"));
    assert_eq!(body, impl_for("Trait", "__i__"));
}

#[test]
fn replacement_keeps_the_value_location() {
    let spec = vec![ident("i"), punct('='), group(Delimiter::Bracket, vec![TokenTree::Ident(Ident::new("u8", 42))])];
    let body = vec![TokenTree::Ident(Ident::new("__i__", 7)), TokenTree::Ident(Ident::new("x", 9))];
    let out = metafor(&spec, &body).unwrap();
    assert_eq!(out[0], vec![TokenTree::Ident(Ident::new("u8", 42)), TokenTree::Ident(Ident::new("x", 9))]);
}

#[test]
fn nested_placeholders_are_replaced() {
    let spec = clause("i", idents(&["u32"]));
    let body = vec![group(
        Delimiter::Brace,
        vec![group(Delimiter::Parenthesis, vec![group(Delimiter::Bracket, vec![ident("__i__")])])],
    )];
    let out = metafor(&spec, &body).unwrap();
    assert_eq!(names(&out[0]), vec!["(", "(", "(", "u32", ")", ")", ")"]);
}

#[test]
fn tuple_positions_past_nine_are_numbered_in_decimal() {
    let elems: Vec<String> = (0..12).map(|i| format!("T{}", i)).collect();
    let refs: Vec<&str> = elems.iter().map(|s| s.as_str()).collect();
    let spec = clause("t", vec![tuple(&refs)]);
    let body = vec![ident("__t__0__"), ident("__t__10__"), ident("__t__11__")];
    let out = metafor(&spec, &body).unwrap();
    assert_eq!(names(&out[0]), vec!["T0", "T10", "T11"]);
}

#[test]
fn mapping_names_follow_the_placeholder_forms() {
    let mut spec = clause("i", idents(&["u8"]));
    spec.push(punct(','));
    spec.extend(clause("t", vec![tuple(&["A", "B"])]));
    spec.push(punct(','));
    spec.extend(clause("r", vec![record(&[("f", "C")])]));
    let maps = generate_mappings(&parse(spec));
    assert_eq!(maps.len(), 1);
    let keys: Vec<&str> = maps[0].iter().map(|(k, _)| k.as_str()).collect();
    assert_eq!(keys, vec!["__i__", "__t__0__", "__t__1__", "__r__f__"]);
}

#[test]
fn empty_value_list_is_rejected() {
    let err = MetaforAttr::parse(&clause("i", vec![])).unwrap_err();
    assert_eq!(err.kind, ErrorKind::EmptyValueList);
}

#[test]
fn missing_equals_is_malformed() {
    let spec = vec![ident("i"), group(Delimiter::Bracket, idents(&["u8"]))];
    let err = MetaforAttr::parse(&spec).unwrap_err();
    assert_eq!(err.kind, ErrorKind::MalformedSpecification);
}

#[test]
fn trailing_comma_is_malformed() {
    let mut spec = clause("i", idents(&["u8"]));
    spec.push(punct(','));
    assert_eq!(MetaforAttr::parse(&spec).unwrap_err().kind, ErrorKind::MalformedSpecification);
    let mut values = idents(&["u8"]);
    values.push(punct(','));
    assert_eq!(MetaforAttr::parse(&clause("i", values)).unwrap_err().kind, ErrorKind::MalformedSpecification);
}

#[test]
fn mixed_shapes_are_malformed() {
    let values = commas(vec![ident("u8"), tuple(&["a", "b"])]);
    assert_eq!(MetaforAttr::parse(&clause("i", values)).unwrap_err().kind, ErrorKind::MalformedSpecification);
}

#[test]
fn duplicate_names_are_malformed() {
    let mut spec = clause("i", idents(&["u8"]));
    spec.push(punct(','));
    spec.extend(clause("i", idents(&["u16"])));
    assert_eq!(MetaforAttr::parse(&spec).unwrap_err().kind, ErrorKind::MalformedSpecification);
    let values = vec![record(&[("x", "a"), ("x", "b")])];
    assert_eq!(MetaforAttr::parse(&clause("r", values)).unwrap_err().kind, ErrorKind::MalformedSpecification);
}

#[test]
fn empty_specification_is_malformed() {
    let err = metafor(&vec![], &impl_for("Trait", "__i__")).unwrap_err();
    assert_eq!(err.kind, ErrorKind::MalformedSpecification);
    assert_eq!(err.pos, None);
}

#[test]
fn too_many_combinations_are_refused() {
    let mut spec = Vec::new();
    for k in 0..40 {
        if k > 0 {
            spec.push(punct(','));
        }
        spec.extend(clause(&format!("p{}", k), idents(&["a", "b", "c", "d"])));
    }
    let attr = MetaforAttr::parse(&spec).unwrap();
    assert_eq!(combination_count(&attr), None);
    assert!(expand(&vec![], &attr).is_none());
    assert_eq!(metafor(&spec, &vec![]).unwrap_err().kind, ErrorKind::TooManyCombinations);
}

#[test]
fn values_and_lengths_are_reported() {
    let attr = parse(clause("t", commas(vec![tuple(&["A", "X", "Z"]), tuple(&["B", "Y", "W"])])));
    let values = &attr.replacements[0].1;
    assert_eq!(values.len(), 2);
    if let TemplateValues::Tuples(t) = values {
        assert_eq!(t[1].len(), 3);
        assert_eq!(t[1].values()[2].name, "W");
    } else {
        panic!("expected tuples");
    }
    let attr = parse(clause("r", vec![record(&[("name", "Bool"), ("value", "bool")])]));
    if let TemplateValues::Structs(r) = &attr.replacements[0].1 {
        assert_eq!(r[0].index(&"value".to_string()).unwrap().name, "bool");
        assert!(r[0].index(&"other".to_string()).is_none());
        assert_eq!(r[0].fields().len(), 2);
    } else {
        panic!("expected records");
    }
}

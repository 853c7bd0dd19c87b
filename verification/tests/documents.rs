//! Tests of resolution, extension transforms and the two renderers.
use design_tokens::parser::parse_expression;
use design_tokens::{
    ColorValue, Decimal, DesignTokens, Error, Expression, Extensions, NumberType,
    StudioTokensExtension, StudioTokensModify, StudioTokensSpace, TokenOrGroup, TokenType,
    TokenValue, Value,
};

fn token(raw: &str) -> TokenOrGroup {
    TokenOrGroup::Token {
        value: TokenValue::Single(parse_expression(raw).unwrap()),
        type_: TokenType::Untyped,
        extensions: None,
    }
}

fn group(entries: Vec<(&str, TokenOrGroup)>) -> TokenOrGroup {
    TokenOrGroup::Group(entries.into_iter().map(|(k, v)| (k.to_string(), v)).collect())
}

fn doc(body: TokenOrGroup) -> DesignTokens {
    DesignTokens { file_name: None, body }
}

#[test]
fn resolver_transitive() {
    let d = doc(group(vec![("x", token("{y}")), ("y", token("5"))]));
    let e = Expression::Ref(vec!["x".to_string()]);
    assert_eq!(
        e.get_value(&d).unwrap(),
        Value::Number(Decimal { neg: false, mantissa: 5, scale: 0 }, NumberType::Bare)
    );
}

#[test]
fn resolver_arithmetic_keeps_left_unit() {
    let d = doc(group(vec![]));
    let e = parse_expression("2px * 3").unwrap();
    assert_eq!(
        e.get_value(&d).unwrap(),
        Value::Number(Decimal { neg: false, mantissa: 6, scale: 0 }, NumberType::Pixels)
    );
}

#[test]
fn resolver_faults() {
    let d = doc(group(vec![(
        "composite",
        TokenOrGroup::Token {
            value: TokenValue::Dict(vec![("width".to_string(), parse_expression("1px").unwrap())]),
            type_: TokenType::Border,
            extensions: None,
        },
    )]));
    let missing = Expression::Ref(vec!["nope".to_string()]);
    match missing.get_value(&d) {
        Err(Error::Lookup(path)) => assert_eq!(path, vec!["nope".to_string()]),
        other => panic!("expected a lookup fault, got {:?}", other),
    }
    let composite = Expression::Ref(vec!["composite".to_string()]);
    match composite.get_value(&d) {
        Err(Error::CompositeScalar) => {}
        other => panic!("expected a composite fault, got {:?}", other),
    }
}

#[test]
fn cycle_is_reported_from_both_entry_points() {
    let d = doc(group(vec![("a", token("{b}")), ("b", token("{a}"))]));
    for entry in ["a", "b"] {
        let e = Expression::Ref(vec![entry.to_string()]);
        match e.get_value(&d) {
            Err(Error::Cycle) => {}
            other => panic!("expected a cycle fault, got {:?}", other),
        }
    }
}

#[test]
fn hsl_lighten_scales_lightness() {
    // lightness 0.4, fully saturated red hue; factor 0.5 lifts lightness
    // to 0.6 = 0.4 + 0.4 * 0.5, leaving hue, saturation and alpha alone.
    let ext = StudioTokensExtension::Modify {
        type_: StudioTokensModify::Lighten,
        value: "0.5".to_string(),
        space: StudioTokensSpace::Hsl,
    };
    let base = Value::Color(ColorValue { r: 204, g: 0, b: 0, a: 255 });
    let out = ext.to_rust(&base).unwrap();
    assert_eq!(out, Value::Color(ColorValue { r: 255, g: 51, b: 51, a: 255 }));
    assert_eq!(ext.to_css(&base).unwrap(), "#ff3333");
}

#[test]
fn hsl_darken_scales_lightness_down() {
    let ext = StudioTokensExtension::Modify {
        type_: StudioTokensModify::Darken,
        value: "0.5".to_string(),
        space: StudioTokensSpace::Hsl,
    };
    let base = Value::Color(ColorValue { r: 204, g: 0, b: 0, a: 255 });
    // lightness 0.4 drops to 0.2; the hue stays pure red.
    assert_eq!(ext.to_rust(&base).unwrap(), Value::Color(ColorValue { r: 102, g: 0, b: 0, a: 255 }));
}

#[test]
fn lch_alpha_shift_touches_only_alpha() {
    let ext = StudioTokensExtension::Modify {
        type_: StudioTokensModify::Alpha,
        value: "-0.5".to_string(),
        space: StudioTokensSpace::Lch,
    };
    let base = Value::Color(ColorValue { r: 10, g: 20, b: 30, a: 200 });
    assert_eq!(ext.to_rust(&base).unwrap(), Value::Color(ColorValue { r: 10, g: 20, b: 30, a: 100 }));
}

#[test]
fn extension_faults() {
    let unsupported = StudioTokensExtension::Modify {
        type_: StudioTokensModify::Alpha,
        value: "0.5".to_string(),
        space: StudioTokensSpace::Hsl,
    };
    let base = Value::Color(ColorValue { r: 1, g: 2, b: 3, a: 255 });
    match unsupported.to_rust(&base) {
        Err(Error::TypeMismatch) => {}
        other => panic!("expected a type mismatch, got {:?}", other),
    }
    let bad_amount = StudioTokensExtension::Modify {
        type_: StudioTokensModify::Lighten,
        value: "half".to_string(),
        space: StudioTokensSpace::Hsl,
    };
    match bad_amount.to_rust(&base) {
        Err(Error::Parse(t)) => assert_eq!(t, "half"),
        other => panic!("expected a parse fault, got {:?}", other),
    }
    let non_color = Value::Any("text".to_string());
    let lighten = StudioTokensExtension::Modify {
        type_: StudioTokensModify::Lighten,
        value: "0.5".to_string(),
        space: StudioTokensSpace::Hsl,
    };
    match lighten.to_rust(&non_color) {
        Err(Error::TypeMismatch) => {}
        other => panic!("expected a type mismatch, got {:?}", other),
    }
}

#[test]
fn end_to_end_render() {
    let d = doc(group(vec![(
        "Color",
        group(vec![("Brand", token("#ff00ff")), ("Accent", token("{Color.Brand}"))]),
    )]));
    let css = d.to_css().unwrap();
    assert_eq!(
        css,
        ".ambient { --color-brand: #ff00ff; }\n.ambient { --color-accent: var(--color-brand); }"
    );
    let rust = d.to_rust().unwrap();
    assert_eq!(
        rust,
        "pub const COLOR_BRAND: &'static str = \"#ff00ff\";\npub const COLOR_ACCENT: &'static str = \"#ff00ff\";"
    );
}

#[test]
fn css_renders_bare_numbers_as_pixels() {
    let d = doc(group(vec![("Gap", token("4"))]));
    assert_eq!(d.to_css().unwrap(), ".ambient { --gap: 4px; }");
    assert_eq!(d.to_rust().unwrap(), "pub const GAP: f32 = 4.;");
}

#[test]
fn css_renders_arithmetic_live() {
    let d = doc(group(vec![("Wide", token("{base} * 2")), ("base", token("8px"))]));
    let css = d.to_css().unwrap();
    assert_eq!(
        css,
        ".ambient { --wide: calc(var(--base) * 2); }\n.ambient { --base: 8px; }"
    );
    let rust = d.to_rust().unwrap();
    assert_eq!(
        rust,
        "pub const WIDE: f32 = 16.;\npub const BASE: f32 = 8.;"
    );
}

#[test]
fn composite_tokens_render_as_blocks() {
    let border = TokenOrGroup::Token {
        value: TokenValue::Dict(vec![
            ("color".to_string(), parse_expression("#102030").unwrap()),
            ("width".to_string(), parse_expression("2px").unwrap()),
            ("fontSize".to_string(), parse_expression("12px").unwrap()),
        ]),
        type_: TokenType::Border,
        extensions: None,
    };
    let d = doc(group(vec![("Frame", border)]));
    let css = d.to_css().unwrap();
    assert_eq!(
        css,
        ".ambient .frame {\nborder-color: #102030;\nborder-width: 2px;\nfont-size: 12px;\n}"
    );
    let rust = d.to_rust().unwrap();
    assert_eq!(
        rust,
        "pub const FRAME: &'static [(&'static str, &'static str)] = &[(\"color\", \"#102030\"), (\"width\", \"2.\"), (\"fontSize\", \"12.\")];"
    );
}

#[test]
fn typography_property_table() {
    let typo = TokenOrGroup::Token {
        value: TokenValue::Dict(vec![
            ("textCase".to_string(), parse_expression("uppercase").unwrap()),
            ("lineHeight".to_string(), parse_expression("1.5").unwrap()),
        ]),
        type_: TokenType::Typography,
        extensions: None,
    };
    let d = doc(group(vec![("Head", typo)]));
    assert_eq!(
        d.to_css().unwrap(),
        ".ambient .head {\ntext-transform: uppercase;\nline-height: 1.5px;\n}"
    );
}

#[test]
fn extension_in_document_render() {
    let lightened = TokenOrGroup::Token {
        value: TokenValue::Single(parse_expression("{Red}").unwrap()),
        type_: TokenType::Untyped,
        extensions: Some(Extensions::StudioTokens(StudioTokensExtension::Modify {
            type_: StudioTokensModify::Lighten,
            value: "0.5".to_string(),
            space: StudioTokensSpace::Hsl,
        })),
    };
    let d = doc(group(vec![("Red", token("#cc0000")), ("Light", lightened)]));
    let css = d.to_css().unwrap();
    assert_eq!(
        css,
        ".ambient { --red: #cc0000; }\n.ambient { --light: #ff3333; }"
    );
}

#[test]
fn document_names() {
    let unnamed = doc(group(vec![]));
    assert_eq!(unnamed.get_name(), "ambient");
    assert_eq!(unnamed.get_name_rust(), "AMBIENT");
    let named = DesignTokens {
        file_name: Some("design.tokens.json".to_string()),
        body: group(vec![]),
    };
    assert_eq!(named.get_name(), "tokens");
    assert_eq!(named.get_name_rust(), "TOKENS");
}

#[test]
fn slugs_are_ascii_and_separated() {
    assert_eq!(design_tokens::slug::slugify_css("Étude Nr. 2"), "Etude-nrd-2");
    assert_eq!(design_tokens::slug::slugify_rs("Étude Nr. 2"), "Etude_nrd_2");
    assert_eq!(design_tokens::slug::slugify_css("a+b,c(d)"), "apbcc_d_");
}

#[test]
fn lookup_walks_nested_groups() {
    let d = doc(group(vec![(
        "Set",
        group(vec![("Deep", token("7px"))]),
    )]));
    let e = Expression::Ref(vec!["Set".to_string(), "Deep".to_string()]);
    assert_eq!(
        e.get_value(&d).unwrap(),
        Value::Number(Decimal { neg: false, mantissa: 7, scale: 0 }, NumberType::Pixels)
    );
    let through_token = Expression::Ref(vec!["Set".to_string(), "Deep".to_string(), "more".to_string()]);
    assert!(matches!(through_token.get_value(&d), Err(Error::Lookup(_))));
}

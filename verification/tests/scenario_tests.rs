use zatlin::error::ErrorValue;
use zatlin::Zatlin;

#[test]
fn generation_stays_in_expansion_set() {
    // every generated string follows some path through the pattern weights
    let zatlin = Zatlin::default();
    let data = Zatlin::create_data(r#"C = "p" | "f"; V = "a" | "i"; % C V;"#).unwrap();
    for _ in 0..500 {
        let word = zatlin.generate_by(&data).unwrap();
        assert!(["pa", "pi", "fa", "fi"].contains(&word.as_str()));
    }
}

#[test]
fn zero_weight_is_never_selected() {
    let zatlin = Zatlin::default();
    let data = Zatlin::create_data(r#"% "a" 0 | "b";"#).unwrap();
    for _ in 0..500 {
        assert_eq!(zatlin.generate_by(&data).unwrap(), "b");
    }
}

#[test]
fn all_weights_zero_is_an_error() {
    let zatlin = Zatlin::default();
    let result = zatlin.generate(r#"% "a" 0 | "b" 0;"#);
    assert_eq!(result.unwrap_err(), ErrorValue::NotFoundPattern);
}

#[test]
fn excluded_string_is_never_returned() {
    // the only non-excluded alternative always comes back
    let zatlin = Zatlin::default();
    let data = Zatlin::create_data(r#"% "a" | "b" - "a";"#).unwrap();
    for _ in 0..200 {
        assert_eq!(zatlin.generate_by(&data).unwrap(), "b");
    }
}

#[test]
fn fully_excluded_grammar_exhausts_retries() {
    let zatlin = Zatlin::default();
    let result = zatlin.generate(r#"% "a" | "a" - "a";"#);
    assert_eq!(result.unwrap_err(), ErrorValue::OverRetryCount);
}

#[test]
fn undefined_variable_is_reported_by_name() {
    let zatlin = Zatlin::default();
    let result = zatlin.generate(r#"% X;"#);
    assert_eq!(
        result.unwrap_err(),
        ErrorValue::NotFoundVariable(String::from("X"))
    );
}

#[test]
fn weights_shape_the_distribution() {
    // "pa" has weight 3, "fi" has weight 1: over a large sample the ratio
    // stays near three to one
    let zatlin = Zatlin::default();
    let data = Zatlin::create_data(r#"% "p" "a" 3 | "f" "i" 1;"#).unwrap();
    let mut pa: u64 = 0;
    let mut fi: u64 = 0;
    for _ in 0..10000 {
        match zatlin.generate_by(&data).unwrap().as_str() {
            "pa" => pa += 1,
            "fi" => fi += 1,
            other => panic!("unexpected word: {}", other),
        }
    }
    // expectation is 7500 / 2500; allow a wide statistical margin
    assert!(pa > 6900, "pa came up only {} times", pa);
    assert!(fi > 2100, "fi came up only {} times", fi);
}

#[test]
fn no_generate_statement_yields_empty_string() {
    let zatlin = Zatlin::default();
    let result = zatlin.generate(r#"C = "p" | "f";"#);
    assert_eq!(result.unwrap(), "");
}

#[test]
fn exclusion_anchor_modes() {
    let zatlin = Zatlin::default();
    // prefix anchor: words starting with "a" are rejected, so the first
    // letter is always "b"
    let data = Zatlin::create_data(r#"V = "a" | "b"; % V V - ^ "a";"#).unwrap();
    for _ in 0..100 {
        let word = zatlin.generate_by(&data).unwrap();
        assert!(word.starts_with('b'));
    }
    // suffix anchor: words ending in "a" are rejected
    let data = Zatlin::create_data(r#"V = "a" | "b"; % V V - "a" ^;"#).unwrap();
    for _ in 0..100 {
        let word = zatlin.generate_by(&data).unwrap();
        assert!(word.ends_with('b'));
    }
    // exact anchor: only the exact word "aa" is rejected, "ab" stays possible
    let data = Zatlin::create_data(r#"V = "a" | "b"; % V V - ^ "aa" ^;"#).unwrap();
    for _ in 0..100 {
        let word = zatlin.generate_by(&data).unwrap();
        assert_ne!(word, "aa");
    }
    // unanchored: any word containing "a" is rejected
    let data = Zatlin::create_data(r#"V = "a" | "b"; % V V - "a";"#).unwrap();
    for _ in 0..100 {
        assert_eq!(zatlin.generate_by(&data).unwrap(), "bb");
    }
}

#[test]
fn nested_groups_generate() {
    let zatlin = Zatlin::default();
    let data = Zatlin::create_data(r#"% ("a" | "b") ("c" | "d");"#).unwrap();
    for _ in 0..100 {
        let word = zatlin.generate_by(&data).unwrap();
        assert!(["ac", "ad", "bc", "bd"].contains(&word.as_str()));
    }
}

#[test]
fn variable_chain_resolves() {
    let zatlin = Zatlin::default();
    let data =
        Zatlin::create_data(r#"A = "x"; B = A A; C = B "y"; % C;"#).unwrap();
    for _ in 0..20 {
        assert_eq!(zatlin.generate_by(&data).unwrap(), "xxy");
    }
}

#[test]
fn self_referential_variable_fails_cleanly() {
    // a reference cycle cannot expand; generation reports an error instead
    // of recursing forever
    let zatlin = Zatlin::new(1);
    let result = zatlin.generate(r#"X = X; % X;"#);
    assert!(result.is_err());
}

#[test]
fn empty_literal_contributes_nothing() {
    let zatlin = Zatlin::default();
    let data = Zatlin::create_data(r#"% "" "b" "";"#).unwrap();
    assert_eq!(zatlin.generate_by(&data).unwrap(), "b");
}

#[test]
fn empty_grammar_yields_empty_string() {
    let zatlin = Zatlin::default();
    assert_eq!(zatlin.generate("").unwrap(), "");
}

#[test]
fn later_definition_shadows_earlier() {
    let zatlin = Zatlin::default();
    let data = Zatlin::create_data(r#"C = "a"; C = "b"; % C;"#).unwrap();
    for _ in 0..50 {
        assert_eq!(zatlin.generate_by(&data).unwrap(), "b");
    }
}

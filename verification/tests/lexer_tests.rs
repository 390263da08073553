use zatlin::lexer::{lexer, TokenType};

fn execute(s: &str) -> Vec<TokenType> {
    lexer(s)
}

fn unknown_count(tokens: &[TokenType]) -> usize {
    tokens
        .iter()
        .filter(|x| matches!(x, TokenType::Unknown(_)))
        .count()
}

#[test]
fn lexer_default() {
    let result = execute(
        r#"
        # metapi
        Cs = "" | "b" | "p" | "f" | "v" | "d" | "t" | "s" | "z" | "c" | "j" | "g" | "k" | "h" | "q" | "r" | "w" | "n" | "m"
        Ce = "" | "b" | "d" | "g" | "m" | "n" | "h"

        Va = "a" | "á" | "à" | "ä"
        Ve = "e" | "é" | "è" | "ë"
        Vi = "i" | "í" | "ì" | "ï"
        Vo = "o" | "ó" | "ò" | "ö"
        Vu = "u" | "ú" | "ù" | "ü"
        Vy = "y" | "ý" | "ỳ" | "ÿ"

        Vxi = Va "i" | Ve "i" | Vo "i" | Vi "a" | Vi "e"
        Vxu = Va "u" | Vo "u" | Vu "e" | Vu "i"
        Vx = Va | Ve | Vi | Vo | Vu | Vy | Vxi | Vxu

        % Cs Vx Ce | Cs Vx Ce Cs Vx Ce - ^ "y" | ^ "ý" | ^ "ỳ" | ^ "ÿ" | ^ "wu" | ^ "wú" | ^ "wù" | ^ "wü" | ^ "hy" | ^ "hý" | ^ "hỳ" | ^ "hÿ" | ^ "qy" | ^ "qý" | ^ "qỳ" | ^ "qÿ" | ^ "ry" | ^ "rý" | ^ "rỳ" | ^ "rÿ" | ^ "ny" | ^ "ný" | ^ "nỳ" | ^ "nÿ" | ^ "my" | ^ "mý" | ^ "mỳ" | ^ "mÿ";
        "#,
    );

    println!("{:?}", result);
    assert!(unknown_count(&result) == 0);
}

#[test]
fn lexer_use_semicolon() {
    let result = execute(
        r#"
        # metapi
        Cs = "" | "b" | "p" | "f" | "v" | "d" | "t" | "s" | "z" | "c" | "j" | "g" | "k" | "h" | "q" | "r" | "w" | "n" | "m";
        Ce = "" | "b" | "d" | "g" | "m" | "n" | "h";

        Va = "a" | "á" | "à" | "ä";
        Ve = "e" | "é" | "è" | "ë";
        Vi = "i" | "í" | "ì" | "ï";
        Vo = "o" | "ó" | "ò" | "ö";
        Vu = "u" | "ú" | "ù" | "ü";
        Vy = "y" | "ý" | "ỳ" | "ÿ";

        Vxi = Va "i" | Ve "i" | Vo "i" | Vi "a" | Vi "e";
        Vxu = Va "u" | Vo "u" | Vu "e" | Vu "i";
        Vx = Va | Ve | Vi | Vo | Vu | Vy | Vxi | Vxu;

        % Cs Vx Ce | Cs Vx Ce Cs Vx Ce - ^ "y" | ^ "ý" | ^ "ỳ" | ^ "ÿ" | ^ "wu" | ^ "wú" | ^ "wù" | ^ "wü" | ^ "hy" | ^ "hý" | ^ "hỳ" | ^ "hÿ" | ^ "qy" | ^ "qý" | ^ "qỳ" | ^ "qÿ" | ^ "ry" | ^ "rý" | ^ "rỳ" | ^ "rÿ" | ^ "ny" | ^ "ný" | ^ "nỳ" | ^ "nÿ" | ^ "my" | ^ "mý" | ^ "mỳ" | ^ "mÿ";
        "#,
    );

    println!("{:?}", result);
    assert!(unknown_count(&result) == 0);
}

#[test]
fn lexer_test_default() {
    let result = execute(
        r#"
    # metapi
    Cs = "" | "b" | "p" | "f" | "v" | "d" | "t" | "s" | "z" | "c" | "j" | "g" | "k" | "h" | "q" | "r" | "w" | "n" | "m"
    Ce = "" | "b" | "d" | "g" | "m" | "n" | "h"

    Va = "a" | "á" | "à" | "ä"
    Ve = "e" | "é" | "è" | "ë"
    Vi = "i" | "í" | "ì" | "ï"
    Vo = "o" | "ó" | "ò" | "ö"
    Vu = "u" | "ú" | "ù" | "ü"
    Vy = "y" | "ý" | "ỳ" | "ÿ"

    Vxi = Va "i" | Ve "i" | Vo "i" | Vi "a" | Vi "e"
    Vxu = Va "u" | Vo "u" | Vu "e" | Vu "i"
    Vx = Va | Ve | Vi | Vo | Vu | Vy | Vxi | Vxu

    % Cs Vx Ce | Cs Vx Ce Cs Vx Ce - ^ "y" | ^ "ý" | ^ "ỳ" | ^ "ÿ" | ^ "wu" | ^ "wú" | ^ "wù" | ^ "wü" | ^ "hy" | ^ "hý" | ^ "hỳ" | ^ "hÿ" | ^ "qy" | ^ "qý" | ^ "qỳ" | ^ "qÿ" | ^ "ry" | ^ "rý" | ^ "rỳ" | ^ "rÿ" | ^ "ny" | ^ "ný" | ^ "nỳ" | ^ "nÿ" | ^ "my" | ^ "mý" | ^ "mỳ" | ^ "mÿ";
    "#,
    );

    println!("{:?}", result);
    assert!(unknown_count(&result) == 0);
}

#[test]
fn lexer_test_use_semicolon() {
    let result = execute(
        r#"
    # metapi
    Cs = "" | "b" | "p" | "f" | "v" | "d" | "t" | "s" | "z" | "c" | "j" | "g" | "k" | "h" | "q" | "r" | "w" | "n" | "m";
    Ce = "" | "b" | "d" | "g" | "m" | "n" | "h";

    Va = "a" | "á" | "à" | "ä";
    Ve = "e" | "é" | "è" | "ë";
    Vi = "i" | "í" | "ì" | "ï";
    Vo = "o" | "ó" | "ò" | "ö";
    Vu = "u" | "ú" | "ù" | "ü";
    Vy = "y" | "ý" | "ỳ" | "ÿ";

    Vxi = Va "i" | Ve "i" | Vo "i" | Vi "a" | Vi "e";
    Vxu = Va "u" | Vo "u" | Vu "e" | Vu "i";
    Vx = Va | Ve | Vi | Vo | Vu | Vy | Vxi | Vxu;

    % Cs Vx Ce | Cs Vx Ce Cs Vx Ce - ^ "y" | ^ "ý" | ^ "ỳ" | ^ "ÿ" | ^ "wu" | ^ "wú" | ^ "wù" | ^ "wü" | ^ "hy" | ^ "hý" | ^ "hỳ" | ^ "hÿ" | ^ "qy" | ^ "qý" | ^ "qỳ" | ^ "qÿ" | ^ "ry" | ^ "rý" | ^ "rỳ" | ^ "rÿ" | ^ "ny" | ^ "ný" | ^ "nỳ" | ^ "nÿ" | ^ "my" | ^ "mý" | ^ "mỳ" | ^ "mÿ";
    "#,
    );

    println!("{:?}", result);
    assert!(unknown_count(&result) == 0);
}

#[test]
fn lexer_test_unofficial_circ() {
    let result = execute(
        r#"
    # metapi
    Cs = "" | "b" | "p" | "f" | "v" | "d" | "t" | "s" | "z" | "c" | "j" | "g" | "k" | "h" | "q" | "r" | "w" | "n" | "m";
    Ce = "" | "b" | "d" | "g" | "m" | "n" | "h";

    Va = "a" | "á" | "à" | "ä";
    Ve = "e" | "é" | "è" | "ë";
    Vi = "i" | "í" | "ì" | "ï";
    Vo = "o" | "ó" | "ò" | "ö";
    Vu = "u" | "ú" | "ù" | "ü";
    Vy = "y" | "ý" | "ỳ" | "ÿ";

    Vxi = (Va | Ve | Vo) "i" | Vi ( "a" | "e" );
    Vxu = ( Va | Vo ) "u" | Vu ("e" | "i");
    Vx = Va | Ve | Vi | Vo | Vu | Vy | Vxi | Vxu;
    % Cs Vx Ce | Cs Vx Ce Cs Vx Ce - ^ ("" | "w" | "h" | "q" | "r" | "n" | "m") ("y" | "ý" | "ỳ" | "ÿ");
    "#,
    );

    println!("{:?}", result);
    let circ_check = result.iter().fold(0i64, |acc, x| match x {
        TokenType::LeftCirc => acc + 1,
        TokenType::RightCirc => acc - 1,
        _ => acc,
    });

    assert!(unknown_count(&result) == 0);
    assert_eq!(circ_check, 0);
}

#[test]
fn lexer_test_unofficial_destruct_pattern() {
    let result = execute(
        r#"
    # test
    Ca = "p" | "b" | "f" | "v" | "m" | "t" | "d" | "s" | "z" | "n"
    Cb = "p" | "b" | "f" | "v" | "m" | "k" | "g" | "h"
    C = Ca | Cb
    Vi = "a" | "e" | "i"
    Vu = "a" | "o" | "u"
    V = Vi | Vu

    X : Vx <- V = C Vx C Vx;
    Y : Vx <- V, Cx <- C = Vx Cx Vx Cx | Cx Vx Cx Vx Cx;
    % V | V C | C V | C V C | X;
    "#,
    );

    println!("{:?}", result);
    assert!(unknown_count(&result) == 0);
}

#[test]
fn simple1() {
    let result = execute(r#"identifier = "foo" | "bar" | "baz" "two" "three""#);
    println!("{:?}", result);
    assert!(unknown_count(&result) == 0);
}

#[test]
fn simple2() {
    let result =
        execute(r#"identifier = inner inner | "string" inner | "string" "string" | "string""#);
    println!("{:?}", result);
    assert!(unknown_count(&result) == 0);
}

#[test]
fn with_weight() {
    let result =
        execute(r#"identifier = "foo" 3 | "bar" 1.94 | "baz" .2 | unweighted | "qux" 50."#);
    println!("{:?}", result);
    assert!(unknown_count(&result) == 0);
}

#[test]
fn with_exclusion1() {
    let result = execute(r#"identifier = "foo" | "bar" | "baz" "qux" - "exclusion" | exclusion"#);
    println!("{:?}", result);
    assert!(unknown_count(&result) == 0);
}

#[test]
fn with_exclusion2() {
    let result =
        execute(r#"identifier = "foo" | "bar" | "baz" "qux" - ^ exact ^ | ^ prefix | suffix ^"#);
    println!("{:?}", result);
    assert!(unknown_count(&result) == 0);
}

#[test]
fn lexer_complex1() {
    let result = execute(r#"identifier = ("a" | "b" | "c") ("d" | "e") | "f" ("g" | "h")"#);
    println!("{:?}", result);
    assert!(unknown_count(&result) == 0);
}

#[test]
fn complex2() {
    let result = execute(
        r#"identifier = "a" ("b" 3 | "c" | ("d" | "e" "f" 1.7 | inner "g") 5) | ("h" | inner inner 4) "i" 2 - ^ ("j" | "k") "l" inner | "m" "n" ^"#,
    );
    println!("{:?}", result);
    assert!(unknown_count(&result) == 0);
}

#[test]
fn main_generatable() {
    let result = execute(
        r#"% "a" ("b" 3 | "c" | ("d" | "e" "f" 1.7 | inner "g") 5) | ("h" | inner inner 4) "i" 2 - ^ ("j" | "k") "l" inner | "m" "n" ^;"#,
    );
    println!("{:?}", result);
    assert!(unknown_count(&result) == 0);
}

#[test]
fn exact_token_stream() {
    let result = execute("C = \"p\" | x 3; % C;");
    assert_eq!(
        result,
        vec![
            TokenType::Variable(String::from("C")),
            TokenType::Equal,
            TokenType::Value(String::from("p")),
            TokenType::Or,
            TokenType::Variable(String::from("x")),
            TokenType::Count(3),
            TokenType::Semicolon,
            TokenType::Percent,
            TokenType::Variable(String::from("C")),
            TokenType::Semicolon,
        ]
    );
}

#[test]
fn tokens_round_trip() {
    let text = "C = \"p\" | \"f\" 2\nV : A <- B = ( \"a\" | \"i\" ) - ^ \"a\" ^; % C V;";
    let tokens = zatlin::lexer::lexer(text);
    let rendered = zatlin::lexer::render_tokens(&tokens);
    let again = zatlin::lexer::lexer(rendered.as_str());
    assert_eq!(tokens, again);
}

#[test]
fn lexer_by_vec_classifies_fragments() {
    let fragments = vec!["C", "=", "\"p\"", "|", "\"f\"", "3", ";", "%", "C", ";"];
    let result = zatlin::lexer::lexer_by_vec(fragments);
    assert_eq!(
        result,
        vec![
            TokenType::Variable(String::from("C")),
            TokenType::Equal,
            TokenType::Value(String::from("p")),
            TokenType::Or,
            TokenType::Value(String::from("f")),
            TokenType::Count(3),
            TokenType::Semicolon,
            TokenType::Percent,
            TokenType::Variable(String::from("C")),
            TokenType::Semicolon,
        ]
    );
}

#[test]
fn numeric_classification_edges() {
    // an optional plus sign parses; an overflowing number falls back to an
    // identifier, as integer parsing rejects it
    let result = execute("x = \"a\" +12; y = \"b\" 99999999999999999999999999;");
    assert!(result.contains(&TokenType::Count(12)));
    assert!(result.contains(&TokenType::Variable(String::from(
        "99999999999999999999999999"
    ))));
}

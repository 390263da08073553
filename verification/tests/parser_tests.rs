use zatlin::error::ErrorValue;
use zatlin::lexer::{lexer, TokenType};
use zatlin::parser::{parse, DefineStruct, Statement};

fn execute(s: &str) -> Result<Vec<Statement>, ErrorValue> {
    let tokens = lexer(s);
    parse(&tokens)
}

const METAPI_NEWLINES: &str = r#"
        # metapi
        Cs = "" | "b" | "p" | "f" | "v" | "d" | "t" | "s" | "z" | "c" | "j" | "g" | "k" | "h" | "q" | "r" | "w" | "n" | "m"
        Ce = "" | "b" | "d" | "g" | "m" | "n" | "h"

        Va = "a" | "á" | "à" | "ä"
        Ve = "e" | "é" | "è" | "ë"
        Vi = "i" | "í" | "ì" | "ï"
        Vo = "o" | "ó" | "ò" | "ö"
        Vu = "u" | "ú" | "ù" | "ü"
        Vy = "y" | "ý" | "ỳ" | "ÿ"

        Vxi = Va "i" | Ve "i" | Vo "i" | Vi "a" | Vi "e"
        Vxu = Va "u" | Vo "u" | Vu "e" | Vu "i"
        Vx = Va | Ve | Vi | Vo | Vu | Vy | Vxi | Vxu

        % Cs Vx Ce | Cs Vx Ce Cs Vx Ce - ^ "y" | ^ "ý" | ^ "ỳ" | ^ "ÿ" | ^ "wu" | ^ "wú" | ^ "wù" | ^ "wü" | ^ "hy" | ^ "hý" | ^ "hỳ" | ^ "hÿ" | ^ "qy" | ^ "qý" | ^ "qỳ" | ^ "qÿ" | ^ "ry" | ^ "rý" | ^ "rỳ" | ^ "rÿ" | ^ "ny" | ^ "ný" | ^ "nỳ" | ^ "nÿ" | ^ "my" | ^ "mý" | ^ "mỳ" | ^ "mÿ";
        "#;

const METAPI_SEMICOLONS: &str = r#"
        # metapi
        Cs = "" | "b" | "p" | "f" | "v" | "d" | "t" | "s" | "z" | "c" | "j" | "g" | "k" | "h" | "q" | "r" | "w" | "n" | "m";
        Ce = "" | "b" | "d" | "g" | "m" | "n" | "h";

        Va = "a" | "á" | "à" | "ä";
        Ve = "e" | "é" | "è" | "ë";
        Vi = "i" | "í" | "ì" | "ï";
        Vo = "o" | "ó" | "ò" | "ö";
        Vu = "u" | "ú" | "ù" | "ü";
        Vy = "y" | "ý" | "ỳ" | "ÿ";

        Vxi = Va "i" | Ve "i" | Vo "i" | Vi "a" | Vi "e";
        Vxu = Va "u" | Vo "u" | Vu "e" | Vu "i";
        Vx = Va | Ve | Vi | Vo | Vu | Vy | Vxi | Vxu;

        % Cs Vx Ce | Cs Vx Ce Cs Vx Ce - ^ "y" | ^ "ý" | ^ "ỳ" | ^ "ÿ" | ^ "wu" | ^ "wú" | ^ "wù" | ^ "wü" | ^ "hy" | ^ "hý" | ^ "hỳ" | ^ "hÿ" | ^ "qy" | ^ "qý" | ^ "qỳ" | ^ "qÿ" | ^ "ry" | ^ "rý" | ^ "rỳ" | ^ "rÿ" | ^ "ny" | ^ "ný" | ^ "nỳ" | ^ "nÿ" | ^ "my" | ^ "mý" | ^ "mỳ" | ^ "mÿ";
        "#;

#[test]
fn parser_default() {
    let result = execute(METAPI_NEWLINES);
    println!("{:?}", result);
    assert!(result.is_ok())
}

#[test]
fn parser_use_semicolon() {
    let result = execute(METAPI_SEMICOLONS);
    println!("{:?}", result);
    assert!(result.is_ok());
}

#[test]
fn parser_multiple_define_in_line() {
    let result = execute(
        r#"
        C = "p" | "f" | "t" | "s" | "k" | "h"; V = "a" | "i" | "u";

        % C V | C V C | V C | V C V;
        "#,
    );

    println!("{:?}", result);
    assert!(result.is_ok())
}

fn excludes_are_single_literals(result: Result<Vec<Statement>, ErrorValue>) -> bool {
    result.unwrap().iter().fold(true, |acc, x| {
        acc && match x {
            Statement::Define(DefineStruct { name: _, destruct_variables: _, expr }) => {
                if expr.excludes.is_empty() {
                    true
                } else {
                    expr.excludes.iter().any(|x| x.values.len() == 1)
                }
            },
            Statement::Generate(expr) => {
                if expr.excludes.is_empty() {
                    true
                } else {
                    expr.excludes.iter().any(|x| x.values.len() == 1)
                }
            },
        }
    })
}

#[test]
fn parser_expand_exclude_check() {
    let result = execute(
        r#"
        C = "p" | "f" | "t" | "s" | "k" | "h";
        V = "a" | "i" | "u";

        % C V | C V C | V C | V C V | C C V C | C V C C - "h" "u" | "a" "h" ^ | "i" "h" ^ | "u" "h" ^ | "f" "h" | "s" "h";
        "#,
    );

    println!("{:?}", result);
    assert!(result.is_ok());
    assert!(excludes_are_single_literals(result));
}

#[test]
fn parser_nothing_semicolon() {
    let result = execute(
        r#"
        C = "p" | "f" | "t" | "s" | "k" | "h"
        V = "a" | "i" | "u"

        # invalid statement in generate.
        # semicolon is nothing.
        % C V | C V C | V C | V C V
        "#,
    );

    println!("{:?}", result);
    assert!(result.is_err());
    assert!(if let ErrorValue::InvalidToken(point, token, _) = result.unwrap_err() {
        point == "generate" && token == TokenType::NewLine.to_text()
    } else {
        false
    })
}

#[test]
fn parser_invalid_define_variable() {
    let result = execute(
        r#"
        C = "p" | "f" | "t" |
            "s" | "k" | "h";
        V = "a" | "i" | "u";

        % C V | C V C | V C | V C V;
        "#,
    );

    println!("{:?}", result);
    assert!(result.is_err());
    assert!(match result {
        Err(ErrorValue::ErrorMessage(message, _)) =>
            message.starts_with("Next pattern is nothing in patterns"),
        Err(_) => false,
        Ok(_) => false,
    })
}

const UNOFFICIAL_CIRC: &str = r#"
        # metapi
        Cs = "" | "b" | "p" | "f" | "v" | "d" | "t" | "s" | "z" | "c" | "j" | "g" | "k" | "h" | "q" | "r" | "w" | "n" | "m";
        Ce = "" | "b" | "d" | "g" | "m" | "n" | "h";

        Va = "a" | "á" | "à" | "ä";
        Ve = "e" | "é" | "è" | "ë";
        Vi = "i" | "í" | "ì" | "ï";
        Vo = "o" | "ó" | "ò" | "ö";
        Vu = "u" | "ú" | "ù" | "ü";
        Vy = "y" | "ý" | "ỳ" | "ÿ";

        Vxi = (Va | Ve | Vo) "i" | Vi ( "a" | "e" );
        Vxu = ( Va | Vo ) "u" | Vu ("e" | "i");
        Vx = Va | Ve | Vi | Vo | Vu | Vy | Vxi | Vxu;
        % Cs Vx Ce | Cs Vx Ce Cs Vx Ce - ^ ("" | "w" | "h" | "q" | "r" | "n" | "m") ("y" | "ý" | "ỳ" | "ÿ");
        "#;

#[test]
fn parser_unofficial_circ() {
    let result = execute(UNOFFICIAL_CIRC);
    println!("{:?}", result);
    assert!(result.is_ok())
}

#[test]
fn unofficial() {
    let parsed = execute(UNOFFICIAL_CIRC);
    println!("{:?}", parsed);
    assert!(parsed.is_ok())
}

const DESTRUCT_PATTERN: &str = r#"
        # test
        Ca = "p" | "b" | "f" | "v" | "m" | "t" | "d" | "s" | "z" | "n"
        Cb = "p" | "b" | "f" | "v" | "m" | "k" | "g" | "h"
        C = Ca | Cb
        Vi = "a" | "e" | "i"
        Vu = "a" | "o" | "u"
        V = Vi | Vu

        X : Vx <- V = C Vx C Vx;
        Y : Vx <- V, Cx <- C = Vx Cx Vx Cx | Cx Vx Cx Vx Cx;
        % V | V C | C V | C V C | X;
        "#;

#[test]
fn parser_unofficial_destruct_pattern() {
    let result = execute(DESTRUCT_PATTERN);
    println!("{:?}", result);
    assert!(result.is_ok())
}

#[test]
fn parser_test_default() {
    let result = execute(METAPI_NEWLINES);
    println!("{:?}", result);
    assert!(result.is_ok())
}

#[test]
fn parser_test_use_semicolon() {
    let result = execute(METAPI_SEMICOLONS);
    println!("{:?}", result);
    assert!(result.is_ok());
}

#[test]
fn parser_test_multiple_define_in_line() {
    let result = execute(
        r#"
    C = "p" | "f" | "t" | "s" | "k" | "h"; V = "a" | "i" | "u";

    % C V | C V C | V C | V C V;
    "#,
    );

    println!("{:?}", result);
    assert!(result.is_ok())
}

#[test]
fn parser_test_expand_exclude_check() {
    let result = execute(
        r#"
    C = "p" | "f" | "t" | "s" | "k" | "h";
    V = "a" | "i" | "u";

    % C V | C V C | V C | V C V | C C V C | C V C C - "h" "u" | "a" "h" ^ | "i" "h" ^ | "u" "h" ^ | "f" "h" | "s" "h";
    "#,
    );

    println!("{:?}", result);
    assert!(result.is_ok());
    assert!(excludes_are_single_literals(result));
}

#[test]
fn parser_test_nothing_semicolon() {
    let result = execute(
        r#"
    C = "p" | "f" | "t" | "s" | "k" | "h"
    V = "a" | "i" | "u"

    # invalid statement in generate.
    # semicolon is nothing.
    % C V | C V C | V C | V C V
    "#,
    );

    println!("{:?}", result);
    assert!(result.is_err());
    assert!(if let ErrorValue::InvalidToken(point, token, _) = result.unwrap_err() {
        point == "generate" && token == TokenType::NewLine.to_text()
    } else {
        false
    })
}

#[test]
fn parser_test_invalid_define_variable() {
    let result = execute(
        r#"
    C = "p" | "f" | "t" |
        "s" | "k" | "h";
    V = "a" | "i" | "u";

    % C V | C V C | V C | V C V;
    "#,
    );

    println!("{:?}", result);
    assert!(result.is_err());
    assert!(match result {
        Err(ErrorValue::ErrorMessage(message, _)) =>
            message.starts_with("Next pattern is nothing in patterns"),
        Err(_) => false,
        Ok(_) => false,
    })
}

#[test]
fn parser_test_unofficial_circ() {
    let result = execute(UNOFFICIAL_CIRC);
    println!("{:?}", result);
    assert!(result.is_ok())
}

#[test]
fn parser_test_unofficial_destruct_pattern() {
    let result = execute(DESTRUCT_PATTERN);
    println!("{:?}", result);
    assert!(result.is_ok())
}

#[test]
fn parser_complex1() {
    let result = execute(
        r#"
        identifier = ("a" | "b" | "c") ("d" | "e") | "f" ("g" | "h")
        % identified identified - "b" | "c" | "d" | "f" | "g" | "h" ^;
        "#,
    );

    println!("{:?}", result);
    assert!(result.is_ok())
}

#[test]
fn exclude_variable_is_rejected() {
    // a bare identifier cannot start an exclusion value
    let result = execute(r#"V = "a" | "b"; % V V - V;"#);
    assert_eq!(
        result.unwrap_err(),
        ErrorValue::InvalidToken(String::from("exclude value"), String::from("V"), 10)
    );
}

#[test]
fn unknown_token_is_reported() {
    // a lone quote flushed by a minus sign cannot be classified; the parser
    // reports it with its token index
    let result = execute("\"- ;");
    assert_eq!(
        result.unwrap_err(),
        ErrorValue::UnknownToken(String::from("\""), 0)
    );
}

#[test]
fn exclude_group_cross_product() {
    // ("a" | "b") "c" expands into the two literal alternatives "ac", "bc",
    // one single-literal exclusion pattern each
    let result = execute(r#"% "x" - ("a" | "b") "c";"#).unwrap();
    match &result[0] {
        Statement::Generate(expr) => {
            assert_eq!(expr.excludes.len(), 2);
            let texts: Vec<String> = expr
                .excludes
                .iter()
                .map(|p| {
                    assert_eq!(p.values.len(), 1);
                    match &p.values[0] {
                        zatlin::parser::Value::Literal(s) => s.clone(),
                        _ => panic!("expected literal"),
                    }
                })
                .collect();
            assert_eq!(texts, vec![String::from("ac"), String::from("bc")]);
        },
        _ => panic!("expected generate statement"),
    }
}

#[test]
fn end_of_tokens_is_reported() {
    // input ends right after a pattern, before any terminator
    let result = execute(r#"C = "a""#);
    assert_eq!(
        result.unwrap_err(),
        ErrorValue::EndOfToken(String::from("pattern"), 2)
    );
}

use zatlin::error::ErrorValue;
use zatlin::Zatlin;

const METAPI_NEWLINES: &str = r#"
        # metapi
        Cs = "" | "b" | "p" | "f" | "v" | "d" | "t" | "s" | "z" | "c" | "j" | "g" | "k" | "h" | "q" | "r" | "w" | "n" | "m"
        Ce = "" | "b" | "d" | "g" | "m" | "n" | "h"

        Va = "a" | "á" | "à" | "ä"
        Ve = "e" | "é" | "è" | "ë"
        Vi = "i" | "í" | "ì" | "ï"
        Vo = "o" | "ó" | "ò" | "ö"
        Vu = "u" | "ú" | "ù" | "ü"
        Vy = "y" | "ý" | "ỳ" | "ÿ"

        Vxi = Va "i" | Ve "i" | Vo "i" | Vi "a" | Vi "e"
        Vxu = Va "u" | Vo "u" | Vu "e" | Vu "i"
        Vx = Va | Ve | Vi | Vo | Vu | Vy | Vxi | Vxu

        % Cs Vx Ce | Cs Vx Ce Cs Vx Ce - ^ "y" | ^ "ý" | ^ "ỳ" | ^ "ÿ" | ^ "wu" | ^ "wú" | ^ "wù" | ^ "wü" | ^ "hy" | ^ "hý" | ^ "hỳ" | ^ "hÿ" | ^ "qy" | ^ "qý" | ^ "qỳ" | ^ "qÿ" | ^ "ry" | ^ "rý" | ^ "rỳ" | ^ "rÿ" | ^ "ny" | ^ "ný" | ^ "nỳ" | ^ "nÿ" | ^ "my" | ^ "mý" | ^ "mỳ" | ^ "mÿ";
        "#;

const METAPI_SEMICOLONS: &str = r#"
        # metapi
        Cs = "" | "b" | "p" | "f" | "v" | "d" | "t" | "s" | "z" | "c" | "j" | "g" | "k" | "h" | "q" | "r" | "w" | "n" | "m";
        Ce = "" | "b" | "d" | "g" | "m" | "n" | "h";

        Va = "a" | "á" | "à" | "ä";
        Ve = "e" | "é" | "è" | "ë";
        Vi = "i" | "í" | "ì" | "ï";
        Vo = "o" | "ó" | "ò" | "ö";
        Vu = "u" | "ú" | "ù" | "ü";
        Vy = "y" | "ý" | "ỳ" | "ÿ";

        Vxi = Va "i" | Ve "i" | Vo "i" | Vi "a" | Vi "e";
        Vxu = Va "u" | Vo "u" | Vu "e" | Vu "i";
        Vx = Va | Ve | Vi | Vo | Vu | Vy | Vxi | Vxu;

        % Cs Vx Ce | Cs Vx Ce Cs Vx Ce - ^ "y" | ^ "ý" | ^ "ỳ" | ^ "ÿ" | ^ "wu" | ^ "wú" | ^ "wù" | ^ "wü" | ^ "hy" | ^ "hý" | ^ "hỳ" | ^ "hÿ" | ^ "qy" | ^ "qý" | ^ "qỳ" | ^ "qÿ" | ^ "ry" | ^ "rý" | ^ "rỳ" | ^ "rÿ" | ^ "ny" | ^ "ný" | ^ "nỳ" | ^ "nÿ" | ^ "my" | ^ "mý" | ^ "mỳ" | ^ "mÿ";
        "#;

const UNDEFINED_VARIABLE: &str = r#"
    C = "p" | "f" | "t" | "s" | "k" | "h";
    V = "a" | "i" | "u"
    Y = C V

    # 'X' of variable is not defined.
    % X;
    "#;

const OVER_RETRY: &str = r#"
    C = "p" | "f" | "t" | "s" | "k" | "h";
    V = "a" | "i" | "u"

    # Retry count is over limit.
    % C V - "a" ^ | "i" ^ | "u" ^;
    "#;

fn execute_text(s: &str) -> Vec<Result<String, ErrorValue>> {
    let zatlin = Zatlin::default();
    zatlin.generate_many(s, 32)
}

fn execute_data(s: &str) -> Vec<Result<String, ErrorValue>> {
    let zatlin = Zatlin::default();
    match Zatlin::create_data(s) {
        Ok(data) => zatlin.generate_many_by(&data, 32),
        Err(error) => vec![Err(error)],
    }
}

fn print_all(result: &[Result<String, ErrorValue>]) {
    for item in result.iter() {
        match item {
            Ok(value) => {
                println!("{} ", value);
            },
            Err(message) => {
                println!("({}) ", message.to_message());
            },
        }
    }
}

#[test]
fn lib_default() {
    let result = execute_text(METAPI_NEWLINES);
    print_all(&result);
    assert!(result.iter().all(|x| x.is_ok()));
}

#[test]
fn lib_use_semicolon() {
    let result = execute_text(METAPI_SEMICOLONS);
    print_all(&result);
    assert!(result.iter().all(|x| x.is_ok()));
}

#[test]
fn lib_undefined_variable() {
    let result = execute_text(UNDEFINED_VARIABLE);
    assert!(result.iter().all(|x| x.is_err()));
    assert!(result.iter().all(
        |x| if let Err(ErrorValue::NotFoundVariable(message)) = x {
            message == "X"
        } else {
            false
        }
    ))
}

#[test]
fn lib_over_retry_count() {
    let result = execute_text(OVER_RETRY);
    assert!(result.iter().all(|x| x.is_err()));
    assert!(result
        .iter()
        .all(|x| matches!(x, Err(ErrorValue::OverRetryCount))))
}

#[test]
fn zatlin_test_default() {
    let result = execute_data(METAPI_NEWLINES);
    print_all(&result);
    assert!(result.iter().all(|x| x.is_ok()));
}

#[test]
fn zatlin_test_use_semicolon() {
    let result = execute_data(METAPI_SEMICOLONS);
    print_all(&result);
    assert!(result.iter().all(|x| x.is_ok()));
}

#[test]
fn zatlin_test_undefined_variable() {
    let result = execute_data(UNDEFINED_VARIABLE);
    assert!(result.iter().all(|x| x.is_err()));
    assert!(result.iter().all(
        |x| if let Err(ErrorValue::NotFoundVariable(message)) = x {
            message == "X"
        } else {
            false
        }
    ))
}

#[test]
fn zatlin_test_over_retry_count() {
    let result = execute_data(OVER_RETRY);
    assert!(result.iter().all(|x| x.is_err()));
    assert!(result
        .iter()
        .all(|x| matches!(x, Err(ErrorValue::OverRetryCount))))
}

#[test]
fn generate_by_destruct_pattern() {
    // a destructuring binding fixes one expansion for both uses of the name
    let data = Zatlin::create_data(
        r#"
        V = "a" | "b" | "c"
        X : Vx <- V = Vx Vx;
        % X;
        "#,
    )
    .unwrap();
    let zatlin = Zatlin::default();
    for _ in 0..200 {
        let word = zatlin.generate_by(&data).unwrap();
        assert_eq!(word.len(), 2);
        let mut chars = word.chars();
        let a = chars.next().unwrap();
        let b = chars.next().unwrap();
        assert_eq!(a, b);
    }
}

#[test]
fn retry_budget_accessors() {
    let mut zatlin = Zatlin::new(7);
    assert_eq!(zatlin.get_retry(), 7);
    zatlin.set_retry(0);
    assert_eq!(zatlin.get_retry(), 100);
    zatlin.set_retry(3);
    assert_eq!(zatlin.get_retry(), 3);
    let by_default = Zatlin::default();
    assert_eq!(by_default.get_retry(), 100);
    let zero_is_default = Zatlin::new(0);
    assert_eq!(zero_is_default.get_retry(), 100);
}

#[test]
fn generate_from_fragments() {
    let fragments = vec![
        "C", "=", "\"p\"", "|", "\"f\"", ";", "V", "=", "\"a\"", "|", "\"i\"", ";", "%", "C", "V",
        ";",
    ];
    let data = zatlin::ZatlinData::from_fragments(fragments).unwrap();
    let zatlin = Zatlin::default();
    for _ in 0..50 {
        let word = zatlin.generate_by(&data).unwrap();
        assert!(["pa", "pi", "fa", "fi"].contains(&word.as_str()));
    }
}

#[test]
fn error_messages_are_exact() {
    assert_eq!(
        ErrorValue::NotFoundVariable(String::from("X")).to_message(),
        "Not found variable: X"
    );
    assert_eq!(ErrorValue::OverRetryCount.to_message(), "Retry count is over limit.");
    assert_eq!(ErrorValue::NotFoundPattern.to_message(), "Not found patterns.");
    assert_eq!(
        ErrorValue::InvalidToken(String::from("generate"), String::from("(NewLine)"), 12)
            .to_message(),
        "Invalid token in generate : (NewLine), index: 12"
    );
    assert_eq!(
        ErrorValue::EndOfToken(String::from("value"), 3).to_message(),
        "End of token in value : index: 3"
    );
    assert_eq!(
        ErrorValue::ErrorMessage(String::from("boom"), Some(41)).to_message(),
        "boom: index: 41"
    );
}

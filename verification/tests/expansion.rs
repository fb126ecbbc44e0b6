use fcs::codes::Codes;
use fcs::expand::{expand, expand_fully};
use fcs::expand_last;
use fcs::find_first_valid_opening_bracket;

fn test_codes() -> Codes {
    let mut codes = Codes::new();
    let pairs = [
        ("fr", "French"),
        ("hst", "History"),
        ("cnt", "Century"),
        ("1", "one"),
        ("2", "two"),
        ("shone", "Shell One"),
        ("shtwo", "Shell Two"),
    ];
    for (k, v) in pairs.iter() {
        codes.insert(String::from(*k), String::from(*v));
    }
    codes
}

#[test]
fn test_expand() {
    let codes = test_codes();

    assert_eq!(expand("{{fr}", &codes, '{', '}', None, &mut vec![], ','), "{French");
    assert_eq!(expand("{fr", &codes, '{', '}', None, &mut vec![], ','), "{fr");
    assert_eq!(
        expand("{fr} {hst} (18th {cnt})", &codes, '{', '}', None, &mut vec![], ','),
        "French History (18th Century)"
    );
    assert_eq!(
        expand("{fr {hst} (18th {cnt})", &codes, '{', '}', None, &mut vec![], ','),
        "{fr History (18th Century)"
    );

    assert_eq!(
        expand(
            &expand("[sh{1}]", &codes, '{', '}', None, &mut vec![], ','),
            &codes,
            '[',
            ']',
            None,
            &mut vec![],
            ','
        ),
        "Shell One"
    );

    assert_eq!(
        expand(
            &expand("{sh{2}}", &codes, '{', '}', Some(3), &mut vec![], ','),
            &codes,
            '{',
            '}',
            None,
            &mut vec![],
            ','
        ),
        "Shell Two"
    );

    assert_eq!(
        expand(
            &expand(
                "{,{2}}",
                &codes,
                '{',
                '}',
                None,
                &mut vec!["sh".to_string()],
                ','
            ),
            &codes,
            '{',
            '}',
            None,
            &mut vec!["sh".to_string()],
            ','
        ),
        "Shell Two"
    );
}

#[test]
fn test_decode() {
    let history: Vec<_> = vec!["fr", "hst", "cnt", "1", "2", "shone", "shtwo"]
        .iter()
        .map(|x| x.to_string())
        .collect();

    assert_eq!(expand_last(",,", &history, ','), "hst");

    assert_eq!(expand_last("fr", &history, ','), "fr");

    assert_eq!(expand_last(",,,,,,,,", &history, ','), "shtwofr");
    assert_eq!(expand_last(",aa", &history, ','), "fraa");
    assert_eq!(expand_last("", &history, ','), "");
}

#[test]
fn expand_leaves_delimiter_free_text_alone() {
    let codes = test_codes();
    assert_eq!(expand("fr hst cnt", &codes, '{', '}', None, &mut vec![], ','), "fr hst cnt");
    assert_eq!(expand("", &codes, '{', '}', None, &mut vec![], ','), "");
    assert_eq!(expand("}}fr}", &codes, '{', '}', None, &mut vec![], ','), "}}fr}");
}

#[test]
fn expand_is_stable_at_a_fixed_point() {
    let codes = test_codes();
    let once = expand("{fr}.{hst}", &codes, '{', '}', None, &mut vec![], ',');
    assert_eq!(once, "French.History");
    assert_eq!(find_first_valid_opening_bracket(&once, '{', '}'), None);
    let again = expand(&once, &codes, '{', '}', None, &mut vec![], ',');
    assert_eq!(again, once);
}

#[test]
fn expand_records_resolved_tokens_in_history() {
    let codes = test_codes();
    let mut history: Vec<String> = Vec::new();
    let out = expand("{fr}x{,}", &codes, '{', '}', None, &mut history, ',');
    // The second token is a back-reference to the first resolved token.
    assert_eq!(out, "FrenchxFrench");
    assert_eq!(history, vec!["fr".to_string(), "fr".to_string()]);
}

#[test]
fn expand_fully_resolves_nested_spans() {
    let codes = test_codes();
    let mut history: Vec<String> = Vec::new();
    let out = expand_fully("{sh{2}}", &codes, '{', '}', &mut history, ',');
    assert_eq!(out, "Shell Two");
    assert_eq!(history, vec!["2".to_string(), "shtwo".to_string()]);
}

#[test]
fn expand_fully_stops_on_a_self_reproducing_value() {
    // A code value that reintroduces its own span can never reach a fixed
    // point; scanning stops after the pass that failed to lower the number
    // of begin delimiters.
    let mut codes = Codes::new();
    codes.insert("x".to_string(), "{x}".to_string());
    let mut history: Vec<String> = Vec::new();
    let out = expand_fully("{x}", &codes, '{', '}', &mut history, ',');
    assert_eq!(out, "{x}");
    assert_eq!(history, vec!["x".to_string()]);
}

#[test]
fn expand_unknown_codes_pass_through() {
    let codes = test_codes();
    assert_eq!(expand("{zz}", &codes, '{', '}', None, &mut vec![], ','), "zz");
}

#[test]
fn bracket_locator_picks_innermost_first() {
    assert_eq!(find_first_valid_opening_bracket("{{fr}", '{', '}'), Some(1));
    assert_eq!(find_first_valid_opening_bracket("{sh{2}}", '{', '}'), Some(3));
    assert_eq!(find_first_valid_opening_bracket("{fr}", '{', '}'), Some(0));
    assert_eq!(find_first_valid_opening_bracket("{fr", '{', '}'), None);
    assert_eq!(find_first_valid_opening_bracket("plain", '{', '}'), None);
    assert_eq!(find_first_valid_opening_bracket("a{{}}", '{', '}'), Some(2));
}

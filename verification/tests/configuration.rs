use fcs::codes::Codes;
use fcs::config::{
    codes_from_list, get_build_default, get_default, parse_key_val, BuildConfig, Config,
    ConfigSerDe, DeclaredType, DECLARED_CODES, DECLARED_SLEEP,
};

#[test]
fn defaults_match_the_documented_values() {
    let d = get_default();
    assert_eq!(d.once, false);
    assert_eq!(d.sleep, 1000);
    assert_eq!(d.timeinfo, false);
    assert_eq!(d.static_mode, false);
    assert_eq!(d.dest, "");
    assert!(d.dirs.is_empty());
    assert!(d.codes.is_empty());
    assert_eq!(d.separator, '.');
    assert_eq!(d.filename_separators, 1);
    assert_eq!(d.begin_var, '{');
    assert_eq!(d.end_var, '}');

    let b = get_build_default();
    assert_eq!(b.sleep, Some(1000));
    assert_eq!(b.separator, Some('.'));
    assert_eq!(b.begin_var, Some('{'));
    assert_eq!(b.end_var, Some('}'));

    let d2 = Config::default();
    assert_eq!(d2.sleep, d.sleep);
    let b2 = BuildConfig::default();
    assert_eq!(b2.sleep, b.sleep);
}

#[test]
fn parse_key_val_splits_at_the_first_equals() {
    assert_eq!(
        parse_key_val("fr=French").unwrap(),
        ("fr".to_string(), "French".to_string())
    );
    assert_eq!(
        parse_key_val("a=b=c").unwrap(),
        ("a".to_string(), "b=c".to_string())
    );
    assert_eq!(parse_key_val("=x").unwrap(), ("".to_string(), "x".to_string()));
    assert!(parse_key_val("no separator").is_err());
}

#[test]
fn code_table_lookup_falls_back_to_the_token() {
    let mut codes = Codes::new();
    codes.insert("fr".to_string(), "French".to_string());
    codes.insert("fr".to_string(), "Français".to_string());
    assert_eq!(codes.len(), 1);
    assert_eq!(codes.get(&"fr".to_string()), Some(&"Français".to_string()));
    assert_eq!(codes.get_or_self(&"fr".to_string()), "Français");
    assert_eq!(codes.get_or_self(&"zz".to_string()), "zz");
    assert_eq!(codes.get(&"zz".to_string()), None);
}

#[test]
fn cleaning_drops_invalid_code_pairs() {
    let mut c = get_default();
    c.codes.insert("ok".to_string(), "kept".to_string());
    c.codes.insert("bad.key".to_string(), "x".to_string());
    c.codes.insert("".to_string(), "x".to_string());
    c.codes.insert("slash".to_string(), "a/b".to_string());
    c.codes.insert("dot".to_string(), ".".to_string());
    c.codes.insert("dotdot".to_string(), "..".to_string());
    c.codes.insert("empty".to_string(), "".to_string());
    let fatal = c.clean(true, "/dest".to_string(), vec!["/w".to_string()], true);
    assert!(!fatal);
    assert_eq!(c.codes.len(), 1);
    assert_eq!(c.codes.get_or_self(&"ok".to_string()), "kept");
    assert_eq!(c.dest, "/dest");
    assert_eq!(c.dirs, vec!["/w".to_string()]);
}

#[test]
fn cleaning_verdicts() {
    // No valid code pair left: fatal whatever else holds.
    let mut c = get_default();
    c.dirs = vec!["/w".to_string()];
    assert!(c.clean(true, "/dest".to_string(), vec!["/w".to_string()], true));

    // Identical delimiters: fatal.
    let mut c = get_default();
    c.codes.insert("a".to_string(), "b".to_string());
    c.begin_var = '|';
    c.end_var = '|';
    assert!(c.clean(true, "/dest".to_string(), vec!["/w".to_string()], true));

    // A missing destination is fatal only for a mutating pass.
    let mut c = get_default();
    c.codes.insert("a".to_string(), "b".to_string());
    assert!(c.clean(false, "/dest".to_string(), vec!["/w".to_string()], true));
    let mut c = get_default();
    c.codes.insert("a".to_string(), "b".to_string());
    assert!(!c.clean(false, "/dest".to_string(), vec!["/w".to_string()], false));

    // No watch directory left: fatal only for a mutating pass.
    let mut c = get_default();
    c.codes.insert("a".to_string(), "b".to_string());
    assert!(c.clean(true, "/dest".to_string(), vec![], true));
}

#[test]
fn merging_prefers_declared_then_file_then_default() {
    let mut c = get_default();
    c.sleep = 50;
    c.codes.insert("cli".to_string(), "kept".to_string());
    let mut declared: DeclaredType = [false; 12];
    declared[DECLARED_SLEEP] = true;
    declared[DECLARED_CODES] = true;
    let from_file = ConfigSerDe {
        separator: Some('-'),
        filename_separators: None,
        begin_var: None,
        end_var: None,
        once: Some(true),
        timeinfo: None,
        static_mode: None,
        sleep: Some(9),
        codes: Some(vec![("file".to_string(), "ignored".to_string())]),
        dest: Some("/from/file".to_string()),
        dirs: None,
    };
    c.merge_from_file(from_file, &declared);
    // Declared on the command line: kept.
    assert_eq!(c.sleep, 50);
    assert_eq!(c.codes.get_or_self(&"cli".to_string()), "kept");
    // Supplied by the file: taken.
    assert_eq!(c.separator, '-');
    assert_eq!(c.once, true);
    assert_eq!(c.dest, "/from/file");
    // Absent everywhere: back to the default.
    assert_eq!(c.filename_separators, 1);
    assert_eq!(c.begin_var, '{');
    assert!(c.dirs.is_empty());
}

#[test]
fn convert_types_unwraps_every_field() {
    let mut b = get_build_default();
    b.codes = Some(vec![
        ("a".to_string(), "one".to_string()),
        ("a".to_string(), "two".to_string()),
    ]);
    b.dest = Some("/d".to_string());
    b.dirs = Some(vec!["/w".to_string()]);
    let c = fcs::config::convert_types(b);
    assert_eq!(c.dest, "/d");
    assert_eq!(c.dirs, vec!["/w".to_string()]);
    // Later pairs win, as inserting into a map.
    assert_eq!(c.codes.get_or_self(&"a".to_string()), "two");
}

#[test]
fn watch_directories_form_a_set() {
    // A directory named twice on the command line is watched once.
    let mut b = get_build_default();
    b.dirs = Some(vec![
        "/w".to_string(),
        "/x".to_string(),
        "/w".to_string(),
    ]);
    let c = fcs::config::convert_types(b);
    assert_eq!(c.dirs, vec!["/w".to_string(), "/x".to_string()]);

    // So is one named twice by the configuration file.
    let mut c = get_default();
    let from_file = ConfigSerDe {
        separator: None,
        filename_separators: None,
        begin_var: None,
        end_var: None,
        once: None,
        timeinfo: None,
        static_mode: None,
        sleep: None,
        codes: None,
        dest: None,
        dirs: Some(vec!["/a".to_string(), "/a".to_string(), "/b".to_string()]),
    };
    let declared: DeclaredType = [false; 12];
    c.merge_from_file(from_file, &declared);
    assert_eq!(c.dirs, vec!["/a".to_string(), "/b".to_string()]);

    // And one reported twice to the cleaning pass.
    let mut c = get_default();
    c.codes.insert("a".to_string(), "b".to_string());
    let fatal = c.clean(
        true,
        "/dest".to_string(),
        vec!["/w".to_string(), "/w".to_string()],
        true,
    );
    assert!(!fatal);
    assert_eq!(c.dirs, vec!["/w".to_string()]);
}

#[test]
fn rendered_shortcuts_list_one_pair_per_line() {
    let list = vec![
        ("fr".to_string(), "French".to_string()),
        ("hst".to_string(), "History".to_string()),
    ];
    let codes = codes_from_list(&list);
    assert_eq!(codes.render(), "\tfr = French\n\thst = History\n");
    assert_eq!(Codes::new().render(), "");
}

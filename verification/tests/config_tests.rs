use std::io::Write;

use options::{
    config, maybe_config, ConfigReader, DictEdit, DictEditAction, ListEdit, ListEditAction,
    OptionId, Val,
};
use regex::Regex;
use tempfile::NamedTempFile;

fn oid(name: &str) -> OptionId {
    OptionId::new(vec![], vec![name.to_string()], None)
}

fn oid_scoped(scope: &str, name_parts: &[&str], short: Option<char>) -> OptionId {
    OptionId::new(
        vec![scope.to_string()],
        name_parts.iter().map(|p| p.to_string()).collect(),
        short,
    )
}

fn write_fromfile(suffix: &str, content: &str) -> NamedTempFile {
    let mut file = tempfile::Builder::new()
        .prefix("fromfile")
        .suffix(suffix)
        .tempfile()
        .unwrap();
    file.write_all(content.as_bytes()).unwrap();
    file.flush().unwrap();
    file
}

fn interp(template: &str, interpolations: Vec<(&'static str, &'static str)>) -> Result<String, String> {
    let table: Vec<(String, String)> = interpolations
        .iter()
        .map(|(k, v)| (k.to_string(), v.to_string()))
        .collect();
    options::interpolate_string(template.to_string(), &table)
}

fn strs(items: &[&str]) -> Vec<String> {
    items.iter().map(|s| s.to_string()).collect()
}

#[test]
fn test_display() {
    let conf = config("");
    assert_eq!("[GLOBAL] name".to_owned(), conf.display(&oid("name")));
    assert_eq!(
        "[scope] name".to_owned(),
        conf.display(&oid_scoped("scope", &["name"], None))
    );
    assert_eq!(
        "[scope] full_name".to_owned(),
        conf.display(&oid_scoped("scope", &["full", "name"], Some('f')))
    );
}

#[test]
fn test_interpolate_string() {
    let template = "%(greeting)s world, what's your %(thing)s?";
    let replacements = vec![("greeting", "Hello"), ("thing", "deal")];
    assert_eq!(
        "Hello world, what's your deal?",
        interp(template, replacements).unwrap()
    );

    let template = "abc %(d5f_g)s hij";
    let replacements = vec![("d5f_g", "defg"), ("unused", "xxx")];
    assert_eq!("abc defg hij", interp(template, replacements).unwrap());

    let template = "%(known)s %(unknown)s";
    let replacements = vec![("known", "aaa"), ("unused", "xxx")];
    let result = interp(template, replacements);
    assert!(result.is_err());
    assert_eq!(
        "Unknown value for placeholder `unknown`",
        result.unwrap_err()
    );

    let template = "%(greeting)s world, what's your %(thing)s?";
    let replacements = vec![
        ("greeting", "Hello"),
        ("thing", "real %(deal)s"),
        ("deal", "name"),
    ];
    assert_eq!(
        "Hello world, what's your real name?",
        interp(template, replacements).unwrap()
    );
}

#[test]
fn test_interpolate_config() {
    let conf = config(
        "[DEFAULT]\n\
     field1 = 'something'\n\
     color = 'black'\n\
     [foo]\n\
     field2 = '%(field1)s else'\n\
     field3 = 'entirely'\n\
     field4 = '%(field2)s %(field3)s %(seed2)s'\n\
     [groceries]\n\
     berryprefix = 'straw'\n\
     stringlist.add = ['apple', '%(berryprefix)sberry', 'banana']\n\
     stringlist.remove = ['%(color)sberry', 'pear']\n\
     inline_table = { fruit = '%(berryprefix)sberry', spice = '%(color)s pepper' }",
    );

    assert_eq!(
        "something else entirely seed2val",
        conf.get_string(&oid_scoped("foo", &["field4"], None))
            .unwrap()
            .unwrap()
    );

    assert_eq!(
        vec![
            ListEdit {
                action: ListEditAction::Add,
                items: strs(&["apple", "strawberry", "banana"]),
            },
            ListEdit {
                action: ListEditAction::Remove,
                items: strs(&["blackberry", "pear"]),
            }
        ],
        conf.get_string_list(&oid_scoped("groceries", &["stringlist"], None))
            .unwrap()
            .unwrap()
    );

    assert_eq!(
        vec![DictEdit {
            action: DictEditAction::Replace,
            items: vec![
                ("fruit".to_string(), Val::Str("strawberry".to_string())),
                ("spice".to_string(), Val::Str("black pepper".to_string())),
            ],
        }],
        conf.get_dict(&oid_scoped("groceries", &["inline_table"], None))
            .unwrap()
            .unwrap()
    );

    let bad_conf = maybe_config(
        "[DEFAULT]\n\
     field1 = 'something'\n\
     [foo]\n\
     bad_field = '%(unknown)s'\n",
    );
    let err_msg = bad_conf.err().unwrap();
    let pat =
        r"^Unknown value for placeholder `unknown` in config file .*, section foo, key bad_field$";
    assert!(
        Regex::new(pat).unwrap().is_match(&err_msg),
        "Error message:  {}\nDid not match: {}",
        &err_msg,
        pat
    );
}

fn do_scalar_test<T: PartialEq + std::fmt::Debug>(
    default_foo: &str,
    default_bar: &str,
    overridden_bar: &str,
    expected_foo: T,
    expected_bar: T,
    getter: fn(&ConfigReader, &OptionId) -> Result<Option<T>, String>,
) {
    let conf = config(&format!(
        "[DEFAULT]\nfoo = {default_foo}\nbar={default_bar}\n[scope]\nbar={overridden_bar}\n"
    ));
    let actual_foo = getter(&conf, &oid_scoped("scope", &["foo"], None))
        .unwrap()
        .unwrap();
    assert_eq!(expected_foo, actual_foo);

    let actual_bar = getter(&conf, &oid_scoped("scope", &["bar"], None))
        .unwrap()
        .unwrap();
    assert_eq!(expected_bar, actual_bar);
}

#[test]
fn test_default_section_scalar() {
    do_scalar_test("false", "false", "true", false, true, ConfigReader::get_bool);
    do_scalar_test("11", "22", "33", 11, 33, ConfigReader::get_int);
    do_scalar_test(
        "3.14",
        "1.23",
        "99.88",
        3.14f64.to_bits(),
        99.88f64.to_bits(),
        ConfigReader::get_float,
    );
    do_scalar_test(
        "11",
        "22",
        "33",
        11.0f64.to_bits(),
        33.0f64.to_bits(),
        ConfigReader::get_float,
    );
    do_scalar_test(
        "\"xx\"",
        "\"yy\"",
        "\"zz\"",
        "xx".to_string(),
        "zz".to_string(),
        ConfigReader::get_string,
    );
}

#[test]
fn test_default_section_list() {
    let conf = config("[DEFAULT]\nfoo = [11]\nbar=[22]\n[scope]\nbar=\"+[33]\"\n");
    assert_eq!(
        conf.get_int_list(&oid_scoped("scope", &["foo"], None))
            .unwrap()
            .unwrap(),
        vec![ListEdit::<i64> {
            action: ListEditAction::Replace,
            items: vec![11]
        }]
    );

    assert_eq!(
        conf.get_int_list(&oid_scoped("scope", &["bar"], None))
            .unwrap()
            .unwrap(),
        vec![
            ListEdit::<i64> {
                action: ListEditAction::Replace,
                items: vec![22]
            },
            ListEdit::<i64> {
                action: ListEditAction::Add,
                items: vec![33]
            }
        ]
    );
}

#[test]
fn test_default_section_dict() {
    let conf = config(
        "[DEFAULT]\n\
     bar = '{ \"x\": 2 }'\n\
     [foo]\n\
     baz = '{ \"a\": 3 }'",
    );

    let expected = vec![DictEdit {
        action: DictEditAction::Replace,
        items: vec![("x".to_string(), Val::Int(2))],
    }];

    assert_eq!(
        conf.get_dict(&oid_scoped("foo", &["bar"], None))
            .unwrap()
            .unwrap(),
        expected
    );

    let conf = config(
        "[DEFAULT]\n\
     bar = '{ \"x\": 2 }'\n\
     [foo]\n\
     bar = '+{ \"a\": 3 }'",
    );

    let expected = vec![
        DictEdit {
            action: DictEditAction::Replace,
            items: vec![("x".to_string(), Val::Int(2))],
        },
        DictEdit {
            action: DictEditAction::Add,
            items: vec![("a".to_string(), Val::Int(3))],
        },
    ];

    assert_eq!(
        conf.get_dict(&oid_scoped("foo", &["bar"], None))
            .unwrap()
            .unwrap(),
        expected
    );
}

fn do_fromfile_scalar_test<T: PartialEq + std::fmt::Debug>(
    content: &str,
    expected: T,
    getter: fn(&ConfigReader, &OptionId) -> Result<Option<T>, String>,
) {
    let file = write_fromfile(".txt", content);
    let conf = config(format!("[GLOBAL]\nfoo = '@{}'\n", file.path().display()).as_str());
    let actual = getter(&conf, &oid("foo")).unwrap().unwrap();
    assert_eq!(expected, actual);
}

#[test]
fn test_scalar_fromfile() {
    do_fromfile_scalar_test("true", true, ConfigReader::get_bool);
    do_fromfile_scalar_test("-42", -42, ConfigReader::get_int);
    do_fromfile_scalar_test("3.14", 3.14f64.to_bits(), ConfigReader::get_float);
    do_fromfile_scalar_test("EXPANDED", "EXPANDED".to_owned(), ConfigReader::get_string);
}

fn do_fromfile_list_test(content: &str, expected: &[ListEdit<i64>], suffix: &str) {
    let file = write_fromfile(suffix, content);
    let conf = config(format!("[GLOBAL]\nfoo = '@{}'\n", file.path().display()).as_str());
    let actual = conf.get_int_list(&oid("foo")).unwrap().unwrap();
    assert_eq!(expected.to_vec(), actual);
}

#[test]
fn test_list_fromfile() {
    do_fromfile_list_test(
        "-42",
        &[ListEdit {
            action: ListEditAction::Add,
            items: vec![-42],
        }],
        ".txt",
    );
    do_fromfile_list_test(
        "[10, 12]",
        &[ListEdit {
            action: ListEditAction::Replace,
            items: vec![10, 12],
        }],
        ".json",
    );
    do_fromfile_list_test(
        "- 22\n- 44\n",
        &[ListEdit {
            action: ListEditAction::Replace,
            items: vec![22, 44],
        }],
        ".yaml",
    );
}

fn expected_fromfile_dict() -> Vec<DictEdit> {
    vec![DictEdit {
        action: DictEditAction::Replace,
        items: vec![(
            "FOO".to_string(),
            Val::Dict(vec![
                ("BAR".to_string(), Val::Float(3.14f64.to_bits())),
                (
                    "BAZ".to_string(),
                    Val::Dict(vec![
                        (
                            "QUUX".to_string(),
                            Val::List(vec![Val::Int(1), Val::Int(2)]),
                        ),
                        ("QUX".to_string(), Val::Bool(true)),
                    ]),
                ),
            ]),
        )],
    }]
}

fn do_fromfile_dict_test(content: &str, suffix: &str) {
    let file = write_fromfile(suffix, content);
    let conf = config(format!("[GLOBAL]\nfoo = '@{}'\n", file.path().display()).as_str());
    let actual = conf.get_dict(&oid("foo")).unwrap().unwrap();
    assert_eq!(expected_fromfile_dict(), actual);
}

#[test]
fn test_dict_fromfile() {
    do_fromfile_dict_test(
        "{'FOO': {'BAR': 3.14, 'BAZ': {'QUX': True, 'QUUX': [1, 2]}}}",
        ".txt",
    );
    do_fromfile_dict_test(
        "{\"FOO\": {\"BAR\": 3.14, \"BAZ\": {\"QUX\": true, \"QUUX\": [1, 2]}}}",
        ".json",
    );
    do_fromfile_dict_test(
        "\nFOO:\n  BAR: 3.14\n  BAZ:\n    QUX: true\n    QUUX:\n      - 1\n      - 2\n",
        ".yaml",
    );
}

#[test]
fn test_nonexistent_required_fromfile() {
    let conf = config("[GLOBAL]\nfoo = '@/does/not/exist'\n");
    let err = conf.get_string(&oid("foo")).unwrap_err();
    assert!(
        err.starts_with("Problem reading /does/not/exist for [GLOBAL] foo: No such file or directory"),
        "unexpected message: {err}"
    );
}

#[test]
fn test_nonexistent_optional_fromfile() {
    let conf = config("[GLOBAL]\nfoo = '@?/does/not/exist'\n");
    assert!(conf.get_string(&oid("foo")).unwrap().is_none());
}

#[test]
fn test_invalid_keys() {
    let conf = config(
        "[DEFAULT]\n\
     field1 = 'something'\n\
     [foo]\n\
     field2 = 'bar'\n\
     [bar]\n\
     field3 = 42\n\
     stringlist.add = ['apple']\n\
     inline_table = { fruit = 'strawberry' }",
    );

    assert_eq!(
        vec![
            "Invalid table name [foo]".to_string(),
            "Invalid option 'field3' under [bar]".to_string(),
            "Invalid option 'stringlist' under [bar]".to_string(),
        ],
        conf.validate(&vec![("bar".to_string(), strs(&["inline_table"]))])
    );

    assert_eq!(
        vec![
            "Invalid table name [foo]".to_string(),
            "Invalid option 'field3' under [bar]".to_string(),
        ],
        conf.validate(&vec![(
            "bar".to_string(),
            strs(&["stringlist", "inline_table"])
        )])
    );

    assert_eq!(
        vec!["Invalid table name [foo]".to_string()],
        conf.validate(&vec![(
            "bar".to_string(),
            strs(&["field3", "stringlist", "inline_table"])
        )])
    );

    assert_eq!(
        vec!["Invalid option 'field3' under [bar]".to_string()],
        conf.validate(&vec![
            ("foo".to_string(), strs(&["field2"])),
            ("bar".to_string(), strs(&["stringlist", "inline_table"])),
        ])
    );

    let empty: Vec<String> = vec![];
    assert_eq!(
        empty,
        conf.validate(&vec![
            ("foo".to_string(), strs(&["field2"])),
            (
                "bar".to_string(),
                strs(&["field3", "stringlist", "inline_table"])
            ),
        ])
    );
}

#[test]
fn test_add_remove_order_fixed() {
    // the remove form written before the add form still yields add first
    let conf = config("[scope]\nthings.remove = [3]\nthings.add = [1, 2]\n");
    assert_eq!(
        conf.get_int_list(&oid_scoped("scope", &["things"], None))
            .unwrap()
            .unwrap(),
        vec![
            ListEdit {
                action: ListEditAction::Add,
                items: vec![1, 2]
            },
            ListEdit {
                action: ListEditAction::Remove,
                items: vec![3]
            },
        ]
    );
}

#[test]
fn test_interpolation_identity() {
    let table: Vec<(String, String)> = vec![("a".to_string(), "b".to_string())];
    let plain = "no placeholders here, just 100% text (s)";
    assert_eq!(
        plain,
        options::interpolate_string(plain.to_string(), &table).unwrap()
    );
}

#[test]
fn test_interpolation_cycle_fails() {
    let err = maybe_config("[DEFAULT]\na = '%(b)s'\nb = '%(a)s'\n").err().unwrap();
    assert!(
        err.contains("Too much placeholder recursion"),
        "unexpected message: {err}"
    );
}

#[test]
fn test_type_mismatch_errors() {
    let conf = config("[GLOBAL]\nflag = true\nnum = 7\nwords = ['a']\n");
    assert!(conf.get_int(&oid("flag")).is_err());
    assert!(conf.get_bool(&oid("num")).is_err());
    assert!(conf.get_string(&oid("words")).is_err());
    assert!(conf.get_int_list(&oid("flag")).is_err());
    assert!(conf.get_dict(&oid("num")).is_err());
}

#[test]
fn test_float_widening_edges() {
    let conf = config("[GLOBAL]\nbig = 9007199254740992\nneg = -9007199254740992\nzero = 0\n");
    assert_eq!(
        9007199254740992.0f64.to_bits(),
        conf.get_float(&oid("big")).unwrap().unwrap()
    );
    assert_eq!(
        (-9007199254740992.0f64).to_bits(),
        conf.get_float(&oid("neg")).unwrap().unwrap()
    );
    assert_eq!(0.0f64.to_bits(), conf.get_float(&oid("zero")).unwrap().unwrap());
}

#[test]
fn test_fallback_only_key_resolves_everywhere() {
    let conf = config("[DEFAULT]\nshared = 'everyone'\n[other]\nown = 'mine'\n");
    assert_eq!(
        "everyone",
        conf.get_string(&oid_scoped("other", &["shared"], None))
            .unwrap()
            .unwrap()
    );
    assert_eq!(
        "everyone",
        conf.get_string(&oid("shared")).unwrap().unwrap()
    );
    assert!(conf
        .get_string(&oid_scoped("other", &["missing"], None))
        .unwrap()
        .is_none());
}

#[test]
fn test_missing_key_is_not_an_error() {
    let conf = config("[GLOBAL]\nfoo = 1\n");
    assert!(conf.get_int(&oid("bar")).unwrap().is_none());
    assert!(conf.get_int_list(&oid("bar")).unwrap().is_none());
    assert!(conf.get_dict(&oid("bar")).unwrap().is_none());
}

#[test]
fn test_scalar_fromfile_structured() {
    let file = write_fromfile(".json", "true");
    let conf = config(format!("[GLOBAL]\nfoo = '@{}'\n", file.path().display()).as_str());
    assert_eq!(Some(true), conf.get_bool(&oid("foo")).unwrap());

    let file = write_fromfile(".json", "3.5");
    let conf = config(format!("[GLOBAL]\nfoo = '@{}'\n", file.path().display()).as_str());
    assert_eq!(Some(3.5f64.to_bits()), conf.get_float(&oid("foo")).unwrap());

    let file = write_fromfile(".yaml", "7");
    let conf = config(format!("[GLOBAL]\nfoo = '@{}'\n", file.path().display()).as_str());
    assert_eq!(Some(7), conf.get_int(&oid("foo")).unwrap());

    let file = write_fromfile(".json", "\"hi\"");
    let conf = config(format!("[GLOBAL]\nfoo = '@{}'\n", file.path().display()).as_str());
    assert_eq!(Some("hi".to_string()), conf.get_string(&oid("foo")).unwrap());
}

#[test]
fn test_fromfile_content_is_interpolated() {
    let file = write_fromfile(".txt", "hello %(seed1)s");
    let conf = config(format!("[GLOBAL]\nfoo = '@{}'\n", file.path().display()).as_str());
    assert_eq!(
        Some("hello seed1val".to_string()),
        conf.get_string(&oid("foo")).unwrap()
    );
}

#[test]
fn test_optional_fromfile_present() {
    let file = write_fromfile(".txt", "99");
    let conf = config(format!("[GLOBAL]\nfoo = '@?{}'\n", file.path().display()).as_str());
    assert_eq!(Some(99), conf.get_int(&oid("foo")).unwrap());
}

#[test]
fn test_validate_strips_literal_dotted_keys() {
    let conf = config("[bar]\n\"stringlist.add\" = ['apple']\n\"other.remove\" = [1]\n");
    let empty: Vec<String> = vec![];
    assert_eq!(
        empty,
        conf.validate(&vec![("bar".to_string(), strs(&["stringlist", "other"]))])
    );
    assert_eq!(
        vec!["Invalid option 'other' under [bar]".to_string()],
        conf.validate(&vec![("bar".to_string(), strs(&["stringlist"]))])
    );
}

use server_common::args::{
    arg_name, get_arg, get_arg_opt, get_arg_or, init_args, set_arg, set_args,
};
use server_common::environment::{settable, Environment};

fn env(vars: &[(&str, &str)]) -> Environment {
    let mut env = Environment::new(false);
    for (name, value) in vars {
        env.put(name.to_string(), value.to_string());
    }
    env
}

fn line(args: &[(&str, &[&str])]) -> Vec<(String, Vec<String>)> {
    args.iter()
        .map(|(name, values)| {
            (name.to_string(), values.iter().map(|value| value.to_string()).collect())
        })
        .collect()
}

#[test]
fn argument_names_ignore_case_and_separator() {
    let aliases = [
        "RUSTDESK-CONFIG-ALIAS-TEST",
        "RUSTDESK_CONFIG_ALIAS_TEST",
        "rustdesk-config-alias-test",
        "rustdesk_config_alias_test",
        "RustDesk_Config-Alias_Test",
    ];
    for alias in aliases {
        let set = env(&[(alias, alias)]);
        assert_eq!(get_arg(&set, "RUSTDESK_CONFIG_ALIAS_TEST"), alias);
    }
    let mut set = Environment::new(false);
    set_arg(&mut set, "rustdesk_config_alias_test", "normalized");
    assert_eq!(set.get("RUSTDESK-CONFIG-ALIAS-TEST").unwrap(), "normalized");
    set.put("RUSTDESK_CONFIG_ALIAS_TEST".to_string(), "inherited".to_string());
    set_arg(&mut set, "rustdesk-config-alias-test", "higher-priority");
    assert_eq!(get_arg(&set, "rustdesk_config_alias_test"), "higher-priority");
}

#[test]
fn argument_is_kept_in_upper_case_with_dashes() {
    assert_eq!(arg_name("rendezvous_servers"), "RENDEZVOUS-SERVERS");
    assert_eq!(arg_name("Key-9_x"), "KEY-9-X");
    assert_eq!(arg_name(""), "");
    assert_eq!(arg_name("stra\u{df}e_\u{e9}"), "STRASSE-\u{c9}");
}

#[test]
fn aliases_have_an_order() {
    let all = [
        ("a_B", "mixed"),
        ("A_b", "first mixed"),
        ("a_b", "lower underscored"),
        ("a-b", "lower dashed"),
        ("A_B", "underscored"),
        ("A-B", "dashed"),
    ];
    assert_eq!(get_arg_opt(&env(&all[..0]), "a-b"), None);
    assert_eq!(get_arg_opt(&env(&all[..1]), "a-b").unwrap(), "mixed");
    assert_eq!(get_arg_opt(&env(&all[..2]), "a-b").unwrap(), "first mixed");
    assert_eq!(get_arg_opt(&env(&all[..3]), "a-b").unwrap(), "lower underscored");
    assert_eq!(get_arg_opt(&env(&all[..4]), "a-b").unwrap(), "lower dashed");
    assert_eq!(get_arg_opt(&env(&all[..5]), "a-b").unwrap(), "underscored");
    assert_eq!(get_arg_opt(&env(&all), "a-b").unwrap(), "dashed");
}

#[test]
fn lower_case_is_that_of_unicode() {
    let set = env(&[("\u{e9}-x", "one"), ("\u{c9}-x", "two")]);
    // The lower case of the name comes before the mixed one, which stands first in order.
    assert_eq!(get_arg(&set, "\u{c9}_X"), "one");
}

#[test]
fn missing_argument_has_its_default() {
    let set = env(&[("PORT", "")]);
    assert_eq!(get_arg(&set, "key"), "");
    assert_eq!(get_arg_or(&set, "key", "none".to_string()), "none");
    assert_eq!(get_arg_or(&set, "port", "21116".to_string()), "");
}

#[test]
fn setting_an_argument_leaves_others() {
    let mut set = env(&[("key_file", "a"), ("KEY", "b")]);
    set_arg(&mut set, "key-fil", "c");
    assert_eq!(get_arg(&set, "KEY-FILE"), "a");
    assert_eq!(get_arg(&set, "key"), "b");
    assert_eq!(get_arg(&set, "key_fil"), "c");
    assert_eq!(set.len(), 3);
}

#[test]
fn command_line_goes_before_files() {
    let mut set = env(&[("A", "environment"), ("B", "environment"), ("C", "environment"), ("D", "environment")]);
    let outcome = init_args(
        &mut set,
        Some("a=dotenv\nb=dotenv\nc = dotenv\n[section]\nd=dotenv\n"),
        Some("b=config\nc=config\n; note\nnew_one=\"x y\""),
        &line(&[("c", &["first", "second"]), ("d", &[]), ("config", &["file.ini"])]),
    );
    assert!(outcome.is_ok());
    assert_eq!(get_arg(&set, "a"), "dotenv");
    assert_eq!(get_arg(&set, "b"), "config");
    assert_eq!(get_arg(&set, "c"), "first");
    assert_eq!(get_arg(&set, "d"), "environment");
    assert_eq!(get_arg(&set, "new-one"), "x y");
    assert_eq!(set.get("NEW-ONE").unwrap(), "x y");
    assert_eq!(get_arg(&set, "config"), "file.ini");
}

#[test]
fn last_of_several_settings_counts() {
    let mut set = Environment::new(false);
    let pairs = vec![
        ("a_b".to_string(), "1".to_string()),
        ("A-B".to_string(), "2".to_string()),
        ("c".to_string(), "3".to_string()),
    ];
    assert!(set_args(&mut set, &pairs).is_ok());
    assert_eq!(get_arg(&set, "a-b"), "2");
    assert_eq!(set.len(), 2);
}

#[test]
fn unreadable_files_give_no_arguments() {
    let mut set = Environment::new(false);
    assert!(init_args(&mut set, None, Some("a=1\n[broken"), &line(&[("x", &["y"])])).is_ok());
    assert_eq!(set.len(), 1);
    assert_eq!(get_arg(&set, "X"), "y");
}

#[test]
fn mark_at_the_beginning_of_a_file_is_no_text() {
    let mut set = Environment::new(false);
    assert!(init_args(&mut set, Some("\u{feff}relay=host\n"), None, &line(&[])).is_ok());
    assert_eq!(set.get("RELAY").unwrap(), "host");
}

#[test]
fn repeated_names_in_a_file_keep_their_order() {
    let mut set = Environment::new(false);
    assert!(init_args(&mut set, Some("a=1\nA=2\n"), None, &line(&[])).is_ok());
    assert_eq!(get_arg(&set, "a"), "2");
}

#[test]
fn argument_that_no_variable_can_keep_is_an_error() {
    for (name, value) in [("", "v"), ("a=b", "v"), ("a\0", "v"), ("a", "v\0")] {
        assert!(!settable(name, value));
        let mut set = Environment::new(false);
        let given = line(&[("before", &["1"]), (name, &[value]), ("after", &["2"])]);
        match init_args(&mut set, None, None, &given) {
            Err(error) => {
                assert_eq!(error.name, name);
                assert_eq!(error.value, value);
            }
            Ok(()) => panic!("it cannot be kept"),
        }
        assert_eq!(get_arg(&set, "before"), "1");
        assert_eq!(get_arg_opt(&set, "after"), None);
    }
    assert!(settable("a", ""));
}

#[test]
fn variables_are_counted_and_replaced() {
    let mut set = env(&[("a", "1"), ("b", "2"), ("a", "3")]);
    assert_eq!(set.len(), 2);
    assert_eq!(set.get("a").unwrap(), "3");
    assert_eq!(set.get("A"), None);
    let mut seen: Vec<(String, String)> = Vec::new();
    for i in 0..set.len() {
        let (name, value) = set.var(i);
        seen.push((name.clone(), value.clone()));
    }
    seen.sort();
    assert_eq!(seen, vec![("a".to_string(), "3".to_string()), ("b".to_string(), "2".to_string())]);
    set.put("c".to_string(), "4".to_string());
    assert_eq!(set.len(), 3);
}

#[test]
fn case_of_names_may_not_matter() {
    let vars = [("Foo-Bar", "dashed"), ("FOO_BAR", "underscored")];
    let mut env = Environment::new(true);
    for (name, value) in vars {
        env.put(name.to_string(), value.to_string());
    }
    assert_eq!(get_arg(&env, "foo_bar"), "dashed");
    assert_eq!(env.get("fOO-bAR").unwrap(), "dashed");
    assert_eq!(env.len(), 2);
    set_arg(&mut env, "foo-bar", "set");
    assert_eq!(env.len(), 2);
    assert_eq!(get_arg(&env, "Foo_Bar"), "set");
    let mut exact = Environment::new(false);
    for (name, value) in vars {
        exact.put(name.to_string(), value.to_string());
    }
    assert_eq!(get_arg(&exact, "foo_bar"), "underscored");
    // Among other spellings the order is that of the names as they are written.
    let mut mixed = Environment::new(true);
    mixed.put("a-B_C".to_string(), "small".to_string());
    mixed.put("A_B-C".to_string(), "capital".to_string());
    assert_eq!(get_arg(&mixed, "a-b-c"), "capital");
}

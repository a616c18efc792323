use cdn_sync::args::{arg_bool, arg_remove, arg_remove_value, arg_value};

fn line(words: &[&str]) -> Vec<String> {
    words.iter().map(|w| w.to_string()).collect()
}

#[test]
fn value_follows_the_flag() {
    let args = line(&["launcher", "--path", "/games/iw4", "--force"]);
    assert_eq!(arg_value(&args, "--path"), Some("/games/iw4".to_string()));
    assert_eq!(arg_value(&args, "launcher"), Some("--path".to_string()));
}

#[test]
fn flag_without_value_or_absent_gives_none() {
    let args = line(&["launcher", "--path"]);
    assert_eq!(arg_value(&args, "--path"), None);
    assert_eq!(arg_value(&args, "-p"), None);
    assert_eq!(arg_value(&[], "-p"), None);
}

#[test]
fn value_is_taken_at_the_first_occurrence() {
    let args = line(&["-p", "one", "-p", "two"]);
    assert_eq!(arg_value(&args, "-p"), Some("one".to_string()));
    let args = line(&["x", "-p"]);
    assert_eq!(arg_value(&args, "x"), Some("-p".to_string()));
}

#[test]
fn bool_flag_is_found_anywhere() {
    let args = line(&["launcher", "--update", "iw4x"]);
    assert!(arg_bool(&args, "--update"));
    assert!(arg_bool(&args, "iw4x"));
    assert!(!arg_bool(&args, "--upd"));
    assert!(!arg_bool(&args, "--update "));
    assert!(!arg_bool(&[], "--update"));
}

#[test]
fn remove_takes_out_the_first_occurrence_only() {
    let mut args = line(&["a", "-f", "b", "-f"]);
    arg_remove(&mut args, "-f");
    assert_eq!(args, line(&["a", "b", "-f"]));
    arg_remove(&mut args, "-f");
    assert_eq!(args, line(&["a", "b"]));
    arg_remove(&mut args, "-f");
    assert_eq!(args, line(&["a", "b"]));
}

#[test]
fn remove_value_takes_out_flag_and_value() {
    let mut args = line(&["launcher", "--pass", "-headless", "iw6"]);
    arg_remove_value(&mut args, "--pass");
    assert_eq!(args, line(&["launcher", "iw6"]));
    arg_remove_value(&mut args, "--pass");
    assert_eq!(args, line(&["launcher", "iw6"]));
}

#[test]
fn remove_value_at_the_end_of_the_line() {
    let mut args = line(&["--cdn-url", "http://localhost"]);
    arg_remove_value(&mut args, "--cdn-url");
    assert!(args.is_empty());
}

use emma::command_line::{command_words, program_and_args};

#[test]
fn command_words_split_program_and_args() {
    let (program, args) = command_words("ls -l 'a b' \"c\\\"d\"").unwrap();
    assert_eq!(program, "ls");
    assert_eq!(args, vec!["-l".to_string(), "a b".to_string(), "c\"d".to_string()]);
}

#[test]
fn command_words_of_empty_line() {
    let (program, args) = command_words("   ").unwrap();
    assert_eq!(program, "");
    assert!(args.is_empty());
}

#[test]
fn command_words_refuse_unbalanced_quotes() {
    assert!(command_words("echo 'oops").is_none());
}

#[test]
fn program_and_args_take_the_first_word() {
    let (program, args) = program_and_args(vec!["a".to_string(), "b".to_string(), "c".to_string()]);
    assert_eq!(program, "a");
    assert_eq!(args, vec!["b".to_string(), "c".to_string()]);
    let (program, args) = program_and_args(Vec::new());
    assert_eq!(program, "");
    assert!(args.is_empty());
}

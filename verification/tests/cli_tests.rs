use foxash::cli::{parse_arguments, Command};

fn arguments(words: &[&str]) -> Vec<String> {
    words.iter().map(|w| w.to_string()).collect()
}

#[test]
fn help_and_version_spellings() {
    for word in ["help", "--help", "-h"] {
        assert_eq!(parse_arguments(&arguments(&[word])), Ok(Command::Help));
    }
    for word in ["version", "--version", "-V"] {
        assert_eq!(parse_arguments(&arguments(&[word])), Ok(Command::Version));
    }
}

#[test]
fn run_and_check_take_a_file() {
    assert_eq!(
        parse_arguments(&arguments(&["run", "game.foxash"])),
        Ok(Command::Run("game.foxash".to_string()))
    );
    assert_eq!(
        parse_arguments(&arguments(&["check", "notes.txt"])),
        Ok(Command::Check("notes.txt".to_string()))
    );
}

#[test]
fn a_bare_foxash_file_is_run() {
    assert_eq!(
        parse_arguments(&arguments(&["hello.foxash"])),
        Ok(Command::Run("hello.foxash".to_string()))
    );
}

#[test]
fn missing_command() {
    assert_eq!(parse_arguments(&[]), Err("missing command".to_string()));
}

#[test]
fn anything_else_gets_the_usage() {
    let usage = Err("usage: foxash run <file.foxash> | foxash check <file.foxash>".to_string());
    assert_eq!(parse_arguments(&arguments(&["hello.txt"])), usage);
    assert_eq!(parse_arguments(&arguments(&["run"])), usage);
    assert_eq!(parse_arguments(&arguments(&["help", "me"])), usage);
    assert_eq!(parse_arguments(&arguments(&["run", "a", "b"])), usage);
    assert_eq!(parse_arguments(&arguments(&["foxash"])), usage);
}

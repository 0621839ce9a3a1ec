use agentd::policy::CommandPrefix;
use agentd::shell::{is_admitted, is_allowed, prefixes_of, reads_plainly, tokens_of};

fn list(prefixes: &[&str]) -> Vec<CommandPrefix> {
    prefixes.iter().map(|prefix| CommandPrefix::new(prefix)).collect()
}

fn words(words: &[&str]) -> Option<Vec<String>> {
    Some(words.iter().map(|word| String::from(*word)).collect())
}

#[test]
fn a_command_starts_with_exactly_the_tokens_of_a_prefix() {
    let allow = list(&["cargo test", "ls"]);
    for command in ["cargo test", "cargo  test --workspace", "ls", "ls -l *.rs", "'ls' ~", "l\\s"] {
        assert!(is_allowed(command, &allow), "{command}");
    }
    for command in ["cargo", "cargo tests", "cargo build", "lsof", "test cargo", "", " ", "# ls"] {
        assert!(!is_allowed(command, &allow), "{command}");
    }
    assert!(is_allowed("'my tool' run", &list(&["my\\ tool"])));
    assert!(!is_allowed("my tool run", &list(&["my\\ tool"])));
}

#[test]
fn shell_syntax_is_refused_unless_it_is_quoted() {
    let allow = list(&["echo"]);
    for command in [
        "echo $(rm -rf /)",
        "echo `id`",
        "echo $HOME",
        "echo \"$HOME\"",
        "echo \"`id`\"",
        "echo ok; curl example.com",
        "echo ok && ls",
        "echo ok | sh",
        "echo ok > file",
        "echo < file",
        "echo (a)",
        "echo ok\ncurl example.com",
        "echo 'open",
        "echo \"open",
        "echo \\",
    ] {
        assert!(!is_allowed(command, &allow), "{command}");
        assert_eq!(tokens_of(command), None, "{command}");
    }
    for command in [
        "echo '$(x); | > `'",
        "echo \"; | > ( )\"",
        "echo \"\\$x \\`\"",
        "echo \\; \\$x",
        "echo 'a'\"b\"c",
    ] {
        assert!(reads_plainly(command), "{command}");
        assert!(is_allowed(command, &allow), "{command}");
    }
    assert_eq!(tokens_of("echo '; x' \\$y"), words(&["echo", "; x", "$y"]));
}

#[test]
fn an_empty_list_admits_nothing() {
    assert!(!is_allowed("ls", &[]));
    assert!(!is_admitted(&Vec::new(), &words(&["ls"])));
    assert!(!is_admitted(&Vec::new(), &words(&[])));
}

#[test]
fn the_tokens_decide() {
    let prefixes = prefixes_of(&list(&["git status", "'open", "ls"]));
    assert_eq!(prefixes, [words(&["git", "status"]), None, words(&["ls"])]);
    assert!(is_admitted(&prefixes, &words(&["git", "status", "-s"])));
    assert!(is_admitted(&prefixes, &words(&["ls"])));
    assert!(!is_admitted(&prefixes, &words(&["git"])));
    assert!(!is_admitted(&prefixes, &words(&["git", "push"])));
    assert!(!is_admitted(&prefixes, &None));

    // No tokens begin every command that can be read.
    assert!(is_admitted(&vec![words(&[])], &words(&["ls"])));
    assert!(!is_admitted(&vec![words(&[])], &None));
}

use arcnet::cli::{CliAction, cli_step, parse_amount, split_words};

fn names() -> Vec<String> {
    vec!["Niko".to_string(), "James".to_string(), "Niko".to_string()]
}

#[test]
fn lines_without_words_ask_again() {
    assert_eq!(cli_step("", &names()), CliAction::Nothing);
    assert_eq!(cli_step(" \t\r\n ", &names()), CliAction::Nothing);
}

#[test]
fn simple_commands_are_recognised() {
    assert_eq!(cli_step("balance", &names()), CliAction::Balance);
    assert_eq!(cli_step("  balance  \n", &names()), CliAction::Balance);
    assert_eq!(cli_step("exit", &names()), CliAction::Exit);
    assert_eq!(cli_step("help", &names()), CliAction::Unknown);
    assert_eq!(cli_step("Balance", &names()), CliAction::Unknown);
    assert_eq!(cli_step("balance extra words", &names()), CliAction::Balance);
}

#[test]
fn send_needs_a_contact_and_an_amount() {
    assert_eq!(cli_step("send", &names()), CliAction::Usage);
    assert_eq!(cli_step("send Niko", &names()), CliAction::Usage);
    assert_eq!(cli_step("send Niko 5 more", &names()), CliAction::Usage);
}

#[test]
fn send_reads_the_amount_before_the_contact() {
    assert_eq!(cli_step("send Niko abc", &names()), CliAction::BadAmount);
    assert_eq!(cli_step("send Nobody abc", &names()), CliAction::BadAmount);
    assert_eq!(cli_step("send Niko -5", &names()), CliAction::BadAmount);
    assert_eq!(cli_step("send Niko 18446744073709551616", &names()), CliAction::BadAmount);
    assert_eq!(cli_step("send Nobody 5", &names()), CliAction::UnknownContact);
}

#[test]
fn send_pays_the_first_contact_with_the_name() {
    assert_eq!(cli_step("send James 7", &names()), CliAction::Send { contact: 1, amount: 7 });
    assert_eq!(cli_step("send Niko 18446744073709551615", &names()), CliAction::Send { contact: 0, amount: u64::MAX });
    assert_eq!(cli_step("send\tNiko\u{3000}+42\n", &names()), CliAction::Send { contact: 0, amount: 42 });
    assert_eq!(cli_step("send James 7", &vec![]), CliAction::UnknownContact);
}

#[test]
fn words_split_as_split_whitespace_does() {
    for line in ["", "a", "  a  b ", "send\u{a0}Niko\u{2003}5", "x\u{85}y\u{2028}z\u{3000}", "é ü\tß", "\u{200b}a b"] {
        let ws = split_words(line);
        let expected: Vec<String> = line.split_whitespace().map(|w| w.to_string()).collect();
        assert_eq!(ws, expected);
    }
}

#[test]
fn amounts_parse_as_str_parse_does() {
    for w in ["0", "7", "+7", "+", "-1", "", "007", "12a", "18446744073709551615", "18446744073709551616", "99999999999999999999", "１"] {
        assert_eq!(parse_amount(w), w.parse::<u64>().ok(), "{}", w);
    }
}

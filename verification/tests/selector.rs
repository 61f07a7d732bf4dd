use branch::selector::{
    apply_fzf_options, env_selection, fzf_input_lines, fzf_selection, parse_fzf_layout,
    should_reverse_input_for_fzf, tokenize_fzf_options, FzfConfig, FzfLayout,
};

#[test]
fn default_layout_reverses_input_for_fzf() {
    let mut config = FzfConfig {
        layout: FzfLayout::Default,
        tac: false,
    };
    apply_fzf_options(&mut config, "");
    assert!(matches!(config.layout, FzfLayout::Default));
    assert!(matches!(config.layout, FzfLayout::Default) ^ config.tac);
}

#[test]
fn reverse_layout_keeps_input_order_for_fzf() {
    let mut config = FzfConfig {
        layout: FzfLayout::Default,
        tac: false,
    };
    apply_fzf_options(&mut config, "--layout=reverse");
    assert!(!matches!(config.layout, FzfLayout::Default) ^ config.tac);
}

#[test]
fn reverse_list_layout_keeps_input_order_for_fzf() {
    let mut config = FzfConfig {
        layout: FzfLayout::Default,
        tac: false,
    };
    apply_fzf_options(&mut config, "--layout reverse-list");
    assert!(!matches!(config.layout, FzfLayout::Default) ^ config.tac);
}

#[test]
fn tac_flips_the_reversal_rule_for_fzf() {
    let mut config = FzfConfig {
        layout: FzfLayout::Default,
        tac: false,
    };
    apply_fzf_options(&mut config, "--tac");
    assert!(!matches!(config.layout, FzfLayout::Default) ^ config.tac);

    let mut reverse_config = FzfConfig {
        layout: FzfLayout::Default,
        tac: false,
    };
    apply_fzf_options(&mut reverse_config, "--layout=reverse --tac");
    assert!(!matches!(reverse_config.layout, FzfLayout::Default));
    assert!(reverse_config.tac);
    assert!(matches!(reverse_config.layout, FzfLayout::Default) ^ reverse_config.tac);
}

#[test]
fn tokenize_fzf_options_skips_comment_lines() {
    let tokens =
        tokenize_fzf_options("# comment\n--layout=reverse-list\n--color=bg:#112233 --tac");
    assert_eq!(
        tokens,
        vec!["--layout=reverse-list", "--color=bg:#112233", "--tac"]
    );
}

#[test]
fn opts_file_is_applied_before_env_opts() {
    assert!(!should_reverse_input_for_fzf(Some("--layout=default\n"), Some("--layout=reverse")));
}

#[test]
fn opts_file_contents_are_applied_before_env_opts() {
    assert!(should_reverse_input_for_fzf(Some("--layout=reverse\n"), Some("--layout=default")));
    assert!(should_reverse_input_for_fzf(None, None));
    assert!(!should_reverse_input_for_fzf(None, Some("--tac")));
}

#[test]
fn tokenizer_handles_quotes_and_escapes() {
    assert_eq!(
        tokenize_fzf_options("--prompt='a b' \"c 'd'\" e\\ f"),
        vec!["--prompt=a b", "c 'd'", "e f"]
    );
    assert_eq!(tokenize_fzf_options("  # only a comment\n\n"), Vec::<String>::new());
    assert_eq!(tokenize_fzf_options("a\r\nb"), vec!["a", "b"]);
    assert_eq!(tokenize_fzf_options("'unclosed quote"), vec!["unclosed quote"]);
}

#[test]
fn layout_values() {
    assert_eq!(parse_fzf_layout("default"), Some(FzfLayout::Default));
    assert_eq!(parse_fzf_layout("reverse"), Some(FzfLayout::Reverse));
    assert_eq!(parse_fzf_layout("reverse-list"), Some(FzfLayout::ReverseList));
    assert_eq!(parse_fzf_layout("Reverse"), None);
}

#[test]
fn layout_flag_without_valid_value_is_ignored() {
    let mut config = FzfConfig { layout: FzfLayout::Reverse, tac: true };
    apply_fzf_options(&mut config, "--layout bogus --no-tac");
    assert_eq!(config, FzfConfig { layout: FzfLayout::Reverse, tac: false });
    apply_fzf_options(&mut config, "--layout=default --reverse");
    assert_eq!(config.layout, FzfLayout::Reverse);
}

#[test]
fn fzf_lines_are_indexed_and_reversible() {
    let items = vec!["a".to_string(), "b".to_string(), "c".to_string()];
    assert_eq!(fzf_input_lines(&items, false), vec!["0\ta", "1\tb", "2\tc"]);
    assert_eq!(fzf_input_lines(&items, true), vec!["2\tc", "1\tb", "0\ta"]);
}

#[test]
fn fzf_answer_is_read_back() {
    assert_eq!(fzf_selection(true, "12\t  feature\n").unwrap(), Some(12));
    assert_eq!(fzf_selection(false, "").unwrap(), None);
    assert_eq!(
        fzf_selection(true, "  oops\n").unwrap_err(),
        "Failed to parse fzf output index from: oops"
    );
    assert_eq!(fzf_selection(true, "+3\tx").unwrap(), Some(3));
}

#[test]
fn select_returns_first_item_index_when_env_set_to_1() {
    let items = vec!["main".to_string()];
    let result = env_selection("1", items.len());
    assert_eq!(result, Some(0));
}

#[test]
fn select_returns_correct_index_for_second_item() {
    let items = vec!["a".to_string(), "b".to_string(), "c".to_string()];
    assert_eq!(env_selection("2", items.len()), Some(1));
}

#[test]
fn select_returns_none_when_env_index_out_of_range() {
    let items = vec!["a".to_string(), "b".to_string()];
    assert_eq!(env_selection("5", items.len()), None);
}

#[test]
fn env_selection_is_one_based() {
    assert_eq!(env_selection("1", 1), Some(0));
    assert_eq!(env_selection("2", 3), Some(1));
    assert_eq!(env_selection("5", 2), None);
    assert_eq!(env_selection("0", 2), None);
    assert_eq!(env_selection("x", 2), None);
}

#[test]
fn plain_options_split_like_split_whitespace() {
    let text = "--layout=reverse  --tac\n\t--height 40%\r\n\n--no-tac ";
    let expected: Vec<String> = text.split_whitespace().map(String::from).collect();
    assert_eq!(tokenize_fzf_options(text), expected);
}

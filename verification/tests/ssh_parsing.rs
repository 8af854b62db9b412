use podium::ssh_config::parse_ssh_config_hosts;
use podium::ssh_hosts::parse_ssh_hosts;

fn strings(items: &[&str]) -> Vec<String> {
    items.iter().map(|s| s.to_string()).collect()
}

// ---------------------------------------------------------------------------
// parse_ssh_hosts
// ---------------------------------------------------------------------------

#[test]
fn ssh_hosts_keeps_plain_aliases_only() {
    let config = "Host work-box\n  HostName 10.0.0.5\nHost github.com\n  IdentityFile ~/.ssh/id_default\nHost *.example.com !bad a?b\n";
    assert_eq!(parse_ssh_hosts(config), strings(&["work-box"]));
}

#[test]
fn ssh_hosts_drops_block_with_provider_hostname() {
    let config = "Host github-personal\n  HostName github.com\n  IdentityFile ~/.ssh/id_personal\n\nHost mybox\n  HostName GITLAB.COM\nHost other\n";
    assert_eq!(parse_ssh_hosts(config), strings(&["other"]));
}

#[test]
fn ssh_hosts_provider_hostname_rule_on_identity_blocks() {
    let config = "Host github-personal\n  HostName github.com\n  IdentityFile ~/.ssh/id_personal\n\nHost github-work\n  HostName github.com\n  IdentityFile ~/.ssh/id_work\n\nHost github.com\n  IdentityFile ~/.ssh/id_default\n";
    assert_eq!(parse_ssh_hosts(config), Vec::<String>::new());
}

#[test]
fn ssh_hosts_equals_syntax() {
    let config = "Host=alpha beta\nHostName = example.org\n";
    assert_eq!(parse_ssh_hosts(config), strings(&["alpha", "beta"]));
}

#[test]
fn ssh_hosts_equals_after_value_is_not_a_host_line() {
    let config = "Host foo=bar\nHost baz\n";
    assert_eq!(parse_ssh_hosts(config), strings(&["baz"]));
}

#[test]
fn ssh_hosts_keywords_ignore_case_and_sort_by_bytes() {
    let config = "host Zeta\nHOST alpha\n";
    assert_eq!(parse_ssh_hosts(config), strings(&["Zeta", "alpha"]));
}

#[test]
fn ssh_hosts_skips_comments_and_blank_lines() {
    let config = "  # Host hidden\n\n\tHost b a\n";
    assert_eq!(parse_ssh_hosts(config), strings(&["a", "b"]));
}

#[test]
fn ssh_hosts_strips_trailing_backslashes() {
    let config = "Host one\\ two\\ \\\n";
    assert_eq!(parse_ssh_hosts(config), strings(&["one", "two"]));
}

#[test]
fn ssh_hosts_no_duplicates() {
    let config = "Host a\nHost a b\n";
    assert_eq!(parse_ssh_hosts(config), strings(&["a", "b"]));
}

#[test]
fn ssh_hosts_empty_config() {
    assert_eq!(parse_ssh_hosts(""), Vec::<String>::new());
}

#[test]
fn ssh_hosts_host_without_value() {
    let config = "Host\nHost=\nHost x\n";
    assert_eq!(parse_ssh_hosts(config), strings(&["x"]));
}

#[test]
fn ssh_hosts_bare_host_line_is_skipped() {
    let config = "Host a\nHost\nHostName github.com\nHost b\nHost   \nHost=\n";
    assert_eq!(parse_ssh_hosts(config), strings(&["b"]));
}

#[test]
fn ssh_hosts_hostname_before_any_host() {
    let config = "HostName github.com\nHost x\n";
    assert_eq!(parse_ssh_hosts(config), strings(&["x"]));
}

#[test]
fn ssh_hosts_alias_that_is_a_provider_in_other_case() {
    let config = "Host GitHub.com mine\n";
    assert_eq!(parse_ssh_hosts(config), strings(&["mine"]));
}

#[test]
fn ssh_hosts_hostname_first_token_decides() {
    let config = "Host a\nHostName github.com extra\nHost b\nHostName extra github.com\n";
    assert_eq!(parse_ssh_hosts(config), strings(&["b"]));
}

#[test]
fn ssh_hosts_crlf_lines() {
    let config = "Host one\r\nHostName 1.2.3.4\r\nHost two\r\n";
    assert_eq!(parse_ssh_hosts(config), strings(&["one", "two"]));
}

// ---------------------------------------------------------------------------
// parse_ssh_config_hosts
// ---------------------------------------------------------------------------

#[test]
fn ssh_config_identity_aliases() {
    let config = "Host github-personal\n  HostName github.com\n  IdentityFile ~/.ssh/id_personal\n\nHost github-work\n  HostName github.com\n  IdentityFile ~/.ssh/id_work\n";
    assert_eq!(parse_ssh_config_hosts(config), strings(&["github-personal", "github-work"]));
}

#[test]
fn ssh_config_line_continuation() {
    let config = "Host a \\\n  b c\nHost d\n";
    assert_eq!(parse_ssh_config_hosts(config), strings(&["a", "b", "c", "d"]));
}

#[test]
fn ssh_config_filters_negations_and_stars_only() {
    let config = "Host a?b *.x !neg ok\n";
    assert_eq!(parse_ssh_config_hosts(config), strings(&["a?b", "ok"]));
}

#[test]
fn ssh_config_drops_provider_aliases() {
    let config = "Host github.com GitLab.com mine\n";
    assert_eq!(parse_ssh_config_hosts(config), strings(&["mine"]));
}

#[test]
fn ssh_config_equals_is_not_a_separator() {
    assert_eq!(parse_ssh_config_hosts("Host=foo\n"), Vec::<String>::new());
}

#[test]
fn ssh_config_hostname_keeps_identity_alias() {
    let config = "Host box\n  HostName github.com\n";
    assert_eq!(parse_ssh_config_hosts(config), strings(&["box"]));
}

#[test]
fn ssh_config_tab_and_upper_case_keyword() {
    assert_eq!(parse_ssh_config_hosts("HOST\tUpper\n"), strings(&["Upper"]));
}

#[test]
fn ssh_config_block_of_negations_only() {
    let config = "Host !a\nHost b\n";
    assert_eq!(parse_ssh_config_hosts(config), strings(&["b"]));
}

#[test]
fn ssh_config_empty() {
    assert_eq!(parse_ssh_config_hosts(""), Vec::<String>::new());
}

#[test]
fn ssh_hosts_block_order_does_not_matter() {
    let header = "# keys\nIdentitiesOnly yes\n";
    let b1 = "Host work\n  HostName github.com\n";
    let b2 = "Host box other\n  HostName 10.0.0.2\n";
    let one = format!("{}{}{}", header, b1, b2);
    let two = format!("{}{}{}", header, b2, b1);
    assert_eq!(parse_ssh_hosts(&one), parse_ssh_hosts(&two));
    assert_eq!(parse_ssh_hosts(&one), strings(&["box", "other"]));
}

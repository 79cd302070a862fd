use codex_plus_core::managed_env::{
    clear_managed_env, managed_env_file_path, remove_managed_env_block, render_managed_env_block,
    upsert_managed_env_block, EnvFileChange, MANAGED_ENV_BEGIN, MANAGED_ENV_END,
};

#[test]
fn renders_block_with_proxy_and_no_proxy() {
    let block = render_managed_env_block(17891);
    assert!(block.contains("HTTP_PROXY=http://127.0.0.1:17891"));
    assert!(block.contains("HTTPS_PROXY=http://127.0.0.1:17891"));
    assert!(block.contains("NO_PROXY=10.20.30.61,127.0.0.1,localhost"));
    assert!(block.starts_with(MANAGED_ENV_BEGIN));
    assert!(block.trim_end().ends_with(MANAGED_ENV_END));
}

#[test]
fn writes_block_into_empty_file() {
    let out = upsert_managed_env_block("", 17891);
    assert_eq!(out, render_managed_env_block(17891));
}

#[test]
fn keeps_user_lines_and_appends_block_at_end() {
    let existing = "UNRELATED=value\nAWS_ACCESS_KEY_ID=keep-me\n";
    let out = upsert_managed_env_block(existing, 17891);
    assert!(out.starts_with("UNRELATED=value\nAWS_ACCESS_KEY_ID=keep-me\n"));
    let block_start = out.find(MANAGED_ENV_BEGIN).expect("block present");
    let user_end = out.find("AWS_ACCESS_KEY_ID").expect("user line present");
    assert!(block_start > user_end);
}

#[test]
fn upsert_is_idempotent() {
    let once = upsert_managed_env_block("KEEP=1\n", 17891);
    let twice = upsert_managed_env_block(&once, 17891);
    assert_eq!(once, twice);
    assert_eq!(twice.matches(MANAGED_ENV_BEGIN).count(), 1);
}

#[test]
fn upsert_rewrites_changed_port() {
    let old = upsert_managed_env_block("KEEP=1\n", 17891);
    let new = upsert_managed_env_block(&old, 18000);
    assert!(new.contains("HTTPS_PROXY=http://127.0.0.1:18000"));
    assert!(!new.contains("17891"));
    assert_eq!(new.matches(MANAGED_ENV_BEGIN).count(), 1);
}

#[test]
fn remove_restores_user_content_and_is_idempotent() {
    let existing = "KEEP=1\n";
    let with_block = upsert_managed_env_block(existing, 17891);
    let removed = remove_managed_env_block(&with_block);
    assert_eq!(removed, "KEEP=1\n");
    assert_eq!(remove_managed_env_block(&removed), removed);
}

#[test]
fn remove_yields_empty_when_only_block_present() {
    let with_block = upsert_managed_env_block("", 17891);
    assert_eq!(remove_managed_env_block(&with_block), "");
}

#[test]
fn remove_handles_crlf_markers() {
    let existing = format!(
        "KEEP=1\r\n{MANAGED_ENV_BEGIN}\r\nHTTPS_PROXY=http://127.0.0.1:1\r\n{MANAGED_ENV_END}\r\n"
    );
    let removed = remove_managed_env_block(&existing);
    assert!(!removed.contains("HTTPS_PROXY"));
    assert!(removed.contains("KEEP=1"));
}

#[test]
fn managed_block_wins_over_user_defined_proxy() {
    let existing = "HTTPS_PROXY=http://user-proxy:9999\n";
    let out = upsert_managed_env_block(existing, 17891);
    let user_pos = out.find("http://user-proxy:9999").expect("user line kept");
    let managed_pos = out
        .find("HTTPS_PROXY=http://127.0.0.1:17891")
        .expect("managed line present");
    assert!(managed_pos > user_pos);
}

#[test]
fn env_file_path_is_dot_env_under_home() {
    let path = managed_env_file_path(std::path::Path::new("/tmp/codex-home"));
    assert!(path.ends_with(".env"));
}

#[test]
fn block_has_these_lines() {
    assert_eq!(
        render_managed_env_block(17891),
        format!(
            "{MANAGED_ENV_BEGIN}\nHTTP_PROXY=http://127.0.0.1:17891\n\
             HTTPS_PROXY=http://127.0.0.1:17891\n\
             NO_PROXY=10.20.30.61,127.0.0.1,localhost\n{MANAGED_ENV_END}\n"
        )
    );
    assert!(MANAGED_ENV_BEGIN.starts_with("# >>> codex-plus-plus managed gateway ("));
    assert_eq!(MANAGED_ENV_END, "# <<< codex-plus-plus managed gateway <<<");
}

#[test]
fn block_stands_behind_one_empty_line() {
    let block = render_managed_env_block(1);
    assert_eq!(upsert_managed_env_block("A=1", 1), format!("A=1\n\n{block}"));
    assert_eq!(upsert_managed_env_block("A=1\n\n \n\n", 1), format!("A=1\n\n{block}"));
    assert_eq!(upsert_managed_env_block(" \n\t\n", 1), block);
}

#[test]
fn removal_ends_the_last_line_and_drops_empty_ones_behind_it() {
    assert_eq!(remove_managed_env_block(""), "");
    assert_eq!(remove_managed_env_block("A=1"), "A=1\n");
    assert_eq!(remove_managed_env_block("\n\nA=1\n\n\n"), "\n\nA=1\n");
}

#[test]
fn line_endings_stay_as_they_are() {
    assert_eq!(remove_managed_env_block("A=1\r\nB=2\r\n"), "A=1\r\nB=2\r\n");
    assert_eq!(remove_managed_env_block("A=1\r\nB=2"), "A=1\r\nB=2\n");
    assert_eq!(remove_managed_env_block("A=1\r\nB=2\n\r\n"), "A=1\r\nB=2\n");
    assert_eq!(remove_managed_env_block("a\r\r\n"), "a\r\r\n");
    assert_eq!(clear_managed_env("A=1\r\nB=2\r\n"), EnvFileChange::Keep);
    let block = render_managed_env_block(1);
    let written = upsert_managed_env_block("A=1\r\n", 1);
    assert_eq!(written, format!("A=1\r\n\n{block}"));
    assert_eq!(upsert_managed_env_block(&written, 1), written);
    assert_eq!(remove_managed_env_block(&written), "A=1\r\n");
}

#[test]
fn a_block_without_an_end_takes_no_line_away() {
    let existing = format!("A=1\n{MANAGED_ENV_BEGIN}\nB=2\nC=3\n");
    assert_eq!(remove_managed_env_block(&existing), "A=1\nB=2\nC=3\n");
    let stray = format!("A=1\n{MANAGED_ENV_END}\nB=2\n");
    assert_eq!(remove_managed_env_block(&stray), "A=1\nB=2\n");
    let second = format!(
        "{MANAGED_ENV_BEGIN}\nA=1\n{MANAGED_ENV_END}\nB=2\n{MANAGED_ENV_BEGIN}\nC=3\n"
    );
    assert_eq!(remove_managed_env_block(&second), "B=2\nC=3\n");
    let nested = format!(
        "{MANAGED_ENV_BEGIN}\nA=1\n{MANAGED_ENV_BEGIN}\nB=2\n{MANAGED_ENV_END}\nC=3\n"
    );
    assert_eq!(remove_managed_env_block(&nested), "C=3\n");
    let written = upsert_managed_env_block(&existing, 17891);
    assert_eq!(written.matches(MANAGED_ENV_BEGIN).count(), 1);
}

#[test]
fn markers_may_be_indented() {
    let existing = format!("A=1\n  {MANAGED_ENV_BEGIN}\t\nB=2\n {MANAGED_ENV_END} \nC=3\n");
    assert_eq!(remove_managed_env_block(&existing), "A=1\nC=3\n");
}

#[test]
fn user_lines_around_a_block_stay() {
    let block = render_managed_env_block(17891);
    let existing = format!("A=1\n{block}B=2\n");
    assert_eq!(remove_managed_env_block(&existing), "A=1\nB=2\n");
    assert_eq!(
        upsert_managed_env_block(&existing, 17891),
        format!("A=1\nB=2\n\n{block}")
    );
}

#[test]
fn clearing_keeps_deletes_or_rewrites_the_file() {
    assert_eq!(clear_managed_env("A=1\n"), EnvFileChange::Keep);
    assert_eq!(clear_managed_env(""), EnvFileChange::Keep);
    let only_block = upsert_managed_env_block("", 17891);
    assert_eq!(clear_managed_env(&only_block), EnvFileChange::Delete);
    let with_user_line = upsert_managed_env_block("A=1\n", 17891);
    assert_eq!(
        clear_managed_env(&with_user_line),
        EnvFileChange::Write("A=1\n".to_string())
    );
    assert_eq!(clear_managed_env("\n\n"), EnvFileChange::Delete);
}

#[test]
fn env_file_path_is_in_the_home_directory() {
    let path = managed_env_file_path(std::path::Path::new("/tmp/codex-home"));
    assert_eq!(path, std::path::Path::new("/tmp/codex-home/.env"));
    assert_eq!(path.file_name().and_then(|name| name.to_str()), Some(".env"));
    let path = managed_env_file_path(std::path::Path::new("/tmp/"));
    assert_eq!(path.to_str(), Some("/tmp/.env"));
}

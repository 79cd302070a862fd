use codex_plus_core::command::{
    clear_report, get_report, parse_arguments, usage_report, Command,
};
use codex_plus_core::credential::{
    credential_record, delete_credential, delete_outcome, hresult_from_win32, is_not_found,
    read_credential, read_outcome, to_wide, write_credential, write_outcome, CredentialError,
};

#[test]
fn non_windows_stubs_fail_clearly() {
    assert!(write_credential("managed-gateway", "sk-test").is_err());
    assert!(delete_credential("managed-gateway").is_err());
    assert_eq!(read_credential("managed-gateway").unwrap(), None);
}

#[test]
fn errors_say_what_is_wrong_and_hold_no_token() {
    assert_eq!(
        write_credential("managed-gateway", "sk-test"),
        Err(CredentialError::Unsupported)
    );
    let message = |error: CredentialError| error.message();
    assert_eq!(message(CredentialError::Unsupported), "Credential Manager 仅支持 Windows");
    assert_eq!(message(CredentialError::Read(0x8007_0005)), "读取凭据失败（code=0x80070005）");
    assert_eq!(message(CredentialError::Write(0x57)), "写入凭据失败（code=0x57）");
    assert_eq!(message(CredentialError::Delete(0)), "删除凭据失败（code=0x0）");
    assert_eq!(message(CredentialError::NotText), "凭据内容不是有效 UTF-8");
}

#[test]
fn stored_token_is_read_back() {
    let record = credential_record("managed-gateway", "sk-first-ä");
    assert_eq!(record.blob, "sk-first-ä".as_bytes());
    assert_eq!(record.blob_size, 11);
    assert_eq!(record.target_name, to_wide("managed-gateway"));
    assert_eq!(record.user_name, to_wide("CodexPlusPlus"));
    assert_eq!(read_outcome(Ok(record.blob)), Ok(Some("sk-first-ä".to_string())));
}

#[test]
fn replies_of_the_store() {
    assert_eq!(hresult_from_win32(1168), 0x8007_0490);
    assert_eq!(hresult_from_win32(0), 0);
    assert_eq!(hresult_from_win32(0x8007_0005), 0x8007_0005);
    assert_eq!(hresult_from_win32(0x0012_0005), 0x8007_0005);
    assert!(is_not_found(0x8007_0490));
    assert!(!is_not_found(1168));
    assert_eq!(read_outcome(Err(0x8007_0490)), Ok(None));
    assert_eq!(read_outcome(Err(5)), Err(CredentialError::Read(5)));
    assert_eq!(read_outcome(Ok(vec![0xff])), Err(CredentialError::NotText));
    assert_eq!(read_outcome(Ok(vec![])), Ok(Some(String::new())));
    assert_eq!(write_outcome(Ok(())), Ok(()));
    assert_eq!(write_outcome(Err(0x8007_0490)), Err(CredentialError::Write(0x8007_0490)));
    assert_eq!(delete_outcome(Ok(())), Ok(()));
    assert_eq!(delete_outcome(Err(0x8007_0490)), Ok(()));
    assert_eq!(delete_outcome(Err(6)), Err(CredentialError::Delete(6)));
}

#[test]
fn wide_text_is_utf16_with_a_zero() {
    for text in ["", "managed-gateway", "ä€", "\u{10000}x\u{10ffff}", "\u{d7ff}\u{e000}\u{ffff}"] {
        let mut expected: Vec<u16> = text.encode_utf16().collect();
        expected.push(0);
        assert_eq!(to_wide(text), expected);
    }
}

fn command(args: &[&str]) -> Command {
    let args: Vec<String> = args.iter().map(|arg| arg.to_string()).collect();
    parse_arguments(&args)
}

#[test]
fn arguments_name_one_of_two_commands() {
    assert_eq!(command(&["get", "managed-gateway"]), Command::Get);
    assert_eq!(command(&["clear-managed-env"]), Command::ClearManagedEnv);
    for args in [
        &[][..],
        &["get"],
        &["get", "other"],
        &["get", "managed-gateway", "x"],
        &["clear-managed-env", "x"],
        &["GET", "managed-gateway"],
    ] {
        assert_eq!(command(args), Command::Usage);
    }
}

#[test]
fn reports_of_the_helper() {
    let report = get_report(Ok(Some("sk-test".to_string())));
    assert_eq!((report.stdout.as_deref(), report.stderr, report.code), (Some("sk-test"), None, 0));
    let report = get_report(Ok(None));
    assert_eq!(
        (report.stdout, report.stderr.as_deref(), report.code),
        (None, Some("credential not found"), 2)
    );
    let report = get_report(Err(CredentialError::NotText));
    assert_eq!(
        (report.stdout, report.stderr.as_deref(), report.code),
        (None, Some("credential read failed"), 2)
    );
    let report = usage_report();
    assert_eq!(
        (report.stdout, report.stderr.as_deref(), report.code),
        (
            None,
            Some(
                "usage: codex-plus-credential get managed-gateway | \
                 codex-plus-credential clear-managed-env"
            ),
            2
        )
    );
    let report = clear_report(Ok(()));
    assert_eq!((report.stdout, report.stderr, report.code), (None, None, 0));
    let report = clear_report(Err("denied".to_string()));
    assert_eq!(
        (report.stdout, report.stderr.as_deref(), report.code),
        (None, Some("clear managed env failed: denied"), 1)
    );
}

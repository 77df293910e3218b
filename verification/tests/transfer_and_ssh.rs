use tusk::models::CellValue;
use tusk::ssh::{
    auth_step, connect_error, key_candidate_paths, AuthAction, AuthEvent, AuthPhase,
    PasswordOutcome,
};
use tusk::transfer::{
    cell_text, csv_export_text, export_file_name, export_path, import_insert_sql,
    import_plan, import_row_error, match_columns, no_match_message, read_import_file,
    record_values, str_eq_ignore_ascii_case,
    trim_all, trim_str, ImportStage,
};

fn strings(v: &[&str]) -> Vec<String> {
    v.iter().map(|s| s.to_string()).collect()
}

#[test]
fn export_cells() {
    assert_eq!(cell_text(&CellValue::Null), Some(String::new()));
    assert_eq!(cell_text(&CellValue::Integer(-42)), Some("-42".to_string()));
    assert_eq!(cell_text(&CellValue::Integer(i64::MIN)), Some("-9223372036854775808".to_string()));
    assert_eq!(cell_text(&CellValue::Text("orange".into())), Some("orange".to_string()));
    assert_eq!(cell_text(&CellValue::Real(1.5f64.to_bits())), None);
}

#[test]
fn export_document() {
    let names = strings(&["id", "name"]);
    let rows = vec![strings(&["1", "a\"b"]), strings(&["2", ""])];
    assert_eq!(
        csv_export_text(&names, &rows),
        "sep=,\nid,name\n\"1\",\"a\"\"b\"\n\"2\",\"\"\n"
    );
    assert_eq!(csv_export_text(&Vec::new(), &Vec::new()), "sep=,\n\n");
}

#[test]
fn export_destination() {
    assert_eq!(export_file_name("t\"1", "1700000000"), "tusk-sqlite-t\"\"1-1700000000.csv");
    assert_eq!(export_path(Some("/home/u"), "f.csv"), "/home/u/Downloads/f.csv");
    assert_eq!(export_path(None, "f.csv"), "/tmp/f.csv");
}

#[test]
fn trimming() {
    assert_eq!(trim_str("  name \t"), "name");
    assert_eq!(trim_str(" \u{3000} "), "");
    assert_eq!(trim_str("a b"), "a b");
    assert_eq!(trim_all(&strings(&[" id", "name "])), strings(&["id", "name"]));
}

#[test]
fn header_matching() {
    assert!(str_eq_ignore_ascii_case("Name", "nAME"));
    assert!(!str_eq_ignore_ascii_case("name", "names"));
    assert!(!str_eq_ignore_ascii_case("É", "é"));
    let headers = strings(&["ID", "extra", "Name"]);
    let targets = strings(&["id", "name", "price"]);
    assert_eq!(match_columns(&headers, &targets), vec![0, 2]);
    assert!(match_columns(&strings(&["x"]), &targets).is_empty());
    assert_eq!(
        no_match_message(&targets),
        "CSV 表头与目标表列无匹配（目标列: id, name, price）"
    );
}

#[test]
fn import_statement_and_values() {
    let headers = strings(&["ID", "extra", "Na\"me"]);
    assert_eq!(
        import_insert_sql("t1", &headers, &vec![0, 2]),
        "INSERT INTO \"t1\" (\"ID\", \"Na\"\"me\") VALUES (?1, ?2)"
    );
    let record = strings(&["7", "x"]);
    assert_eq!(record_values(&record, &vec![0, 2]), strings(&["7", ""]));
    assert_eq!(import_row_error(ImportStage::Parse, 0, "bad"), "解析第 2 行失败: bad");
    assert_eq!(import_row_error(ImportStage::Insert, 10, "locked"), "插入第 12 行失败: locked");
}

#[test]
fn key_first_then_password() {
    let (p, a) = auth_step(AuthPhase::Start, AuthEvent::KeyProbed { found: true });
    assert_eq!(p, AuthPhase::KeyOffered);
    assert!(matches!(a, AuthAction::OfferKey));
    let (p, a) = auth_step(p, AuthEvent::KeyReply { accepted: false });
    assert_eq!(p, AuthPhase::PasswordOffered);
    assert!(matches!(a, AuthAction::OfferPassword));
    let (p, a) = auth_step(p, AuthEvent::PasswordReply(PasswordOutcome::Accepted));
    assert_eq!(p, AuthPhase::Authenticated);
    assert!(matches!(a, AuthAction::Proceed));
}

#[test]
fn key_accepted() {
    let (p, _) = auth_step(AuthPhase::Start, AuthEvent::KeyProbed { found: true });
    let (p, a) = auth_step(p, AuthEvent::KeyReply { accepted: true });
    assert_eq!(p, AuthPhase::Authenticated);
    assert!(matches!(a, AuthAction::Proceed));
}

#[test]
fn bad_password_is_an_authentication_failure() {
    let (p, a) = auth_step(AuthPhase::Start, AuthEvent::KeyProbed { found: false });
    assert_eq!(p, AuthPhase::PasswordOffered);
    assert!(matches!(a, AuthAction::OfferPassword));
    let (p, a) = auth_step(p, AuthEvent::PasswordReply(PasswordOutcome::Refused));
    assert_eq!(p, AuthPhase::Rejected);
    match a {
        AuthAction::Abort(m) => {
            assert!(m.contains("认证失败"));
            assert_eq!(m, "SSH 认证失败：用户或密码/密钥不正确");
        }
        _ => panic!("expected an abort"),
    }
    let (_, a) = auth_step(
        AuthPhase::PasswordOffered,
        AuthEvent::PasswordReply(PasswordOutcome::Failed("disconnected".into())),
    );
    match a {
        AuthAction::Abort(m) => assert_eq!(m, "SSH 认证失败: disconnected"),
        _ => panic!("expected an abort"),
    }
}

#[test]
fn finished_phases_ignore_events() {
    let (p, a) = auth_step(AuthPhase::Authenticated, AuthEvent::KeyProbed { found: true });
    assert_eq!(p, AuthPhase::Authenticated);
    assert!(matches!(a, AuthAction::Wait));
    let (p, a) = auth_step(AuthPhase::Rejected, AuthEvent::PasswordReply(PasswordOutcome::Accepted));
    assert_eq!(p, AuthPhase::Rejected);
    assert!(matches!(a, AuthAction::Wait));
    // A password reply while the key is offered changes nothing.
    let (p, a) = auth_step(AuthPhase::KeyOffered, AuthEvent::PasswordReply(PasswordOutcome::Accepted));
    assert_eq!(p, AuthPhase::KeyOffered);
    assert!(matches!(a, AuthAction::Wait));
}

#[test]
fn private_key_candidates() {
    assert_eq!(
        key_candidate_paths("/home/u"),
        strings(&[
            "/home/u/.ssh/id_ed25519",
            "/home/u/.ssh/id_rsa",
            "/home/u/.ssh/id_ecdsa",
            "/home/u/.ssh/id_ecdsa_sk",
            "/home/u/.ssh/id_ed25519_sk",
        ])
    );
}

#[test]
fn unreachable_server_message() {
    assert_eq!(
        connect_error("10.0.0.1", 2222, "connection refused"),
        "SSH 连接失败（10.0.0.1:2222）: connection refused"
    );
}

#[test]
fn numbered_placeholders() {
    let headers: Vec<String> = (0..11).map(|i| format!("c{i}")).collect();
    let matched: Vec<usize> = (0..11).collect();
    let sql = import_insert_sql("t", &headers, &matched);
    assert!(sql.ends_with("VALUES (?1, ?2, ?3, ?4, ?5, ?6, ?7, ?8, ?9, ?10, ?11)"));
}

#[test]
fn reading_import_files() {
    let file = read_import_file(&b" id , name\n1,a\n2\n".to_vec()).expect("header");
    assert_eq!(file.headers, strings(&["id", "name"]));
    assert_eq!(file.records.len(), 2);
    assert_eq!(file.records[0], Ok(strings(&["1", "a"])));
    assert!(file.records[1].is_err());
    let bad = read_import_file(&vec![0xff, b',', b'a', b'\n']);
    assert!(bad.err().unwrap().starts_with("解析表头失败: "));
    let plan = import_plan("t", &file, &strings(&["NAME"])).expect("plan");
    assert_eq!(plan.0, "INSERT INTO \"t\" (\"name\") VALUES (?1)");
    assert_eq!(plan.1.len(), 2);
    assert_eq!(plan.1[0], Ok(strings(&["a"])));
    assert!(plan.1[1].as_ref().err().unwrap().starts_with("解析第 3 行失败: "));
}

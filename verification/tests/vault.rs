use totp_manager::text::strip_bom;
use totp_manager::vault::{
    add_entry, clean_codes, find_entry, normalize_entry, remove_entries, replace_entry, set_recovery_codes,
    Entry,
};
use totp_manager::view::{now, to_view, to_view_at, to_views};

fn entry(label: &str, account: &str) -> Entry {
    Entry {
        label: label.to_string(),
        account: account.to_string(),
        secret: None,
        codes: None,
        note: None,
    }
}

fn keys(entries: &[Entry]) -> Vec<(String, String)> {
    entries.iter().map(|e| (e.label.clone(), e.account.clone())).collect()
}

#[test]
fn codes_are_trimmed_and_blank_ones_dropped() {
    let r = clean_codes(Some(vec![" a1 ".to_string(), "".to_string(), "  ".to_string(), "b2".to_string()]));
    assert_eq!(r, Some(vec!["a1".to_string(), "b2".to_string()]));
    assert_eq!(clean_codes(Some(vec![" ".to_string(), "".to_string()])), None);
    assert_eq!(clean_codes(Some(vec![])), None);
    assert_eq!(clean_codes(None), None);
}

#[test]
fn blank_label_or_account_is_refused() {
    let e = normalize_entry(entry("  ", "me")).err().unwrap();
    assert_eq!(e, "服务不能为空");
    let e = normalize_entry(entry("GitHub", " \t")).err().unwrap();
    assert_eq!(e, "账号不能为空");
    let e = normalize_entry(entry("", "")).err().unwrap();
    assert_eq!(e, "服务不能为空");
}

#[test]
fn normalized_entry_is_clean() {
    let typed = Entry {
        label: "  GitHub 工作 ".to_string(),
        account: " me@company.com".to_string(),
        secret: Some("  ".to_string()),
        codes: Some(vec![" a1b2c3d4e5 ".to_string(), " ".to_string()]),
        note: Some(" 备用 ".to_string()),
    };
    let e = normalize_entry(typed).ok().unwrap();
    assert_eq!(e.label, "GitHub 工作");
    assert_eq!(e.account, "me@company.com");
    assert_eq!(e.secret, None);
    assert_eq!(e.codes, Some(vec!["a1b2c3d4e5".to_string()]));
    assert_eq!(e.note, Some(" 备用 ".to_string()));

    let kept = normalize_entry(Entry { secret: Some(" JBSW Y3DP ".to_string()), ..entry("a", "b") })
        .ok()
        .unwrap();
    assert_eq!(kept.secret, Some(" JBSW Y3DP ".to_string()));

    let again = normalize_entry(e.clone()).ok().unwrap();
    assert_eq!(again.label, e.label);
    assert_eq!(again.account, e.account);
    assert_eq!(again.codes, e.codes);
    assert_eq!(again.note, e.note);
}

#[test]
fn find_takes_label_and_account_together() {
    let es = vec![entry("GitHub", "work"), entry("GitHub", "home"), entry("GitLab", "work")];
    assert_eq!(find_entry(&es, &"GitHub".to_string(), &"home".to_string()), Some(1));
    assert_eq!(find_entry(&es, &"GitLab".to_string(), &"home".to_string()), None);
}

#[test]
fn replace_changes_only_the_found_entry() {
    let mut es = vec![entry("GitHub", "work"), entry("GitHub", "home")];
    let r = replace_entry(&mut es, &"GitHub".to_string(), &"home".to_string(), entry("GitHub", "personal"));
    assert!(r.is_ok());
    assert_eq!(
        keys(&es),
        vec![("GitHub".to_string(), "work".to_string()), ("GitHub".to_string(), "personal".to_string())]
    );
}

#[test]
fn replace_may_keep_its_own_key() {
    let mut es = vec![entry("GitHub", "work")];
    let mut new = entry("GitHub", "work");
    new.note = Some("n".to_string());
    assert!(replace_entry(&mut es, &"GitHub".to_string(), &"work".to_string(), new).is_ok());
    assert_eq!(es[0].note, Some("n".to_string()));
}

#[test]
fn replace_refuses_a_duplicate() {
    let mut es = vec![entry("GitHub", "work"), entry("GitHub", "home")];
    let r = replace_entry(&mut es, &"GitHub".to_string(), &"home".to_string(), entry("GitHub", "work"));
    assert_eq!(r.unwrap_err(), "已存在「GitHub · work」");
    assert_eq!(keys(&es).len(), 2);
    assert_eq!(es[1].account, "home");
}

#[test]
fn replace_reports_a_missing_entry() {
    let mut es = vec![entry("GitHub", "work")];
    let r = replace_entry(&mut es, &"论坛".to_string(), &"myname".to_string(), entry("论坛", "x"));
    assert_eq!(r.unwrap_err(), "找不到记录：论坛 · myname");
    assert_eq!(es[0].label, "GitHub");
}

#[test]
fn recovery_codes_are_replaced_as_a_whole() {
    let mut es = vec![entry("Bank", "me"), entry("Mail", "me")];
    es[0].codes = Some(vec!["old".to_string()]);
    let r = set_recovery_codes(&mut es, &"Bank".to_string(), &"me".to_string(), Some(vec![" x ".to_string(), "y".to_string()]));
    assert!(r.is_ok());
    assert_eq!(es[0].codes, Some(vec!["x".to_string(), "y".to_string()]));
    assert_eq!(es[1].codes, None);
    let r = set_recovery_codes(&mut es, &"Bank".to_string(), &"me".to_string(), Some(vec![]));
    assert!(r.is_ok());
    assert_eq!(es[0].codes, None);
    let r = set_recovery_codes(&mut es, &"Bank".to_string(), &"you".to_string(), None);
    assert_eq!(r.unwrap_err(), "找不到记录：Bank · you");
}

#[test]
fn removal_is_by_label_and_account_and_idempotent() {
    let mut es = vec![entry("GitHub", "work"), entry("GitHub", "home"), entry("GitLab", "work")];
    remove_entries(&mut es, &"GitHub".to_string(), &"work".to_string());
    assert_eq!(
        keys(&es),
        vec![("GitHub".to_string(), "home".to_string()), ("GitLab".to_string(), "work".to_string())]
    );
    remove_entries(&mut es, &"GitHub".to_string(), &"work".to_string());
    assert_eq!(keys(&es).len(), 2);
}

#[test]
fn view_shows_the_current_code() {
    let mut e = entry("Test", "me");
    e.secret = Some("GEZDGNBVGY3TQOJQGEZDGNBVGY3TQOJQ".to_string());
    let v = to_view_at(e, 59);
    assert_eq!(v.code, Some("287082".to_string()));
    assert_eq!(v.error, None);
    assert_eq!(v.remaining, 1);
    assert_eq!(v.label, "Test");
}

#[test]
fn view_without_a_secret_shows_neither_code_nor_error() {
    let v = to_view_at(entry("Bank", "me"), 100);
    assert_eq!(v.code, None);
    assert_eq!(v.error, None);
    let mut e = entry("Bank", "me");
    e.secret = Some("   ".to_string());
    let v = to_view_at(e, 100);
    assert_eq!(v.code, None);
    assert_eq!(v.error, None);
    assert_eq!(v.remaining, 20);
}

#[test]
fn view_with_a_bad_secret_shows_the_error() {
    let mut e = entry("Broken", "me");
    e.secret = Some("!!!!".to_string());
    let v = to_view_at(e, 0);
    assert_eq!(v.code, None);
    assert_eq!(v.error, Some("密钥不是合法的 Base32: invalid symbol at 0".to_string()));
    assert_eq!(v.remaining, 30);
}

#[test]
fn views_follow_the_clock() {
    assert!(now() > 1_500_000_000);
    let v = to_view(entry("A", "b"));
    assert!(1 <= v.remaining && v.remaining <= 30);
    let vs = to_views(vec![entry("A", "b"), entry("C", "d")]);
    assert_eq!(vs.len(), 2);
    assert_eq!(vs[1].label, "C");
}

#[test]
fn edited_entry_is_found_by_its_new_key() {
    let mut es = vec![entry("GitHub", "work"), entry("GitHub", "home"), entry("Mail", "me")];
    let r = replace_entry(&mut es, &"GitHub".to_string(), &"home".to_string(), entry("GitLab", "home"));
    assert!(r.is_ok());
    assert_eq!(find_entry(&es, &"GitLab".to_string(), &"home".to_string()), Some(1));
    assert_eq!(find_entry(&es, &"GitHub".to_string(), &"home".to_string()), None);
}

#[test]
fn cleaning_codes_twice_is_cleaning_once() {
    let once = clean_codes(Some(vec!["  x1 ".to_string(), " ".to_string(), "y2\t".to_string()]));
    let twice = clean_codes(once.clone());
    assert_eq!(once, twice);
    assert_eq!(once, Some(vec!["x1".to_string(), "y2".to_string()]));
}

#[test]
fn adding_appends_a_new_entry() {
    let mut es = vec![entry("GitHub", "work")];
    assert!(add_entry(&mut es, entry("GitHub", "home")).is_ok());
    assert_eq!(
        keys(&es),
        vec![("GitHub".to_string(), "work".to_string()), ("GitHub".to_string(), "home".to_string())]
    );
}

#[test]
fn adding_a_duplicate_is_refused() {
    let mut es = vec![entry("GitHub", "work"), entry("Mail", "me")];
    let r = add_entry(&mut es, entry("GitHub", "work"));
    assert_eq!(r.unwrap_err(), "已存在「GitHub · work」");
    assert_eq!(keys(&es).len(), 2);
}

#[test]
fn byte_order_mark_is_skipped() {
    assert_eq!(strip_bom("\u{feff}[]"), "[]");
    assert_eq!(strip_bom("[]"), "[]");
    assert_eq!(strip_bom("\u{feff}"), "");
    assert_eq!(strip_bom("论坛\u{feff}"), "论坛\u{feff}");
    assert_eq!(strip_bom(""), "");
}

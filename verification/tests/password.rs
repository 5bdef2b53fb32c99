//! The passwords that are kept.

use smartzip::password::{NewPassword, PasswordMatch, PasswordRecord, PasswordRepository};

fn upsert(repo: &mut PasswordRepository, value: &str, source: &str, pinned: bool) -> i64 {
    repo.upsert(NewPassword { value: value.to_string(), source: source.to_string(), pinned })
}

fn now() -> String {
    "2026-07-02T00:00:00Z".to_string()
}

fn ranked(repo: &PasswordRepository, limit: usize) -> Vec<&PasswordRecord> {
    repo.ranked_candidates(limit).into_iter().map(|k| &repo.rows[k]).collect()
}

fn matches_for(repo: &PasswordRepository, id: i64) -> Vec<&PasswordMatch> {
    repo.matches_for(id).into_iter().map(|k| &repo.matches[k]).collect()
}

#[test]
fn upsert_and_rank_passwords() {
    let mut repo = PasswordRepository::new();
    let first = upsert(&mut repo, "密码一", "manual", false);
    let second = upsert(&mut repo, "password-two", "clipboard", true);
    repo.record_success(first, now());
    repo.record_success(first, now());
    repo.record_failure(first, now());

    let ranked = ranked(&repo, 10);
    assert_eq!(ranked[0].id, second);
    assert_eq!(ranked[1].id, first);
    assert_eq!(ranked[1].value, "密码一");
}

#[test]
fn record_match_success_upserts_row_and_bumps_count() {
    let mut repo = PasswordRepository::new();
    let id = upsert(&mut repo, "abc123", "manual", false);
    repo.record_match_success(id, Some("zip"), Some("photos"), now());
    repo.record_match_success(id, Some("zip"), Some("photos"), now());
    repo.record_match_success(id, Some("rar"), Some("photos"), now());

    let matches = matches_for(&repo, id);
    assert_eq!(matches.len(), 2);
    let zip = matches.iter().find(|m| m.archive_format.as_deref() == Some("zip")).unwrap();
    assert_eq!(zip.success_count, 2);
    assert!(zip.last_success_at.is_some());
    let rar = matches.iter().find(|m| m.archive_format.as_deref() == Some("rar")).unwrap();
    assert_eq!(rar.success_count, 1);
}

#[test]
fn record_match_failure_bumps_failure_column() {
    let mut repo = PasswordRepository::new();
    let id = upsert(&mut repo, "abc123", "manual", false);
    repo.record_match_failure(id, Some("zip"), Some("photos"), now());
    repo.record_match_failure(id, Some("zip"), Some("photos"), now());
    let matches = matches_for(&repo, id);
    assert_eq!(matches.len(), 1);
    assert_eq!(matches[0].failure_count, 2);
    assert_eq!(matches[0].success_count, 0);
}

#[test]
fn keeping_a_password_again_keeps_its_record() {
    let mut repo = PasswordRepository::new();
    let id = upsert(&mut repo, "pw", "manual", true);
    repo.record_success(id, now());
    assert_eq!(upsert(&mut repo, "pw", "clipboard", false), id);
    assert_eq!(repo.rows.len(), 1);
    let row = &repo.rows[repo.get_by_value("pw").unwrap()];
    assert_eq!(row.success_count, 1);
    assert_eq!(row.last_success_at.as_deref(), Some("2026-07-02T00:00:00Z"));
}

#[test]
fn disabled_and_deleted_passwords_are_not_tried() {
    let mut repo = PasswordRepository::new();
    let a = upsert(&mut repo, "a", "manual", false);
    let b = upsert(&mut repo, "b", "manual", false);
    let c = upsert(&mut repo, "c", "manual", false);
    repo.disable(a);
    repo.delete(b);
    let left: Vec<i64> = ranked(&repo, 10).iter().map(|p| p.id).collect();
    assert_eq!(left, vec![c]);
    assert!(repo.get_by_value("a").is_some());
    assert!(repo.get_by_value("b").is_none());
}

#[test]
fn numbers_are_not_used_again() {
    let mut repo = PasswordRepository::new();
    let a = upsert(&mut repo, "a", "manual", false);
    repo.delete(a);
    assert_ne!(upsert(&mut repo, "b", "manual", false), a);
}

#[test]
fn limit_cuts_the_ranking() {
    let mut repo = PasswordRepository::new();
    for value in ["a", "b", "c"] {
        upsert(&mut repo, value, "manual", false);
    }
    assert_eq!(ranked(&repo, 2).len(), 2);
    assert_eq!(ranked(&repo, 0).len(), 0);
}

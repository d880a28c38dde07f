use smmdb_core::AccountConvertError;
use smmdb_core::AccountReq;
use smmdb_core::AuthSession;
use smmdb_core::Collections;
use smmdb_core::GetCourses2;
use smmdb_core::IdInfo;
use smmdb_core::Sort;
use smmdb_core::SortValue;
use smmdb_core::is_true;

fn id_info(email: Option<&str>, verified: Option<&str>) -> IdInfo {
    IdInfo {
        iss: "iss".to_string(),
        sub: "google-id-1".to_string(),
        azp: "azp".to_string(),
        aud: "aud".to_string(),
        iat: "0".to_string(),
        exp: "1".to_string(),
        hd: None,
        email: email.map(|s| s.to_string()),
        email_verified: verified.map(|s| s.to_string()),
        name: None,
        picture: None,
        given_name: None,
        family_name: None,
        locale: None,
    }
}

#[test]
fn account_request_takes_username_from_email() {
    let req = AccountReq::try_from(id_info(Some("mario@example.org"), Some("true"))).unwrap();
    assert_eq!(req.googleid, "google-id-1");
    assert_eq!(req.username, "mario");
    assert_eq!(req.email, "mario@example.org");
}

#[test]
fn account_request_without_at_sign_keeps_whole_email() {
    let req = AccountReq::try_from(id_info(Some("mario"), Some("true"))).unwrap();
    assert_eq!(req.username, "mario");
}

#[test]
fn account_request_requires_email() {
    match AccountReq::try_from(id_info(None, Some("true"))) {
        Err(AccountConvertError::EmailMissing) => {}
        _ => panic!("a missing email must be reported"),
    }
}

#[test]
fn account_request_requires_verified_email() {
    match AccountReq::try_from(id_info(Some("mario@example.org"), Some("false"))) {
        Err(AccountConvertError::EmailNotVerified) => {}
        _ => panic!("an unverified email must be reported"),
    }
    match AccountReq::try_from(id_info(Some("mario@example.org"), None)) {
        Err(AccountConvertError::EmailNotVerified) => {}
        _ => panic!("an absent verification flag must be reported"),
    }
}

#[test]
fn auth_session_keeps_expiry() {
    let s = AuthSession::new("token".to_string(), 777);
    assert_eq!(s.get_expires_at(), 777);
}

#[test]
fn default_for_query_flags_is_true() {
    assert!(is_true());
}

fn query(sort: Option<Vec<Sort>>, limit: u32, skip: Option<u32>) -> GetCourses2 {
    GetCourses2 {
        limit,
        skip,
        id: None,
        ids: None,
        title: None,
        title_exact: false,
        title_case_sensitive: false,
        title_trimmed: true,
        owner: None,
        uploader: None,
        sort,
        difficulty: None,
    }
}

#[test]
fn sort_defaults_to_last_modified_with_title_tiebreaker() {
    let r = query(None, 10, None).get_sort();
    assert_eq!(
        r,
        vec![
            Sort { val: SortValue::LastModified, dir: -1 },
            Sort { val: SortValue::CourseHeaderTitle, dir: -1 },
        ]
    );
}

#[test]
fn sort_appends_title_tiebreaker_only_when_missing() {
    let with_title = vec![Sort { val: SortValue::CourseHeaderTitle, dir: 1 }];
    assert_eq!(query(Some(with_title.clone()), 10, None).get_sort(), with_title);

    let votes = vec![Sort { val: SortValue::Votes, dir: 1 }];
    assert_eq!(
        query(Some(votes), 10, None).get_sort(),
        vec![
            Sort { val: SortValue::Votes, dir: 1 },
            Sort { val: SortValue::CourseHeaderTitle, dir: -1 },
        ]
    );
}

#[test]
fn limit_covers_the_skipped_window() {
    assert_eq!(query(None, 120, Some(30)).get_limit(), 150);
    assert_eq!(query(None, 15, None).get_limit(), 15);
}

#[test]
fn collection_names_match_storage() {
    assert_eq!(Collections::Courses.as_str(), "courses");
    assert_eq!(Collections::CourseData.as_str(), "courseData");
    assert_eq!(Collections::Courses2.as_str(), "courses2");
    assert_eq!(Collections::Course2Data.as_str(), "course2Data");
    assert_eq!(Collections::Accounts.as_str(), "accounts");
    assert_eq!(Collections::Votes.as_str(), "votes");
    assert_eq!(Collections::Meta.as_str(), "meta");
}

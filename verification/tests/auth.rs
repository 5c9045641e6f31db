use chat_presence::auth::{AuthError, AuthFail, AuthSuccess, Certificate, Certs, Claims};

fn key(kid: &str, n: &str) -> Certificate {
    Certificate { kid: String::from(kid), n: String::from(n), e: String::from("AQAB") }
}

fn cache() -> Certs {
    let mut certs = Certs::default();
    certs.refresh(vec![key("key-1", "n1"), key("key-2", "n2"), key("key-2", "n3")], 1_000, 3_600);
    certs
}

fn claims(iss: &str) -> Claims {
    Claims {
        iss: String::from(iss),
        aud: String::from("client"),
        exp: 2_000_000_000,
        sub: String::from("1234567890"),
        name: String::from("Ada Lovelace"),
        picture: String::from("https://example.org/ada.png"),
        given_name: String::from("Ada"),
        family_name: String::from("Lovelace"),
    }
}

// Header {"alg":"RS256","kid":"key-2","typ":"JWT"}
const TOKEN_WITH_KEY_2: &str = "eyJhbGciOiJSUzI1NiIsImtpZCI6ImtleS0yIiwidHlwIjoiSldUIn0.eyJpc3MiOiJhY2NvdW50cy5nb29nbGUuY29tIn0.c2ln";
// Header {"alg":"RS256","typ":"JWT"}
const TOKEN_WITHOUT_KID: &str = "eyJhbGciOiJSUzI1NiIsInR5cCI6IkpXVCJ9.eyJpc3MiOiJhY2NvdW50cy5nb29nbGUuY29tIn0.c2ln";
// Header {"alg":"RS256","kid":"unknown","typ":"JWT"}
const TOKEN_WITH_UNKNOWN_KID: &str = "eyJhbGciOiJSUzI1NiIsImtpZCI6InVua25vd24iLCJ0eXAiOiJKV1QifQ.eyJpc3MiOiJhY2NvdW50cy5nb29nbGUuY29tIn0.c2ln";

#[test]
fn default_cache_is_empty_and_stale() {
    let certs = Certs::default();
    assert!(certs.keys.is_empty());
    assert_eq!(certs.expire, 0);
    assert!(!certs.is_fresh(0));
    assert!(!certs.is_fresh(1));
}

#[test]
fn refreshed_cache_is_fresh_until_it_expires() {
    let certs = cache();
    assert_eq!(certs.expire, 4_600);
    assert_eq!(certs.keys.len(), 3);
    assert!(certs.is_fresh(1_000));
    assert!(certs.is_fresh(4_599));
    assert!(!certs.is_fresh(4_600));
    assert!(!certs.is_fresh(4_601));
}

#[test]
fn refresh_accepts_the_largest_expiry() {
    let mut certs = Certs::default();
    certs.refresh(Vec::new(), u64::MAX - 5, 5);
    assert_eq!(certs.expire, u64::MAX);
    assert!(certs.is_fresh(u64::MAX - 1));
    assert!(!certs.is_fresh(u64::MAX));
}

#[test]
fn key_for_picks_the_first_key_with_the_id() {
    let certs = cache();
    let found = certs.key_for(&Some(String::from("key-2"))).expect("key-2 is cached");
    assert_eq!(found.n, "n2");
    let found = certs.key_for(&Some(String::from("key-1"))).expect("key-1 is cached");
    assert_eq!(found.n, "n1");
}

#[test]
fn key_for_reports_missing_key() {
    let certs = cache();
    assert_eq!(certs.key_for(&None).err(), Some(AuthError::MissingKey));
    assert_eq!(certs.key_for(&Some(String::from("key-3"))).err(), Some(AuthError::MissingKey));
    assert_eq!(certs.key_for(&Some(String::new())).err(), Some(AuthError::MissingKey));
    assert_eq!(
        Certs::default().key_for(&Some(String::from("key-1"))).err(),
        Some(AuthError::MissingKey)
    );
}

#[test]
fn select_key_reads_the_key_id_from_the_token_header() {
    let certs = cache();
    let found = certs.select_key(TOKEN_WITH_KEY_2).expect("the header names key-2");
    assert_eq!(found.kid, "key-2");
    assert_eq!(found.n, "n2");
}

#[test]
fn select_key_reports_missing_key() {
    let certs = cache();
    assert_eq!(certs.select_key(TOKEN_WITHOUT_KID).err(), Some(AuthError::MissingKey));
    assert_eq!(certs.select_key(TOKEN_WITH_UNKNOWN_KID).err(), Some(AuthError::MissingKey));
}

#[test]
fn select_key_rejects_what_is_no_token() {
    let certs = cache();
    assert_eq!(certs.select_key("").err(), Some(AuthError::InvalidToken));
    assert_eq!(certs.select_key("key-2").err(), Some(AuthError::InvalidToken));
    assert_eq!(certs.select_key("only.two").err(), Some(AuthError::InvalidToken));
    assert_eq!(certs.select_key("a.b.c.d").err(), Some(AuthError::InvalidToken));
    assert_eq!(certs.select_key("!!!.eyJpc3MiOiJhY2NvdW50cy5nb29nbGUuY29tIn0.c2ln").err(), Some(AuthError::InvalidToken));
}

#[test]
fn both_issuer_spellings_are_trusted() {
    assert!(claims("accounts.google.com").has_trusted_issuer());
    assert!(claims("https://accounts.google.com").has_trusted_issuer());
    let checked = claims("https://accounts.google.com").check_issuer().expect("trusted");
    assert_eq!(checked.sub, "1234567890");
    assert_eq!(checked.name, "Ada Lovelace");
    assert_eq!(checked.exp, 2_000_000_000);
}

#[test]
fn other_issuers_are_refused() {
    for issuer in ["", "accounts.google.com.evil.example", "http://accounts.google.com", "Accounts.Google.com"] {
        assert!(!claims(issuer).has_trusted_issuer());
        assert_eq!(claims(issuer).check_issuer().err(), Some(AuthError::UntrustedIssuer));
    }
}

#[test]
fn redirect_queries_carry_their_fields() {
    let accepted = AuthSuccess { code: String::from("4/abc"), scope: String::from("profile") };
    assert_eq!(accepted.code, "4/abc");
    assert_eq!(accepted.scope, "profile");
    let refused = AuthFail { error: String::from("access_denied") };
    assert_eq!(refused.error, "access_denied");
}

fn lines(text: &[&str]) -> Vec<Vec<u8>> {
    text.iter().map(|line| line.as_bytes().to_vec()).collect()
}

#[test]
fn update_takes_the_expiry_from_cache_control() {
    let mut certs = Certs::default();
    let header = lines(&["public, max-age=19845, must-revalidate, no-transform"]);
    assert!(certs.update(vec![key("key-9", "n9")], 1_700_000_000, &header));
    assert_eq!(certs.expire, 1_700_019_845);
    assert_eq!(certs.keys.len(), 1);
    assert_eq!(certs.keys[0].kid, "key-9");
    assert!(certs.is_fresh(1_700_019_844));
    assert!(!certs.is_fresh(1_700_019_845));
}

#[test]
fn update_reads_max_age_from_any_header_line() {
    let mut certs = Certs::default();
    assert!(certs.update(Vec::new(), 10, &lines(&["public", "max-age=60"])));
    assert_eq!(certs.expire, 70);
}

#[test]
fn update_without_max_age_changes_nothing() {
    let mut certs = cache();
    assert!(!certs.update(vec![key("key-9", "n9")], 5_000, &lines(&["no-store"])));
    assert!(!certs.update(vec![key("key-9", "n9")], 5_000, &lines(&[])));
    assert!(!certs.update(vec![key("key-9", "n9")], 5_000, &vec![vec![0xff, 0x0a]]));
    assert_eq!(certs.expire, 4_600);
    assert_eq!(certs.keys.len(), 3);
    assert_eq!(certs.keys[0].kid, "key-1");
}

#[test]
fn update_refuses_an_expiry_past_the_end_of_time() {
    let mut certs = cache();
    assert!(!certs.update(Vec::new(), u64::MAX - 59, &lines(&["max-age=60"])));
    assert_eq!(certs.expire, 4_600);
    assert_eq!(certs.keys.len(), 3);
    assert!(certs.update(Vec::new(), u64::MAX - 60, &lines(&["max-age=60"])));
    assert_eq!(certs.expire, u64::MAX);
}

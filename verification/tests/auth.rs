use tezweb::auth::{
    basic_credentials, claims_from_payload, decode_basic, extract_bearer, jwt_decode, jwt_decode_at,
    jwt_encode, jwt_encode_at,
};

#[test]
fn bearer_token_is_extracted() {
    assert_eq!(extract_bearer("Bearer abc.def"), Some("abc.def"));
    assert_eq!(extract_bearer("bearer abc"), None);
    assert_eq!(extract_bearer("Basic abc"), None);
}

#[test]
fn basic_credentials_are_decoded() {
    assert_eq!(
        decode_basic("Basic dXNlcjpwYXNz"),
        Some(("user".to_string(), "pass".to_string()))
    );
    assert_eq!(
        decode_basic("Basic dXNlcjpwYTpzcw=="),
        Some(("user".to_string(), "pa:ss".to_string()))
    );
    assert_eq!(decode_basic("Basic dXNlcg=="), None);
    assert_eq!(decode_basic("Basic !!!"), None);
    assert_eq!(decode_basic("Bearer dXNlcjpwYXNz"), None);
    assert_eq!(basic_credentials(b"a:"), Some(("a".to_string(), String::new())));
    assert_eq!(basic_credentials(&[0xff, b':']), None);
}

#[test]
fn token_reads_back_with_its_secret() {
    let secret = "my-secret-key";
    let token = jwt_encode("akram", secret, 60);
    assert_eq!(token.split('.').count(), 3);
    let claims = jwt_decode(&token, secret).unwrap();
    assert_eq!(claims.sub, "akram");
    assert_eq!(claims.exp, claims.iat + 60);
}

#[test]
fn wrong_secret_and_tampering_are_rejected() {
    let secret = "my-secret-key";
    let token = jwt_encode("akram", secret, 60);
    assert!(jwt_decode(&token, "wrong-secret").is_none());
    let tampered = format!("{}x", token);
    assert!(jwt_decode(&tampered, secret).is_none());
    assert!(jwt_decode("a.b", secret).is_none());
    assert!(jwt_decode("a.b.c.d", secret).is_none());
}

#[test]
fn token_expires() {
    let token = jwt_encode_at("bob", "s", 10, 1_000);
    let claims = jwt_decode_at(&token, "s", 1_010).unwrap();
    assert_eq!((claims.sub.as_str(), claims.iat, claims.exp), ("bob", 1_000, 1_010));
    assert!(jwt_decode_at(&token, "s", 1_011).is_none());
    let header = token.split('.').next().unwrap();
    assert_eq!(header, "eyJhbGciOiJIUzI1NiIsInR5cCI6IkpXVCJ9");
}

#[test]
fn payload_claims_are_read() {
    let c = claims_from_payload(br#"{"sub":"x","iat":5,"exp":9}"#, 9).unwrap();
    assert_eq!((c.sub.as_str(), c.iat, c.exp), ("x", 5, 9));
    assert!(claims_from_payload(br#"{"sub":"x","iat":5,"exp":9}"#, 10).is_none());
    assert!(claims_from_payload(br#"{"sub":"x","iat":5}"#, 0).is_none());
    assert!(claims_from_payload(br#"{"sub":1,"iat":5,"exp":9}"#, 0).is_none());
    assert!(claims_from_payload(br#"{"sub":"x","iat":5,"exp":99999999999999999999}"#, 0).is_none());
}

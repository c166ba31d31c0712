use boxercrab::auth::{auth_response, native_password_auth};

#[test]
fn test_native_password_known_answer() {
    let password = b"secret_pw";
    let challenge: Vec<u8> = (0u8..20).collect();
    let got = native_password_auth(password, &challenge);
    let want: Vec<u8> = vec![
        213, 114, 164, 84, 177, 120, 144, 121, 28, 150, 251, 50, 193, 121, 112, 154, 148, 23, 126,
        68,
    ];
    assert_eq!(got, want);
}

#[test]
fn test_empty_password_auth() {
    // an empty password sends a zero-byte auth response
    let challenge: Vec<u8> = (0u8..20).collect();
    assert_eq!(auth_response(b"", &challenge), Vec::<u8>::new());
    assert_eq!(auth_response(b"x", &challenge).len(), 20);
}

use page_ocr::corrector::{
    bearer, check_status, correction_request, prepare_correction, require_credential,
    CorrectionError, CREDENTIAL_VAR, EDITOR_INSTRUCTIONS, ENDPOINT, MAX_TOKENS, MODEL,
};
use page_ocr::raster::{check_exit, output_prefix, RasterError, RASTERIZER};

#[test]
fn correction_request_has_two_messages() {
    let r = correction_request("Helo wrold");
    assert_eq!(r.messages.len(), 2);
    assert_eq!(r.messages[0].role, "system");
    assert_eq!(r.messages[0].content, EDITOR_INSTRUCTIONS);
    assert_eq!(r.messages[1].role, "user");
    assert_eq!(r.messages[1].content, "Helo wrold");
    assert_eq!(r.model, MODEL);
    assert_eq!(r.model, "llama3-70b-8192");
    assert_eq!((r.temperature, r.max_tokens, r.top_p), (1, 8192, 1));
    assert_eq!(MAX_TOKENS, 8192);
    assert!(!r.stream);
    assert!(r.stop.is_none());
}

#[test]
fn prepared_request_carries_credential() {
    let p = prepare_correction("Helo wrold", Some("secret-key".to_string())).ok().unwrap();
    assert_eq!(p.authorization, "Bearer secret-key");
    assert_eq!(p.body.messages.len(), 2);
    assert_eq!(p.body.messages[1].content, "Helo wrold");
}

#[test]
fn missing_credential_is_fatal() {
    assert!(matches!(
        prepare_correction("Helo wrold", None),
        Err(CorrectionError::MissingCredential)
    ));
    assert!(matches!(require_credential(None), Err(CorrectionError::MissingCredential)));
    assert_eq!(require_credential(Some("k".to_string())).ok(), Some("k".to_string()));
    assert_eq!(CREDENTIAL_VAR, "GROQ_API_KEY");
}

#[test]
fn bearer_header_value() {
    assert_eq!(bearer("abc"), "Bearer abc");
    assert_eq!(bearer(""), "Bearer ");
}

#[test]
fn status_other_than_ok_is_an_error() {
    assert_eq!(check_status(200, "{}".to_string()).ok(), Some("{}".to_string()));
    match check_status(401, "denied".to_string()) {
        Err(CorrectionError::Status { code, body }) => {
            assert_eq!(code, 401);
            assert_eq!(body, "denied");
        }
        _ => panic!("status error expected"),
    }
    assert!(matches!(check_status(201, String::new()), Err(CorrectionError::Status { code: 201, .. })));
    assert!(ENDPOINT.starts_with("https://"));
}

#[test]
fn rasterizer_arguments_and_exit() {
    assert_eq!(output_prefix("/tmp/book"), "/tmp/book/page");
    assert_eq!(RASTERIZER, "pdfimages");
    assert_eq!(check_exit(true, Some(0)), Ok(()));
    assert_eq!(check_exit(false, Some(2)), Err(RasterError::ExitFailure(Some(2))));
    assert_eq!(check_exit(false, None), Err(RasterError::ExitFailure(None)));
    assert!(RasterError::Spawn != RasterError::ExitFailure(None));
}

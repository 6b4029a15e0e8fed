use yt_dlp_rs::json::{Json, JsonNumber};
use yt_dlp_rs::solver::{
    n_value_or_token, read_solver_output, solver_request, ChallengeKind, ChallengeMap, SolverError,
};

fn s(t: &str) -> Json {
    Json::Str(t.to_string())
}

fn obj(members: Vec<(&str, Json)>) -> Json {
    Json::Object(members.into_iter().map(|(k, v)| (k.to_string(), v)).collect())
}

#[test]
fn no_challenges_no_request() {
    assert_eq!(solver_request("player", &[], &[]), None);
}

#[test]
fn request_document() {
    let doc = solver_request("var a=\"x\";\n", &["abc", "d\"e"], &["sig\\1"]).unwrap();
    assert_eq!(
        doc,
        "{\"type\":\"player\",\"player\":\"var a=\\\"x\\\";\\n\",\"requests\":[{\"type\":\"n\",\"challenges\":[\"abc\",\"d\\\"e\"]},{\"type\":\"sig\",\"challenges\":[\"sig\\\\1\"]}],\"output_preprocessed\":false}"
    );
    let only_sig = solver_request("p", &[], &["\u{1}"]).unwrap();
    assert_eq!(
        only_sig,
        "{\"type\":\"player\",\"player\":\"p\",\"requests\":[{\"type\":\"sig\",\"challenges\":[\"\\u0001\"]}],\"output_preprocessed\":false}"
    );
}

#[test]
fn answer_with_both_results() {
    let answer = obj(vec![
        ("type", s("result")),
        (
            "responses",
            Json::Array(vec![
                obj(vec![("type", s("result")), ("data", obj(vec![("abc", s("xyz")), ("skip", Json::Null)]))]),
                obj(vec![("type", s("result")), ("data", obj(vec![("sig1", s("dec1"))]))]),
            ]),
        ),
    ]);
    let out = match read_solver_output(answer, true, true) {
        Ok(o) => o,
        Err(_) => panic!("expected an answer"),
    };
    assert_eq!(out.result.decrypted_n("abc"), Some("xyz".to_string()));
    assert_eq!(out.result.decrypted_n("skip"), None);
    assert_eq!(out.result.decrypted_sig("sig1"), Some("dec1".to_string()));
    assert!(out.warnings.is_empty());
}

#[test]
fn answer_with_failed_response() {
    let answer = obj(vec![(
        "responses",
        Json::Array(vec![obj(vec![("type", s("error")), ("error", s("boom"))])]),
    )]);
    let out = match read_solver_output(answer, false, true) {
        Ok(o) => o,
        Err(_) => panic!("expected an answer"),
    };
    assert_eq!(out.result.decrypted_sig("x"), None);
    assert_eq!(out.warnings.len(), 1);
    assert_eq!(out.warnings[0].kind, ChallengeKind::Sig);
    assert!(matches!(&out.warnings[0].error, Json::Str(e) if e == "boom"));
}

#[test]
fn solver_errors() {
    let failed = obj(vec![("type", s("error")), ("error", Json::Number(JsonNumber::PosInt(3)))]);
    assert!(matches!(
        read_solver_output(failed, true, false),
        Err(SolverError::Failed(Json::Number(JsonNumber::PosInt(3))))
    ));
    let missing = obj(vec![("type", s("result"))]);
    assert!(matches!(read_solver_output(missing, true, false), Err(SolverError::MissingResponses)));
}

#[test]
fn challenge_map_read_after_write() {
    let mut m = ChallengeMap::new();
    m.insert("a".to_string(), "1".to_string());
    m.insert("b".to_string(), "2".to_string());
    m.insert("a".to_string(), "3".to_string());
    assert_eq!(m.get("a").map(|v| v.as_str()), Some("3"));
    assert_eq!(m.get("b").map(|v| v.as_str()), Some("2"));
    assert_eq!(m.get("c"), None);
}

#[test]
fn fallback_to_the_token() {
    let answer = obj(vec![(
        "responses",
        Json::Array(vec![
            obj(vec![("type", s("result")), ("data", obj(vec![("abc", s("xyz"))]))]),
            obj(vec![("type", s("result")), ("data", obj(vec![("sig1", s("dec1"))]))]),
        ]),
    )]);
    let out = match read_solver_output(answer, true, true) {
        Ok(o) => o,
        Err(_) => panic!("expected an answer"),
    };
    assert_eq!(n_value_or_token(Some(&out.result), "abc"), ("xyz".to_string(), true));
    assert_eq!(n_value_or_token(Some(&out.result), "zzz"), ("zzz".to_string(), false));
    assert_eq!(n_value_or_token(None, "abc"), ("abc".to_string(), false));
    assert_eq!(out.result.sig_value_or_token("sig1"), ("dec1".to_string(), true));
    assert_eq!(out.result.sig_value_or_token("other"), ("other".to_string(), false));
}

#[test]
fn answer_read_from_text() {
    let stdout = "  {\"type\":\"result\",\"responses\":[{\"type\":\"result\",\"data\":{\"abc\":\"xyz\"}}]}\n";
    let out = match yt_dlp_rs::solver::read_solver_answer(stdout, true, false) {
        Ok(o) => o,
        Err(_) => panic!("expected an answer"),
    };
    assert_eq!(out.result.decrypted_n("abc"), Some("xyz".to_string()));
    assert!(matches!(
        yt_dlp_rs::solver::read_solver_answer("not json", true, false),
        Err(SolverError::Unparsable(_))
    ));
    assert!(matches!(
        yt_dlp_rs::solver::read_solver_answer("{\"type\":\"error\",\"error\":\"bad\"}", true, false),
        Err(SolverError::Failed(Json::Str(ref e))) if e == "bad"
    ));
}

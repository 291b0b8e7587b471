use openssl::asn1::Asn1Time;
use openssl::bn::BigNum;
use openssl::hash::MessageDigest;
use openssl::pkey::PKey;
use openssl::rsa::Rsa;
use openssl::x509::{X509Builder, X509NameBuilder};
use postgrest::query::{
    bind_params, bound_text, cast_query, cell_value, choose_client, column_decoding,
    column_needs_cast, connect_error, place_texts,
    connection_settings, prepare_step, query_reply, request_policy, row_object, ssl_policy, tls_steps,
    ClientAction, ConnectionKey, Decoding, QueryRequest, TlsAction, TlsError, TlsStep, WireMode,
    DEFAULT_PORT, MAX_CASTS, MAX_CONNECTIONS,
};
use serde_json::Value;
use tokio_postgres::types::{FromSql, Type};

fn request() -> QueryRequest {
    QueryRequest {
        host: " db.example.com\n".to_string(),
        port: None,
        dbname: "app ".to_string(),
        user: "\tme".to_string(),
        password: None,
        sslmode: None,
        sslcert: None,
        sslkey: None,
        sslrootcert: None,
        query: "SELECT 1".to_string(),
        params: None,
    }
}

#[test]
fn missing_fields_count_as_their_defaults_in_a_key() {
    let key = ConnectionKey::from_request(&request());
    assert_eq!(key.host, " db.example.com\n");
    assert_eq!(key.port, 5432);
    assert_eq!(key.dbname, "app ");
    assert_eq!(key.user, "\tme");
    assert_eq!(key.sslmode, "prefer");
    assert_eq!((&*key.password, &*key.sslcert, &*key.sslkey, &*key.sslrootcert), ("", "", "", ""));
    let mut same = request();
    same.port = Some(DEFAULT_PORT);
    same.sslmode = Some("prefer".to_string());
    same.password = Some(String::new());
    same.query = "SELECT 2".to_string();
    assert!(ConnectionKey::from_request(&same) == key);
}

#[test]
fn every_field_of_a_connection_tells_keys_apart() {
    let key = ConnectionKey::from_request(&request());
    let changes: [fn(&mut QueryRequest); 9] = [
        |r| r.host = "db.example.com".to_string(),
        |r| r.port = Some(5433),
        |r| r.dbname = "app".to_string(),
        |r| r.user = "me".to_string(),
        |r| r.password = Some("x".to_string()),
        |r| r.sslmode = Some("allow".to_string()),
        |r| r.sslcert = Some("x".to_string()),
        |r| r.sslkey = Some("x".to_string()),
        |r| r.sslrootcert = Some("x".to_string()),
    ];
    for change in changes {
        let mut r = request();
        change(&mut r);
        assert!(ConnectionKey::from_request(&r) != key);
    }
    assert_eq!(MAX_CONNECTIONS, 100);
}

#[test]
fn ssl_modes_follow_the_table() {
    for (mode, wire, peer, hostname) in [
        ("disable", "disable", false, false),
        ("allow", "prefer", false, false),
        ("prefer", "prefer", false, false),
        ("require", "require", false, false),
        ("verify-ca", "require", true, false),
        ("verify-full", "require", true, true),
        ("", "prefer", false, false),
        ("Require", "prefer", false, false),
    ] {
        let p = ssl_policy(mode);
        assert_eq!((p.pg_sslmode, p.verify_peer, p.verify_hostname), (wire, peer, hostname));
    }
}

#[test]
fn settings_are_trimmed() {
    let mut r = request();
    let s = connection_settings(&r);
    assert_eq!((&*s.host, s.port, &*s.dbname, &*s.user), ("db.example.com", 5432, "app", "me"));
    assert_eq!(s.password, None);
    assert!(matches!(s.mode, WireMode::Prefer));
    r.port = Some(1);
    r.password = Some(" pw\r\n\n".to_string());
    r.sslmode = Some("verify-ca".to_string());
    let s = connection_settings(&r);
    assert_eq!(s.port, 1);
    assert_eq!(s.password, Some(" pw".to_string()));
    assert!(matches!(s.mode, WireMode::Require));
    r.sslmode = Some("disable".to_string());
    assert!(matches!(connection_settings(&r).mode, WireMode::Disable));
}

#[test]
fn requests_with_one_key_open_one_connection() {
    let mut other = request();
    other.port = Some(5432);
    other.sslmode = Some("prefer".to_string());
    assert!(ConnectionKey::from_request(&other) == ConnectionKey::from_request(&request()));
    let (a, b) = (connection_settings(&request()), connection_settings(&other));
    assert_eq!((a.host, a.port, a.dbname, a.user), (b.host, b.port, b.dbname, b.user));
    assert_eq!(a.password, b.password);
}

fn certificate() -> (String, String) {
    let key = PKey::from_rsa(Rsa::generate(2048).unwrap()).unwrap();
    let mut name = X509NameBuilder::new().unwrap();
    name.append_entry_by_text("CN", "db.example.com").unwrap();
    let name = name.build();
    let mut b = X509Builder::new().unwrap();
    b.set_version(2).unwrap();
    b.set_serial_number(&BigNum::from_u32(1).unwrap().to_asn1_integer().unwrap()).unwrap();
    b.set_subject_name(&name).unwrap();
    b.set_issuer_name(&name).unwrap();
    b.set_not_before(&Asn1Time::days_from_now(0).unwrap()).unwrap();
    b.set_not_after(&Asn1Time::days_from_now(1).unwrap()).unwrap();
    b.set_pubkey(&key).unwrap();
    b.sign(&key, MessageDigest::sha256()).unwrap();
    let cert = String::from_utf8(b.build().to_pem().unwrap()).unwrap();
    let key = String::from_utf8(key.private_key_to_pem_pkcs8().unwrap()).unwrap();
    (cert, key)
}

fn kinds(r: &QueryRequest) -> Vec<String> {
    tls_steps(&request_policy(r), r)
        .iter()
        .map(|s| match s {
            TlsStep::VerifyPeer(b) => format!("peer {}", b),
            TlsStep::TrustRoot(p) => format!("root {}", p),
            TlsStep::ClientCertificate(p) => format!("cert {}", p),
            TlsStep::ClientKey(p) => format!("key {}", p),
            TlsStep::VerifyHostname(b) => format!("host {}", b),
        })
        .collect()
}

#[test]
fn tls_is_set_up_in_order() {
    let mut r = request();
    r.sslrootcert = Some("R".to_string());
    r.sslcert = Some("C".to_string());
    r.sslkey = Some("K".to_string());
    assert_eq!(kinds(&r), ["peer false", "cert C", "key K", "host false"]);
    r.sslmode = Some("verify-full".to_string());
    assert_eq!(kinds(&r), ["peer true", "root R", "cert C", "key K", "host true"]);
    r.sslcert = None;
    r.sslkey = None;
    r.sslrootcert = None;
    assert_eq!(kinds(&r), ["peer true", "host true"]);
}

#[test]
fn pems_are_read() {
    let (cert, key) = certificate();
    assert!(matches!(
        prepare_step(&TlsStep::TrustRoot(cert.clone())),
        Ok(TlsAction::TrustRoot(_))
    ));
    match prepare_step(&TlsStep::ClientCertificate(cert.clone())) {
        Ok(TlsAction::ClientCertificate(c)) => {
            assert_eq!(String::from_utf8(c.to_pem().unwrap()).unwrap(), cert)
        }
        _ => panic!("no certificate"),
    }
    assert!(matches!(prepare_step(&TlsStep::ClientKey(key.clone())), Ok(TlsAction::ClientKey(_))));
    assert!(matches!(
        prepare_step(&TlsStep::ClientCertificate(key)),
        Err(TlsError::Certificate(_))
    ));
    assert!(matches!(
        prepare_step(&TlsStep::TrustRoot("x".to_string())),
        Err(TlsError::Certificate(_))
    ));
    assert!(matches!(prepare_step(&TlsStep::ClientKey(cert)), Err(TlsError::PrivateKey(_))));
    assert!(matches!(
        prepare_step(&TlsStep::VerifyPeer(true)),
        Ok(TlsAction::VerifyPeer(true))
    ));
    assert!(matches!(
        prepare_step(&TlsStep::VerifyHostname(false)),
        Ok(TlsAction::VerifyHostname(false))
    ));
}

#[test]
fn a_closed_connection_is_reopened() {
    assert!(matches!(choose_client(Some(false)), ClientAction::Reuse));
    assert!(matches!(choose_client(Some(true)), ClientAction::Reopen));
    assert!(matches!(choose_client(None), ClientAction::Open));
    assert_eq!(connect_error(&vec!["refused".to_string()]), "Failed to connect: refused");
    let causes = vec!["error connecting".to_string(), "refused".to_string(), "os".to_string()];
    assert_eq!(connect_error(&causes), "Failed to connect: error connecting: refused: os");
}

#[test]
fn parameters_are_bound_as_text() {
    let values = [
        Value::from("123"),
        Value::from("a \"b\"\n"),
        Value::from(123),
        Value::Null,
        Value::from(true),
        Value::from(vec![1, 2]),
        Value::from("null"),
    ];
    let params: Vec<String> = values.iter().map(|v| v.to_string()).collect();
    let expected: Vec<String> = values
        .iter()
        .map(|v| match v {
            Value::String(s) => s.clone(),
            other => other.to_string(),
        })
        .collect();
    assert_eq!(bind_params(&Some(params)), expected);
    assert_eq!(expected, ["123", "a \"b\"\n", "123", "null", "true", "[1,2]", "null"]);
    assert!(bind_params(&None).is_empty());
    assert_eq!(bound_text("\"x\"", Some("x".to_string())), "x");
    assert_eq!(bound_text("7", None), "7");
}

#[test]
fn columns_are_read_by_their_types() {
    let decoding = |t: &Type| column_decoding(Some(t.oid())).unwrap();
    assert!(matches!(decoding(&Type::BOOL), Decoding::Bool));
    assert!(matches!(decoding(&Type::INT2), Decoding::Int2));
    assert!(matches!(decoding(&Type::INT4), Decoding::Int4));
    assert!(matches!(decoding(&Type::INT8), Decoding::Int8));
    assert!(matches!(decoding(&Type::FLOAT4), Decoding::Float4));
    assert!(matches!(decoding(&Type::FLOAT8), Decoding::Float8));
    assert!(matches!(decoding(&Type::JSON), Decoding::Json));
    assert!(matches!(decoding(&Type::JSONB), Decoding::Json));
    let mapped = [
        Type::BOOL, Type::INT2, Type::INT4, Type::INT8, Type::FLOAT4, Type::FLOAT8, Type::JSON, Type::JSONB,
    ];
    for oid in 0..20000 {
        if let Some(t) = Type::from_oid(oid) {
            if !mapped.contains(&t) {
                assert!(matches!(decoding(&t), Decoding::Text), "{}", t);
            }
        }
    }
    assert!(column_decoding(None).is_none());
}

#[test]
fn cells_are_turned_into_text_by_a_query() {
    assert_eq!(cast_query(0), "SELECT ");
    assert_eq!(cast_query(1), "SELECT $1::text");
    assert_eq!(cast_query(3), "SELECT $1::text, $2::text, $3::text");
    assert!(cast_query(MAX_CASTS).ends_with(", $1664::text"));
}

#[test]
fn texts_find_their_places() {
    let text = |s: &str| Some(s.to_string());
    let present = vec![false, true, false, true, true, true];
    assert_eq!(
        place_texts(&present, vec![text("a"), None, text("c")]),
        [None, text("a"), None, None, text("c"), None]
    );
    assert!(place_texts(&Vec::new(), vec![text("a")]).is_empty());
}

#[test]
fn only_columns_that_no_value_is_read_from_are_turned_into_text() {
    for oid in 0..20000 {
        if let Some(t) = Type::from_oid(oid) {
            let read = match column_decoding(Some(oid)) {
                Some(Decoding::Text) => <String as FromSql>::accepts(&t),
                _ => true,
            };
            assert_eq!(column_needs_cast(oid), !read, "{}", t);
        }
    }
}

#[test]
fn cells_that_cannot_be_read_are_null() {
    assert_eq!(cell_value(Some(Some(1))), Some(1));
    assert_eq!(cell_value::<i32>(Some(None)), None);
    assert_eq!(cell_value::<i32>(None), None);
}

#[test]
fn rows_become_objects() {
    let column = |n: &str, v: i32| (n.to_string(), Value::from(v));
    let o = row_object(vec![column("id", 1), column("n", 2), column("id", 3)]);
    assert_eq!(o.len(), 2);
    assert_eq!(o["id"], Value::from(3));
    assert_eq!(o["n"], Value::from(2));
    assert!(row_object(vec![]).is_empty());
}

#[test]
fn queries_are_answered() {
    let rows = vec![row_object(vec![("a".to_string(), Value::Null)])];
    let r = query_reply(Ok(rows));
    assert_eq!(r.status, 200);
    assert_eq!(r.body.unwrap().len(), 1);
    let causes = vec!["db error".to_string(), "ERROR: syntax".to_string()];
    let r = query_reply(Err(causes));
    assert_eq!(r.status, 400);
    assert_eq!(r.body.unwrap_err(), "db error: ERROR: syntax");
}

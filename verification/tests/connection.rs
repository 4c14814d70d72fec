use cocoindex::settings::{GlobalExecutionOptions, Settings, SurrealDBConnectionSpec};
use cocoindex::surrealdb_pool::{
    connect_plan, sign_ins, ConnectPlan, Manager, SignIn, HEALTH_QUERY, MAX_POOL_SIZE,
};

fn dbconf(url: &str) -> SurrealDBConnectionSpec {
    SurrealDBConnectionSpec {
        url: url.to_string(),
        namespace: "ns".to_string(),
        database: "db".to_string(),
        user: "root".to_string(),
        password: "secret".to_string(),
    }
}

fn create(url: &str) -> String {
    match (Manager { dbconf: dbconf(url) }).create() {
        Ok(ConnectPlan::Remote { url, namespace, database }) => {
            format!("remote {url} {namespace} {database}")
        }
        Ok(ConnectPlan::Memory { namespace, database }) => format!("memory {namespace} {database}"),
        Err(e) => e.message(),
    }
}

#[test]
fn the_protocol_says_where_to_connect() {
    assert_eq!(create("ws://localhost:8000/rpc"), "remote ws://localhost:8000/rpc ns db");
    assert_eq!(create("wss://h"), "remote wss://h ns db");
    assert_eq!(create("WsS://h"), "remote WsS://h ns db");
    assert_eq!(create("mem://"), "memory test test");
    assert_eq!(create("Mem://whatever"), "memory test test");
}

#[test]
fn other_urls_are_refused() {
    assert_eq!(create("http://h"), "Unsupported protocol: HTTP");
    assert_eq!(create("://h"), "Unsupported protocol: ");
    assert_eq!(create("ws:/h"), "Invalid DB url");
    assert_eq!(create(""), "Invalid DB url");
    assert_eq!(create("a://ws://h"), "Unsupported protocol: A");
    assert_eq!(create("stra\u{df}e://h"), "Unsupported protocol: STRASSE");
}

#[test]
fn the_protocol_is_in_upper_case() {
    let conf = dbconf("ws://h");
    assert!(matches!(connect_plan(&conf, "WS"), Ok(ConnectPlan::Remote { .. })));
    assert_eq!(
        connect_plan(&conf, "ws").unwrap_err().message(),
        "Unsupported protocol: ws"
    );
}

#[test]
fn one_signs_in_to_the_database_first() {
    let ways = sign_ins(&dbconf("ws://h"));
    assert_eq!(ways.len(), 2);
    assert!(matches!(
        &ways[0],
        SignIn::Database { username, password, namespace, database }
            if username == "root" && password == "secret" && namespace == "ns" && database == "db"
    ));
    assert!(matches!(
        &ways[1],
        SignIn::Root { username, password } if username == "root" && password == "secret"
    ));
}

#[test]
fn pools_are_small_and_healthy() {
    assert_eq!(MAX_POOL_SIZE, 10);
    assert_eq!(HEALTH_QUERY, "RETURN 1");
}

#[test]
fn settings_have_defaults() {
    let s = Settings::default();
    assert!(s.database.is_none());
    assert_eq!(s.db_schema_name, None);
    assert_eq!(s.app_namespace, "");
    assert!(!s.ignore_target_drop_failures);
    assert_eq!(s.global_execution_options.source_max_inflight_rows, None);
    let o = GlobalExecutionOptions::default();
    assert_eq!(o.source_max_inflight_bytes, None);
    let conf = dbconf("ws://h");
    let copy = conf.clone();
    assert_eq!(copy.url, conf.url);
    assert_eq!(copy.password, conf.password);
}

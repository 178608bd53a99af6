use wtx::json::Json;
use wtx::lima::{InstanceMeta, PortMap};
use wtx::port::{
    self, add, alloc_host_port, env_json, env_key, inherit_ports, not_armed, not_inherited,
    parse_spec, LabelFault,
};

fn ports(v: &[(&str, u16, u16)]) -> Vec<(String, PortMap)> {
    v.iter()
        .map(|(l, host, guest)| (l.to_string(), PortMap { host: *host, guest: *guest }))
        .collect()
}

fn value(j: &Json) -> serde_json::Value {
    match j {
        Json::Null | Json::Real => serde_json::Value::Null,
        Json::Bool(b) => serde_json::Value::from(*b),
        Json::Num(n) => serde_json::Value::from(*n),
        Json::Str(s) => serde_json::Value::from(s.as_str()),
        Json::Arr(v) => serde_json::Value::Array(v.iter().map(value).collect()),
        Json::Obj(v) => {
            serde_json::Value::Object(v.iter().map(|(k, x)| (k.clone(), value(x))).collect())
        }
    }
}

#[test]
fn port_spec_accepts_labels_and_rejects_invalid_ports() {
    assert_eq!(parse_spec("web-api:3000").unwrap(), ("web-api".to_string(), 3000));
    assert!(parse_spec("api:0").is_err());
    assert!(parse_spec("api:not-a-port").is_err());
    assert!(parse_spec("bad.label:3000").is_err());
}

#[test]
fn labels_map_to_stable_environment_keys() {
    assert_eq!(env_key("web-api"), "WEB_API");
    assert_eq!(env_key("db_2"), "DB_2");
}

#[test]
fn each_label_fault_has_its_input() {
    assert_eq!(parse_spec("api"), Err(LabelFault::Form));
    assert_eq!(parse_spec("api:x"), Err(LabelFault::Guest));
    assert_eq!(parse_spec("api:0"), Err(LabelFault::Range));
    assert_eq!(parse_spec(":1"), Err(LabelFault::Label));
    assert_eq!(
        LabelFault::Form.message("api"),
        "spec must be LABEL:GUESTPORT (e.g. api:3000)"
    );
    assert_eq!(LabelFault::Guest.message("api:x"), "bad guest port in api:x");
    assert_eq!(
        LabelFault::Range.message("api:0"),
        "guest port must be between 1 and 65535"
    );
    assert_eq!(
        LabelFault::Label.message("a.b:1"),
        "label must be alphanumeric/-/_ : a.b"
    );
}

#[test]
fn the_lowest_free_port_is_allocated() {
    assert_eq!(alloc_host_port(&vec![], &vec![]), Some(42000));
    assert_eq!(
        alloc_host_port(&ports(&[("a", 42000, 1)]), &vec![42001, 42003]),
        Some(42002)
    );
    let all: Vec<u16> = (42000..43000).collect();
    assert_eq!(alloc_host_port(&vec![], &all), None);
}

#[test]
fn inherited_ports_keep_labels_and_guests_and_get_new_hosts() {
    let src = ports(&[("api", 42000, 3000), ("web", 42001, 8080)]);
    let (out, missing) = inherit_ports(&src, &vec![42000, 42001]);
    assert_eq!(out, ports(&[("api", 42002, 3000), ("web", 42003, 8080)]));
    assert!(missing.is_empty());
    let mut taken: Vec<u16> = (42000..43000).collect();
    taken.pop();
    let (out, missing) = inherit_ports(&src, &taken);
    assert_eq!(out, ports(&[("api", 42999, 3000)]));
    assert_eq!(missing, ["web"]);
    assert_eq!(
        not_inherited("web"),
        "wtx: warning: port web not inherited: no free host port in 42000-42999"
    );
}

#[test]
fn a_label_keeps_its_host_port() {
    let meta = InstanceMeta {
        ports: ports(&[("web", 42001, 80)]),
        ..Default::default()
    };
    let first = add(&meta, "api:3000", &vec![42000]).unwrap();
    assert_eq!((first.host, first.guest, first.fresh, first.stale), (42002, 3000, true, None));
    assert_eq!(first.line, "api: 127.0.0.1:42002 -> guest 3000 (WTX_PORT_API=42002)");
    assert_eq!(first.meta.ports, ports(&[("api", 42002, 3000), ("web", 42001, 80)]));
    let again = add(&first.meta, "api:3000", &vec![]).unwrap();
    assert_eq!((again.host, again.fresh, again.stale), (42002, false, None));
    assert_eq!(again.meta.ports, first.meta.ports);
    let changed = add(&first.meta, "api:3001", &vec![]).unwrap();
    assert_eq!((changed.host, changed.guest, changed.stale), (42002, 3001, Some(42002)));
    let all: Vec<u16> = (42000..43000).collect();
    assert_eq!(
        add(&meta, "new:1", &all).err(),
        Some("no free host port in 42000-42999".to_string())
    );
    assert_eq!(add(&meta, "new:0", &all).err(), Some(LabelFault::Range.message("new:0")));
}

#[test]
fn the_environment_is_quoted_and_complete() {
    let mut meta = InstanceMeta {
        workdir: "/w/it's".to_string(),
        ports: ports(&[("web-api", 42000, 3000)]),
        ..Default::default()
    };
    assert_eq!(
        port::env("vm", &meta),
        [
            "export WTX_VM_NAME='vm'",
            r"export WTX_WORKDIR='/w/it'\''s'",
            "export WTX_PORT_WEB_API=42000",
        ]
    );
    meta.sim_udid = "U1".to_string();
    meta.sim_devicetype = "iPhone 16".to_string();
    assert_eq!(
        port::env("vm", &meta)[2..4],
        ["export WTX_SIM_UDID='U1'", "export WTX_SIM_DEVICETYPE='iPhone 16'"]
    );
    let doc = value(&env_json("vm", &meta));
    assert_eq!(doc["vm"], "vm");
    assert_eq!(doc["workdir"], "/w/it's");
    assert_eq!(doc["sim_udid"], "U1");
    assert_eq!(doc["sim_devicetype"], "iPhone 16");
    assert_eq!(doc["ports"]["web-api"]["host"], 42000);
    assert_eq!(doc["ports"]["web-api"]["guest"], 3000);
    match env_json("vm", &meta) {
        Json::Obj(m) => {
            let keys: Vec<&str> = m.iter().map(|(k, _)| k.as_str()).collect();
            assert_eq!(keys, ["ports", "sim_devicetype", "sim_udid", "vm", "workdir"]);
        }
        _ => panic!("expected an object"),
    }
    assert_eq!(not_armed("api", "boom"), "wtx: warning: forward api not armed: boom");
}

#[test]
fn mappings_stay_in_the_order_of_their_labels() {
    let mut meta = wtx::lima::InstanceMeta::default();
    for spec in ["web:80", "api:3000", "db:5432", "api:3001"] {
        meta = add(&meta, spec, &vec![]).unwrap().meta;
    }
    let labels: Vec<&str> = meta.ports.iter().map(|(l, _)| l.as_str()).collect();
    assert_eq!(labels, ["api", "db", "web"]);
    let (out, _) = inherit_ports(&meta.ports, &vec![]);
    let inherited: Vec<&str> = out.iter().map(|(l, _)| l.as_str()).collect();
    assert_eq!(inherited, labels);
}

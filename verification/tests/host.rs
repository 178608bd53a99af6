use wtx::json::{self, Json};
use wtx::launchd;
use wtx::lima::{InstanceMeta, PortMap};
use wtx::mirror::{
    after_response, after_token, apply_to_vm, blob_answer, blob_path, blob_range, content_range,
    default_mirrors, dispatch, handle_blob, handle_manifest, idle, mirror_config, mirror_entries,
    mirror_port, passes_header, pick_token, received_blob, recorded_pid, startup, status,
    token_request, up_line, upstream_for, upstream_url, BlobAnswer, BlobPlan, Exchange,
    MirrorEntry, Next, RangeAnswer, Route, Startup,
};
use wtx::plan::{OnFail, Step, Verb};
use wtx::sim;

fn lines(steps: &[Step]) -> Vec<String> {
    steps
        .iter()
        .map(|s| format!("{:?} {}", s.verb, s.args.join(" ")))
        .collect()
}

fn known(config: &[MirrorEntry]) -> Vec<(&str, u16, &str)> {
    config
        .iter()
        .map(|e| (e.registry.as_str(), e.port, e.upstream.as_str()))
        .collect()
}

#[test]
fn mirrors_come_from_the_file_or_by_default() {
    let expected = [("docker.io", 5001, "https://registry-1.docker.io")];
    for file in [None, Some("{}"), Some("nonsense"), Some("{\"a\": 65536}"), Some("{\"a\": \"1\"}")] {
        assert_eq!(known(&mirror_config(file)), expected, "{file:?}");
    }
    assert_eq!(
        known(&mirror_config(Some("{\"z.io\": 7, \"docker.io\": 8}"))),
        [
            ("docker.io", 8, "https://registry-1.docker.io"),
            ("z.io", 7, "https://z.io")
        ]
    );
    assert_eq!(
        known(&mirror_config(Some("{\"quay.io\": 5003, \"ghcr.io\": 5002}"))),
        [
            ("ghcr.io", 5002, "https://ghcr.io"),
            ("quay.io", 5003, "https://quay.io")
        ]
    );
    assert_eq!(default_mirrors(), [("docker.io".to_string(), 5001)]);
    assert_eq!(known(&mirror_entries(Some(vec![]))), expected);
    assert_eq!(upstream_for("quay.io"), "https://quay.io");
}

#[test]
fn vms_use_the_port_of_docker_hub() {
    let config = mirror_config(Some("{\"docker.io\": 8, \"a.io\": 9}"));
    assert_eq!(mirror_port(None, &config), 8);
    assert_eq!(mirror_port(Some("6000"), &config), 6000);
    assert_eq!(mirror_port(Some("x"), &config), 8);
    assert_eq!(mirror_port(None, &mirror_config(Some("{\"a.io\": 9}"))), 5001);
}

#[test]
fn vms_are_pointed_to_the_mirrors() {
    let config = mirror_config(Some("{\"a.io\": 9}"));
    assert_eq!(
        apply_to_vm(&config),
        "set -eu\nsudo mkdir -p /etc/containerd/certs.d/a.io\nsudo tee /etc/containerd/certs.d/a.io/hosts.toml >/dev/null <<'EOF'\nserver = \"https://a.io\"\n\n[host.\"http://host.lima.internal:9\"]\n  capabilities = [\"pull\", \"resolve\"]\n  skip_verify = true\nEOF\n"
    );
}

#[test]
fn challenges_become_token_requests() {
    let r = token_request(
        " Bearer realm=\"https://auth.docker.io/token\",service=\"registry.docker.io\", scope=\"repository:library/alpine:pull\"",
    )
    .unwrap();
    assert_eq!(r.realm, "https://auth.docker.io/token");
    assert_eq!(
        r.query,
        [
            ("scope".to_string(), "repository:library/alpine:pull".to_string()),
            ("service".to_string(), "registry.docker.io".to_string()),
        ]
    );
    assert!(token_request("Basic realm=\"x\"").is_none());
    assert!(token_request("Bearer service=\"x\"").is_none());
    assert_eq!(pick_token("t".into(), "a".into()).as_deref(), Some("t"));
    assert_eq!(pick_token("".into(), "a".into()).as_deref(), Some("a"));
    assert_eq!(pick_token("".into(), "".into()), None);
}

#[test]
fn a_refused_request_is_sent_once_more() {
    assert_eq!(after_response(Exchange::First, 401), Next::Authenticate);
    assert_eq!(after_response(Exchange::First, 404), Next::Deliver);
    assert_eq!(after_response(Exchange::Second, 401), Next::Deliver);
    assert_eq!(after_token(true), Some(Exchange::Second));
    assert_eq!(after_token(false), None);
    assert_eq!(upstream_url("https://a.io", "/v2/x"), "https://a.io/v2/x");
}

#[test]
fn requests_are_told_apart() {
    assert!(matches!(
        dispatch("library/alpine/manifests/latest"),
        Route::Manifest(n, r) if n == "library/alpine" && r == "latest"
    ));
    assert!(matches!(
        dispatch("a/blobs/b/blobs/sha256:1"),
        Route::Blob(n, d) if n == "a/blobs/b" && d == "sha256:1"
    ));
    assert!(matches!(dispatch("a/tags/list"), Route::NotFound));
    assert_eq!(handle_manifest("a/b", "latest"), "/v2/a/b/manifests/latest");
    assert!(passes_header("content-type") && passes_header("etag"));
    assert!(passes_header("docker-content-digest") && !passes_header("set-cookie"));
}

#[test]
fn blobs_are_cached_by_digest() {
    assert_eq!(
        blob_path("/c", "sha256:0123abcd").as_deref(),
        Some("/c/blobs/sha256/0123abcd")
    );
    assert_ne!(blob_path("/c", "sha256:0123abcd"), blob_path("/c", "sha256:0123abce"));
    for bad in ["0123abcd", "sha256:0123abc", "sha256:../../etc/passwd", "sha256:0123abc/"] {
        assert_eq!(blob_path("/c", bad), None, "{bad}");
        assert!(matches!(handle_blob("/c", "n", bad), BlobPlan::BadDigest));
    }
    assert!(matches!(
        handle_blob("/c", "a/b", "sha256:0123abcd"),
        BlobPlan::Serve { file, temporary, upstream }
            if file == "/c/blobs/sha256/0123abcd"
                && temporary == "/c/blobs/sha256/0123abcd.tmp"
                && upstream == "/v2/a/b/blobs/sha256:0123abcd"
    ));
}

#[test]
fn only_verified_blobs_are_kept() {
    assert_eq!(blob_answer(200, "sha256:ab", "ab"), BlobAnswer::Keep);
    assert_eq!(blob_answer(299, "sha256:ab", "ab"), BlobAnswer::Keep);
    assert_eq!(blob_answer(200, "sha256:ab", "ac"), BlobAnswer::Pass);
    assert_eq!(blob_answer(200, "sha512:ab", "ab"), BlobAnswer::Pass);
    assert_eq!(blob_answer(307, "sha256:ab", "ab"), BlobAnswer::Refuse(307));
    assert_eq!(blob_answer(404, "sha256:ab", "ac"), BlobAnswer::Refuse(404));

    let abc = "sha256:ba7816bf8f01cfea414140de5dae2223b00361a396177a9cb410ff61f20015ad";
    let none = "sha256:e3b0c44298fc1c149afbf4c8996fb92427ae41e4649b934ca495991b7852b855";
    assert_eq!(received_blob(200, abc, b"abc"), BlobAnswer::Keep);
    assert_eq!(received_blob(200, none, b""), BlobAnswer::Keep);
    assert_eq!(received_blob(200, abc, b"abd"), BlobAnswer::Pass);
    assert_eq!(received_blob(500, abc, b"abc"), BlobAnswer::Refuse(500));
}

#[test]
fn ranges_are_parts_of_a_blob() {
    let part = |h: &str| blob_range(Some(h), 10);
    assert_eq!(blob_range(None, 10), RangeAnswer::Whole);
    assert_eq!(part("bytes=0-3"), RangeAnswer::Part(0, 3));
    assert_eq!(part(" bytes=4- "), RangeAnswer::Part(4, 9));
    assert_eq!(part("bytes=4-99"), RangeAnswer::Part(4, 9));
    assert_eq!(part("bytes=-3"), RangeAnswer::Part(7, 9));
    assert_eq!(part("bytes=-30"), RangeAnswer::Part(0, 9));
    assert_eq!(part("bytes=10-"), RangeAnswer::Unsatisfiable);
    assert_eq!(part("bytes=-0"), RangeAnswer::Unsatisfiable);
    assert_eq!(blob_range(Some("bytes=-1"), 0), RangeAnswer::Unsatisfiable);
    for whole in ["bytes=3-1", "bytes=0-1,4-5", "bytes=+1-2", "bytes=x-", "items=0-1", "bytes=-"] {
        assert_eq!(part(whole), RangeAnswer::Whole, "{whole}");
    }
    assert_eq!(content_range(RangeAnswer::Whole, 10), None);
    assert_eq!(
        content_range(RangeAnswer::Part(4, 9), 10).as_deref(),
        Some("bytes 4-9/10")
    );
    assert_eq!(
        content_range(RangeAnswer::Unsatisfiable, 10).as_deref(),
        Some("bytes */10")
    );
}

#[test]
fn the_mirror_lives_on_demand() {
    assert!(!idle(1600, 1000));
    assert!(idle(1601, 1000));
    assert!(!idle(i64::MIN, i64::MAX));
    assert_eq!(startup(true, 0), Startup::Up);
    assert_eq!(startup(false, 19), Startup::Wait);
    assert_eq!(startup(true, 20), Startup::Failed);
    assert_eq!(recorded_pid(" 4711\n"), Some(4711));
    assert_eq!(recorded_pid("x"), None);
    assert_eq!(up_line(5001), "mirror: up (127.0.0.1:5001 and others)");
    let config = mirror_config(Some("{\"a.io\": 9, \"b.io\": 10}"));
    assert_eq!(
        status(false, &config, &vec![10]),
        [
            "mode: manual (wtx mirror up)",
            "  a.io             :9  down",
            "  b.io             :10  up",
        ]
    );
    assert_eq!(
        status(true, &vec![], &vec![]),
        ["mode: launchd on-demand (starts on access, exits after 10 min idle)"]
    );
}

#[test]
fn the_launch_agent_is_installed_and_removed() {
    let config = mirror_config(Some("{\"a.io\": 9}"));
    let steps = launchd::install("/h", 501, "/bin/wtx", &config);
    let file = "/h/Library/LaunchAgents/com.wtx.mirror.plist";
    assert_eq!(launchd::plist_path("/h"), file);
    assert_eq!(lines(&steps)[0], "Launchctl bootout gui/501/com.wtx.mirror");
    assert_eq!(steps[0].on_fail, OnFail::Ignore);
    assert_eq!(steps[1].args[0], file);
    assert_eq!(
        steps[1].args[1],
        launchd::plist("/bin/wtx", &config, "/h/.wtx/mirror.log")
    );
    assert!(steps[1].args[1].contains("<string>/bin/wtx</string><string>mirror</string>"));
    assert!(steps[1].args[1].contains("<key>a.io</key>\n    <dict>\n      <key>SockNodeName</key><string>127.0.0.1</string>\n      <key>SockServiceName</key><string>9</string>"));
    assert_eq!(lines(&steps)[2], format!("Launchctl bootstrap gui/501 {file}"));
    assert_eq!(
        steps[3].args[0],
        "mirror: registered with launchd; it starts on demand and no process stays resident"
    );
    assert_eq!(steps[3].verb, Verb::Say);
    let steps = launchd::uninstall("/h", 501);
    assert_eq!(lines(&steps)[1], format!("RemoveManaged {file}"));
    assert_eq!(steps[2].args[0], "mirror: unregistered from launchd");
}

fn doc(s: &str) -> Json {
    json::parse(s).unwrap()
}

#[test]
fn the_newest_runtime_is_chosen() {
    let d = doc(
        "{\"runtimes\": [
          {\"isAvailable\": true, \"identifier\": \"x.SimRuntime.iOS-18-2\", \"version\": \"18.2\"},
          {\"isAvailable\": true, \"identifier\": \"x.SimRuntime.iOS-9-3\", \"version\": \"9.3.1\"},
          {\"isAvailable\": false, \"identifier\": \"x.SimRuntime.iOS-26-0\", \"version\": \"26.0\"},
          {\"isAvailable\": true, \"identifier\": \"x.SimRuntime.tvOS-30\", \"version\": \"30\"}
        ]}",
    );
    let r = sim::newest_ios_runtime(&d).unwrap();
    assert_eq!(json::as_text(json::get(r, "version")), Some("18.2"));
    assert_eq!(
        sim::newest_ios_runtime(&doc("{}")).err().unwrap(),
        "no iOS simulator runtime installed (install one via Xcode)"
    );
}

const RUNTIME: &str = "{\"identifier\": \"rt\", \"supportedDeviceTypes\": [
  {\"productFamily\": \"iPhone\", \"identifier\": \"i16\", \"name\": \"iPhone 16\"},
  {\"productFamily\": \"iPhone\", \"identifier\": \"i15\", \"name\": \"iPhone 15\"},
  {\"productFamily\": \"iPad\", \"identifier\": \"p\", \"name\": \"iPad\"}
]}";

const CATALOG: &str = "{\"devicetypes\": [
  {\"identifier\": \"p\", \"minRuntimeVersion\": 9999999},
  {\"identifier\": \"i15\", \"minRuntimeVersion\": 1114112},
  {\"identifier\": \"i16\", \"minRuntimeVersion\": 1179648}
]}";

#[test]
fn the_newest_iphone_is_the_default() {
    let (id, name) = sim::default_device(&doc(RUNTIME), &doc(CATALOG)).unwrap();
    assert_eq!((id.as_str(), name.as_str()), ("i16", "iPhone 16"));
    let (id, _) = sim::default_device(&doc(RUNTIME), &doc("{}")).unwrap();
    assert_eq!(id, "i15");
    assert_eq!(
        sim::default_device(&doc("{}"), &doc(CATALOG)).err().unwrap(),
        "no iPhone device type for the newest runtime"
    );
    let c = sim::create_device("vm", None, &doc(RUNTIME), &doc(CATALOG)).unwrap();
    assert_eq!(c.args, ["simctl", "create", "wtx-vm", "i16", "rt"]);
    assert_eq!(c.device_type, "iPhone 16");
    let c = sim::create_device("vm", Some("iPhone SE"), &doc(RUNTIME), &doc("{}")).unwrap();
    assert_eq!(c.args, ["simctl", "create", "wtx-vm", "iPhone SE", "rt"]);
    assert_eq!(c.device_type, "iPhone SE");
    assert!(sim::create_device("vm", None, &doc("{}"), &doc("{}")).is_err());
}

const DEVICES: &str = "{\"devices\": {
  \"r1\": [{\"udid\": \"A\", \"state\": \"Shutdown\"}, {\"udid\": \"B\"}],
  \"r2\": [{\"udid\": \"C\", \"state\": \"Booted\"}]
}}";

#[test]
fn device_states_are_looked_up() {
    let d = doc(DEVICES);
    let at = |u: &str| sim::device_state(&d, u);
    assert_eq!(at("A"), Some(("Shutdown".to_string(), "r1".to_string())));
    assert_eq!(at("B"), Some(("?".to_string(), "r1".to_string())));
    assert_eq!(at("X"), None);
    let wanted: Vec<String> = ["C", "B", "X"].iter().map(|s| s.to_string()).collect();
    let expected = vec![("C".to_string(), "Booted".to_string())];
    assert_eq!(sim::states_for(&wanted, Some(&d)), expected);
    assert_eq!(sim::states_from(&wanted, DEVICES), expected);
    assert!(sim::states_from(&wanted, "{").is_empty());
    assert!(sim::states_for(&wanted, None).is_empty());
    assert_eq!(sim::udid_of("warning\n U-1 \n"), "U-1");
    assert_eq!(sim::udid_of(""), "");
}

fn meta() -> InstanceMeta {
    InstanceMeta {
        workdir: "/w".into(),
        sim_udid: "U".into(),
        sim_devicetype: "iPhone".into(),
        ports: vec![(
            "api".to_string(),
            PortMap {
                host: 42000,
                guest: 3000,
            },
        )],
        ..Default::default()
    }
}

#[test]
fn devices_are_ensured_and_deleted() {
    let m = meta();
    assert_eq!(sim::ensure_device(&m, true), sim::DeviceNeed::Ready);
    assert_eq!(sim::ensure_device(&m, false), sim::DeviceNeed::Replace);
    assert_eq!(
        sim::ensure_device(&InstanceMeta::default(), true),
        sim::DeviceNeed::Create
    );
    let (steps, cleared) = sim::rm(&m).unwrap();
    assert_eq!(lines(&steps), ["Xcrun simctl shutdown U", "Xcrun simctl delete U"]);
    assert_eq!(steps[1].done, "deleted simulator U");
    assert_eq!((cleared.sim_udid.as_str(), cleared.workdir.as_str()), ("", "/w"));
    assert!(sim::rm(&InstanceMeta::default()).is_none());
    assert!(sim::delete_device("", false).is_empty());
    assert_eq!(sim::delete_device("U", true)[1].done, "");
    let m = sim::record_device(m, "V", "iPad");
    assert_eq!((m.sim_udid.as_str(), m.sim_devicetype.as_str()), ("V", "iPad"));
}

#[test]
fn a_booted_source_device_is_booted_again() {
    let c = sim::clone_device("U", "vm", Some("Booted"), true);
    assert!(c.booted);
    assert_eq!(
        lines(&c.before),
        [
            "Say shutting down the source simulator for a consistent copy...",
            "Xcrun simctl shutdown U",
        ]
    );
    assert_eq!(c.args, ["simctl", "clone", "U", "wtx-vm"]);
    assert_eq!(
        lines(&sim::device_cloned("U", "vm", "V", true, true)),
        ["Xcrun simctl boot U", "Say cloned simulator -> wtx-vm (V)"]
    );
    let c = sim::clone_device("U", "vm", Some("Shutdown"), true);
    assert!(!c.booted && c.before.is_empty());
    assert!(sim::device_cloned("U", "vm", "V", false, false).is_empty());
}

#[test]
fn device_status_is_reported() {
    let device = Some(("Booted".to_string(), "r2".to_string()));
    assert_eq!(
        sim::status("vm", &meta(), &device, &vec![42000]),
        [
            "vm: wtx-vm (U) Booted [r2]",
            "  api: host 42000 -> guest 3000 [armed]",
        ]
    );
    assert_eq!(
        sim::status("vm", &meta(), &None, &vec![]),
        [
            "vm: recorded simulator U is missing (recreate with `wtx sim up`)",
            "  api: host 42000 -> guest 3000 [down]",
        ]
    );
    assert_eq!(
        sim::status("vm", &InstanceMeta::default(), &None, &vec![]),
        ["vm: no simulator (create one with `wtx sim up`)"]
    );
    match sim::status_json("vm", &meta(), &None, &vec![]) {
        Json::Obj(m) => {
            let keys: Vec<&str> = m.iter().map(|(k, _)| k.as_str()).collect();
            assert_eq!(
                keys,
                ["ports", "sim_devicetype", "sim_runtime", "sim_state", "sim_udid", "vm"]
            );
            assert!(matches!(m[3].1, Json::Null));
        }
        _ => panic!("expected an object"),
    }
    assert_eq!(sim::no_device("vm"), "no simulator recorded for vm");
    assert_eq!(sim::device_ready("vm", "U"), "simulator ready: wtx-vm (U)");
    assert_eq!(
        sim::device_created("vm", "iPhone", "U"),
        "created simulator wtx-vm (iPhone, U)"
    );
    assert_eq!(
        sim::device_gone("U"),
        "wtx: recorded simulator U is gone; creating a new one"
    );
    let args: Vec<String> = ["simctl", "list"].iter().map(|s| s.to_string()).collect();
    assert_eq!(sim::xcrun_error(&args, " no\n"), "xcrun simctl list failed: no");
}

use std::path::{Path, PathBuf};

use omniget::files::{split_file_name, Platform};
use omniget::native_host::{
    build_host_manifest, chrome_integration_dir, chrome_manifest_path,
    chrome_manifest_path_from_base, copy_host_exe, ensure_registered, handle_request,
    host_config_path, host_copy_name, launch_response, read_message, register_host_manifest,
    registration_outcome, run_native_host, should_copy_exe, should_run_as_native_host,
    write_host_config, write_host_manifest, write_message, HostAction, HostError, HostEvent,
    HostPath, NativeHostRequest, RegistrationStep, RequestDecision, CHROME_EXTENSION_ID,
    CHROME_HOST_NAME, HOST_CONFIG_NAME, HOST_MANIFEST_NAME,
};

fn to_path(p: &HostPath) -> PathBuf {
    p.parts.iter().fold(PathBuf::from(&p.base), |path, part| path.join(part))
}

fn request(kind: &str, url: &str) -> NativeHostRequest {
    NativeHostRequest { kind: kind.to_string(), url: url.to_string() }
}

#[test]
fn host_copy_name_matches_platform() {
    assert_eq!(host_copy_name(Platform::Windows), "omniget-native-host.exe");
    assert_eq!(host_copy_name(Platform::Linux), "omniget-native-host");
    assert_eq!(host_copy_name(Platform::MacOs), "omniget-native-host");
    assert_eq!(host_copy_name(Platform::Other), "omniget-native-host");
}

#[test]
fn manifest_path_from_base_matches_platform_location() {
    let windows = r"C:\Users\test\AppData\Roaming\omniget\chrome-native-host";
    let base = Path::new(windows);
    let manifest_path = chrome_manifest_path_from_base(Platform::Windows, &HostPath::new(windows));
    assert_eq!(to_path(&manifest_path), base.join(HOST_MANIFEST_NAME));

    let base = Path::new("/tmp/chrome-base");
    let manifest_path =
        chrome_manifest_path_from_base(Platform::Linux, &HostPath::new("/tmp/chrome-base"));
    assert_eq!(
        to_path(&manifest_path),
        base.join("google-chrome").join("NativeMessagingHosts").join(HOST_MANIFEST_NAME)
    );

    let manifest_path =
        chrome_manifest_path_from_base(Platform::MacOs, &HostPath::new("/tmp/chrome-base"));
    assert_eq!(
        to_path(&manifest_path),
        base.join("Google").join("Chrome").join("NativeMessagingHosts").join(HOST_MANIFEST_NAME)
    );
}

#[test]
fn build_host_manifest_contains_expected_fields() {
    for exe in [r"C:\tmp\omniget-native-host.exe", "/tmp/omniget-native-host"] {
        let host_exe = Path::new(exe);
        let manifest = build_host_manifest(&host_exe.to_string_lossy());

        assert_eq!(manifest["name"].as_str(), Some(CHROME_HOST_NAME));
        assert_eq!(manifest["description"].as_str(), Some("OmniGet native host for Chrome"));
        assert_eq!(manifest["path"].as_str(), Some(host_exe.to_string_lossy().as_ref()));
        assert_eq!(manifest["type"].as_str(), Some("stdio"));
        assert_eq!(
            manifest["allowed_origins"][0].as_str(),
            Some(format!("chrome-extension://{CHROME_EXTENSION_ID}/").as_str())
        );
        assert_eq!(manifest["allowed_origins"].as_array().map(|a| a.len()), Some(1));
        assert_eq!(manifest.as_object().map(|o| o.len()), Some(5));
    }
}

#[test]
fn manifest_is_printed_with_sorted_fields() {
    let bytes = write_host_manifest("/tmp/h \"x\"");
    let text = String::from_utf8(bytes).unwrap();
    assert_eq!(
        text,
        "{\n  \"allowed_origins\": [\n    \"chrome-extension://dkjelkhaaakffpghdfalobccaaipajip/\"\n  ],\n  \"description\": \"OmniGet native host for Chrome\",\n  \"name\": \"wtf.tonho.omniget\",\n  \"path\": \"/tmp/h \\\"x\\\"\",\n  \"type\": \"stdio\"\n}"
    );
}

#[test]
fn config_names_the_app() {
    let bytes = write_host_config("/opt/omniget");
    assert_eq!(String::from_utf8(bytes).unwrap(), "{\n  \"app_path\": \"/opt/omniget\"\n}");
}

#[test]
fn host_runs_under_its_own_name_only() {
    assert!(should_run_as_native_host(Some("omniget-native-host")));
    assert!(should_run_as_native_host(Some("OmniGet-Native-HOST")));
    assert!(!should_run_as_native_host(Some("omniget")));
    assert!(!should_run_as_native_host(Some("omniget-native-hosT2")));
    assert!(!should_run_as_native_host(Some("omniget_native_host")));
    assert!(!should_run_as_native_host(None));
}

#[test]
fn copied_host_runs_as_host() {
    for platform in [Platform::Windows, Platform::Linux, Platform::MacOs, Platform::Other] {
        let (stem, _) = split_file_name(host_copy_name(platform));
        assert!(should_run_as_native_host(Some(&stem)));
        let name = Path::new(host_copy_name(platform));
        assert_eq!(name.file_stem().unwrap().to_str(), Some(stem.as_str()));
    }
}

#[test]
fn integration_dir_falls_back_to_the_current_one() {
    assert_eq!(
        to_path(&chrome_integration_dir(Some("/data"))),
        Path::new("/data").join("chrome-native-host")
    );
    assert_eq!(to_path(&chrome_integration_dir(None)), Path::new(".").join("chrome-native-host"));
}

#[test]
fn manifest_path_needs_the_right_directory() {
    let dir = HostPath::new("/i");
    let linux = chrome_manifest_path(Platform::Linux, &dir, Some("/c"), None);
    assert_eq!(
        to_path(&linux.ok().unwrap()),
        Path::new("/c/google-chrome/NativeMessagingHosts").join(HOST_MANIFEST_NAME)
    );
    let windows = chrome_manifest_path(Platform::Windows, &dir, None, None);
    assert_eq!(to_path(&windows.ok().unwrap()), Path::new("/i").join(HOST_MANIFEST_NAME));
    let mac = chrome_manifest_path(Platform::MacOs, &dir, None, Some("/d"));
    assert_eq!(
        to_path(&mac.ok().unwrap()),
        Path::new("/d/Google/Chrome/NativeMessagingHosts").join(HOST_MANIFEST_NAME)
    );
    assert_eq!(
        chrome_manifest_path(Platform::Linux, &dir, None, Some("/d")).err(),
        Some(HostError::NoConfigDir)
    );
    assert_eq!(
        chrome_manifest_path(Platform::MacOs, &dir, Some("/c"), None).err(),
        Some(HostError::NoDataDir)
    );
    assert_eq!(
        chrome_manifest_path(Platform::Other, &dir, Some("/c"), Some("/d")).err(),
        Some(HostError::UnsupportedPlatform)
    );
}

#[test]
fn error_texts() {
    assert_eq!(
        HostError::NoConfigDir.message(),
        "Could not resolve the Linux config directory for Chrome native host registration"
    );
    assert_eq!(
        HostError::NoDataDir.message(),
        "Could not resolve the macOS Application Support directory for Chrome native host registration"
    );
    assert_eq!(
        HostError::UnsupportedPlatform.message(),
        "Chrome native host registration is unsupported on this platform"
    );
    assert_eq!(HostError::RegistrationFailed.message(), "Failed to register Chrome native host");
    assert_eq!(
        HostError::MessageTooLarge { length: 1_048_577 }.message(),
        "Native message too large (1048577 bytes, max 1048576)"
    );
}

#[test]
fn registration_steps_fit_together() {
    let steps =
        ensure_registered(Platform::Linux, "/opt/omniget", Some("/data"), Some("/cfg"), None);
    assert_eq!(steps.len(), 6);
    let dir = Path::new("/data/chrome-native-host");
    assert!(matches!(&steps[0], RegistrationStep::CreateDir(p) if to_path(p) == dir));
    let host = dir.join("omniget-native-host");
    assert!(matches!(&steps[1], RegistrationStep::CopyHost { source, dest }
        if to_path(source) == Path::new("/opt/omniget") && to_path(dest) == host));
    let config = dir.join(HOST_CONFIG_NAME);
    assert!(matches!(&steps[2], RegistrationStep::WriteConfig { config: p, app_path }
        if to_path(p) == config && app_path == "/opt/omniget"));
    let beside = host.parent().unwrap().to_str();
    assert_eq!(to_path(&host_config_path(beside)), config);
    let target = Path::new("/cfg/google-chrome/NativeMessagingHosts").join(HOST_MANIFEST_NAME);
    assert!(matches!(&steps[3], RegistrationStep::CreateParent(p) if to_path(p) == target));
    assert!(matches!(&steps[4], RegistrationStep::WriteManifest { manifest, host: h }
        if to_path(manifest) == target && to_path(h) == host));
    assert!(matches!(&steps[5], RegistrationStep::Register(p) if to_path(p) == target));
}

#[test]
fn registration_fails_after_the_files_were_written() {
    let steps = ensure_registered(Platform::Linux, "/opt/omniget", None, None, None);
    assert_eq!(steps.len(), 4);
    assert!(matches!(steps[3], RegistrationStep::Fail(HostError::NoConfigDir)));
    let config = Path::new("./chrome-native-host").join(HOST_CONFIG_NAME);
    assert!(matches!(&steps[2], RegistrationStep::WriteConfig { config: p, .. }
        if to_path(p) == config));
}

#[test]
fn host_config_lies_beside_the_host() {
    assert_eq!(to_path(&host_config_path(None)), Path::new(".").join(HOST_CONFIG_NAME));
}

#[test]
fn copy_is_made_only_where_needed() {
    assert!(should_copy_exe(None, Some(3)));
    assert!(should_copy_exe(Some(3), None));
    assert!(should_copy_exe(Some(3), Some(4)));
    assert!(!should_copy_exe(Some(3), Some(3)));
    assert!(!copy_host_exe(true, Some(3), Some(4)));
    assert!(copy_host_exe(false, Some(3), Some(4)));
    assert!(!copy_host_exe(false, Some(3), Some(3)));
}

#[test]
fn only_windows_is_told_of_the_manifest() {
    let args = register_host_manifest(Platform::Windows, r"C:\m.json").unwrap();
    assert_eq!(
        args,
        vec![
            "add",
            r"HKCU\Software\Google\Chrome\NativeMessagingHosts\wtf.tonho.omniget",
            "/ve",
            "/t",
            "REG_SZ",
            "/d",
            r"C:\m.json",
            "/f",
        ]
    );
    assert!(register_host_manifest(Platform::Linux, "/m.json").is_none());
    assert!(register_host_manifest(Platform::MacOs, "/m.json").is_none());
    assert_eq!(registration_outcome(true), Ok(()));
    assert_eq!(registration_outcome(false), Err(HostError::RegistrationFailed));
}

#[test]
fn unknown_requests_are_refused() {
    match handle_request(&request("ping", "https://example.com"), true) {
        RequestDecision::Respond(answer) => {
            assert!(!answer.ok);
            assert_eq!(answer.code, Some("INVALID_URL"));
            assert_eq!(answer.message.as_deref(), Some("Unsupported native host message"));
        }
        RequestDecision::Launch(_) => panic!("launched"),
    }
}

#[test]
fn foreign_addresses_are_refused() {
    match handle_request(&request("enqueue", "file:///etc/passwd"), false) {
        RequestDecision::Respond(answer) => {
            assert!(!answer.ok);
            assert_eq!(answer.code, Some("INVALID_URL"));
            assert_eq!(answer.message.as_deref(), Some("The requested URL is invalid"));
        }
        RequestDecision::Launch(_) => panic!("launched"),
    }
}

#[test]
fn external_addresses_are_launched() {
    match handle_request(&request("enqueue", "https://example.com/v"), true) {
        RequestDecision::Launch(url) => assert_eq!(url, "https://example.com/v"),
        RequestDecision::Respond(_) => panic!("refused"),
    }
    let good = launch_response(None);
    assert!(good.ok && good.code.is_none() && good.message.is_none());
    let bad = launch_response(Some("no such file"));
    assert!(!bad.ok);
    assert_eq!(bad.code, Some("LAUNCH_FAILED"));
    assert_eq!(bad.message.as_deref(), Some("no such file"));
}

#[test]
fn message_lengths_are_little_endian_and_limited() {
    assert_eq!(read_message(&[0x02, 0x01, 0, 0]), Ok(258));
    assert_eq!(read_message(&[0, 0, 0x10, 0]), Ok(1_048_576));
    assert_eq!(
        read_message(&[1, 0, 0x10, 0]),
        Err(HostError::MessageTooLarge { length: 1_048_577 })
    );
    assert_eq!(
        read_message(&[0xff; 4]),
        Err(HostError::MessageTooLarge { length: u32::MAX })
    );
}

#[test]
fn written_messages_are_read_back() {
    for n in [0usize, 1, 255, 256, 70_000] {
        let payload: Vec<u8> = (0..n).map(|i| (i % 251) as u8).collect();
        let frame = write_message(&payload);
        let header = [frame[0], frame[1], frame[2], frame[3]];
        assert_eq!(header, (n as u32).to_le_bytes());
        assert_eq!(read_message(&header), Ok(n as u32));
        assert_eq!(&frame[4..], payload.as_slice());
    }
}

#[test]
fn host_answers_step_by_step() {
    assert!(matches!(run_native_host(&HostEvent::Header([5, 0, 0, 0])), HostAction::ReadPayload(5)));
    assert!(matches!(
        run_native_host(&HostEvent::Header([0, 0, 0, 1])),
        HostAction::Fail(HostError::MessageTooLarge { length: 0x100_0000 })
    ));
    let event =
        HostEvent::Request { request: request("enqueue", "https://a.b"), url_is_external: true };
    assert!(matches!(run_native_host(&event), HostAction::Launch(u) if u == "https://a.b"));
    let event =
        HostEvent::Request { request: request("enqueue", "https://a.b"), url_is_external: false };
    assert!(matches!(run_native_host(&event), HostAction::Respond(a) if !a.ok));
    let event = HostEvent::Launched { failure: None };
    assert!(matches!(run_native_host(&event), HostAction::Respond(a) if a.ok));
    let event = HostEvent::Launched { failure: Some("x".to_string()) };
    assert!(matches!(run_native_host(&event),
        HostAction::Respond(a) if a.code == Some("LAUNCH_FAILED")));
    let event = HostEvent::Encoded(vec![b'{', b'}']);
    assert!(matches!(run_native_host(&event), HostAction::Send(b) if b == [2, 0, 0, 0, b'{', b'}']));
}

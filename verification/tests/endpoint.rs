use nysia_core::digest::short_digest;
use nysia_core::endpoint::{
    endpoint_stem, explicit_endpoint, non_empty, sanitize_account, Endpoint, EndpointResolveError,
    EnvSource, EnvVars, Listening, UNIX_SOCKET_PATH_MAX,
};
use nysia_core::wire::Platform;

const VERSION: u32 = 3;

fn source(dir: &str) -> EnvSource {
    EnvSource {
        runtime_dir_override: Some(dir.to_owned()),
        endpoint_override: None,
        home: Some("/home/kacpe".to_owned()),
        xdg_runtime_dir: None,
        account: "kacpe".to_owned(),
        isolated: true,
    }
}

fn pipe_name(env: &EnvSource, dir: &str) -> String {
    format!(r"\\.\pipe\nysiad-v{VERSION}-{}", env.pipe_account(dir))
}

fn resolve(env: &EnvSource, platform: Platform) -> Result<Endpoint, EndpointResolveError> {
    let dir = env.runtime_dir(platform).expect("a directory");
    Endpoint::resolve(VERSION, env, platform, Ok(()), Ok(pipe_name(env, &dir)))
}

#[test]
fn the_runtime_directory_holds_the_lease_the_lock_and_the_log() {
    let dir = "/tmp/nysia-endpoint-layout";
    let endpoint = resolve(&source(dir), Platform::Unix).expect("resolves");
    assert_eq!(endpoint.runtime_dir(), dir);
    let stem = endpoint_stem(VERSION);
    assert_eq!(endpoint.pid_record_path(), format!("{dir}/{stem}.pid.json"));
    assert_eq!(endpoint.lock_path(), format!("{dir}/{stem}.lock"));
    assert_eq!(endpoint.log_path(), format!("{dir}/{stem}.log"));
    assert_eq!(endpoint.window_log_path(), format!("{dir}/{stem}.window.log"));
    assert_ne!(endpoint.window_log_path(), endpoint.log_path());
    assert!(stem.starts_with("nysiad-v"));
    assert_eq!(stem, "nysiad-v3");
    assert_eq!(endpoint.listening().spelling(), "/tmp/nysia-endpoint-layout/nysiad-v3.sock");
}

#[test]
fn an_isolated_runtime_directory_isolates_the_windows_pipe_too() {
    for platform in [Platform::Unix, Platform::Windows] {
        let first = resolve(&source("/tmp/iso-one"), platform).expect("resolves");
        let second = resolve(&source("/tmp/iso-two"), platform).expect("resolves");
        assert_ne!(first.listening().spelling(), second.listening().spelling());
    }
}

#[test]
fn a_domain_qualified_account_is_reduced_to_its_account_half() {
    assert_eq!(sanitize_account(r"CORP\kacpe"), "kacpe");
    assert_eq!(sanitize_account("kac pe"), "kac_pe");
    assert_eq!(sanitize_account(""), "nysia");
    for raw in [r"CORP\kac pe", "", "ünïcode", "a/b\\c"] {
        let account = sanitize_account(raw);
        assert!(!account.is_empty(), "{raw:?} should sanitise to a composable account");
        assert!(
            account.chars().all(|c| c.is_ascii_alphanumeric() || matches!(c, '-' | '_' | '.')),
            "{raw:?} should sanitise to a composable account"
        );
    }
}

#[test]
fn an_endpoint_override_must_be_shaped_for_this_platform() {
    let dir = "/tmp/override";
    for platform in [Platform::Unix, Platform::Windows] {
        let wrong = EnvSource {
            endpoint_override: Some("not-an-endpoint".to_owned()),
            ..source(dir)
        };
        assert!(matches!(
            resolve(&wrong, platform),
            Err(EndpointResolveError::EndpointOverride { .. })
        ));
    }

    let right = EnvSource {
        endpoint_override: Some(r"\\.\pipe\nysiad-v1-test".to_owned()),
        ..source(dir)
    };
    let endpoint = resolve(&right, Platform::Windows).expect("resolves");
    assert!(endpoint.listening().spelling().contains("test"));
    assert!(matches!(endpoint.listening(), Listening::NamedPipe(_)));

    let right = EnvSource {
        endpoint_override: Some("/tmp/nysiad-v1-test.sock".to_owned()),
        ..source(dir)
    };
    let endpoint = resolve(&right, Platform::Unix).expect("resolves");
    assert!(endpoint.listening().spelling().contains("test"));
    assert!(matches!(endpoint.listening(), Listening::UnixSocket(_)));
}

#[test]
fn a_scratch_endpoint_fits_on_every_platform() {
    let name = format!("nys-{}", short_digest(b"a-tag-long-enough-to-have-been-a-problem-1-2"));
    let endpoint = resolve(&source(&format!("/tmp/{name}")), Platform::Unix).expect("resolves");
    if let Listening::UnixSocket(path) = endpoint.listening() {
        assert!(path.len() <= UNIX_SOCKET_PATH_MAX, "{path} is {} bytes", path.len());
    }
}

#[test]
fn a_socket_path_the_kernel_would_truncate_is_refused() {
    let long = format!("/tmp/{}", "n".repeat(UNIX_SOCKET_PATH_MAX));
    match resolve(&source(&long), Platform::Unix) {
        Err(EndpointResolveError::SocketPathTooLong { path, actual }) => {
            assert_eq!(path, format!("{long}/nysiad-v3.sock"));
            assert_eq!(actual, path.len());
        }
        other => panic!("too long, got {other:?}"),
    }
    // The longest that fits, and the first that does not.
    let fits = "n".repeat(UNIX_SOCKET_PATH_MAX - "//nysiad-v3.sock".len());
    assert!(resolve(&source(&format!("/{fits}")), Platform::Unix).is_ok());
    assert!(resolve(&source(&format!("/{fits}n")), Platform::Unix).is_err());
}

#[test]
fn a_directory_that_cannot_be_made_is_named() {
    let env = source("/tmp/denied");
    let err = Endpoint::resolve(VERSION, &env, Platform::Unix, Err("denied".to_owned()), Ok(String::new()))
        .expect_err("a failure");
    assert_eq!(
        err.message(),
        "could not create the nysia runtime directory /tmp/denied: denied"
    );
}

#[test]
fn a_pipe_that_cannot_be_composed_is_an_error_on_windows_alone() {
    let env = source("/tmp/pipe");
    let said = || Err("too long".to_owned());
    let err = Endpoint::resolve(VERSION, &env, Platform::Windows, Ok(()), said()).expect_err("a failure");
    assert_eq!(err.message(), "could not compose the named pipe: too long");
    assert!(Endpoint::resolve(VERSION, &env, Platform::Unix, Ok(()), said()).is_ok());
}

fn vars() -> EnvVars {
    EnvVars {
        runtime_dir: None,
        endpoint: None,
        home: None,
        user_profile: None,
        local_app_data: None,
        xdg_runtime_dir: None,
        username: None,
        user: None,
    }
}

#[test]
fn the_environment_is_read_in_its_own_order() {
    let empty = EnvSource::process(&vars());
    assert_eq!(empty.account, "nysia");
    assert!(!empty.isolated);
    let err = empty.runtime_dir(Platform::Unix).expect_err("nowhere to go");
    assert_eq!(
        err.message(),
        "could not decide where the nysia runtime directory belongs: neither HOME nor USERPROFILE nor LOCALAPPDATA is set; set NYSIA_RUNTIME_DIR to an absolute path you own"
    );

    let full = EnvVars {
        home: Some("/home/me".to_owned()),
        user_profile: Some("C:\\Users\\me".to_owned()),
        xdg_runtime_dir: Some("/run/user/1000".to_owned()),
        username: Some("CORP\\me".to_owned()),
        user: Some("other".to_owned()),
        ..vars()
    };
    let env = EnvSource::process(&full);
    assert_eq!(env.account, "me");
    assert_eq!(env.runtime_dir(Platform::Unix).expect("a directory"), "/run/user/1000/nysia");
    assert_eq!(env.runtime_dir(Platform::Windows).expect("a directory"), "/home/me\\.nysia\\run");
    assert_eq!(env.pipe_account("/run/user/1000/nysia"), "me");

    let moved = EnvVars { runtime_dir: Some("/srv/nysia".to_owned()), ..full };
    let env = EnvSource::process(&moved);
    assert!(env.isolated);
    assert_eq!(env.runtime_dir(Platform::Unix).expect("a directory"), "/srv/nysia");
    assert_eq!(
        env.pipe_account("/srv/nysia"),
        format!("me-{}", short_digest(b"/srv/nysia"))
    );
}

#[test]
fn a_blank_variable_is_an_unset_one() {
    assert_eq!(non_empty(&Some("   ".to_owned())), None);
    assert_eq!(non_empty(&Some(String::new())), None);
    assert_eq!(non_empty(&None), None);
    assert_eq!(non_empty(&Some(" x ".to_owned())).as_deref(), Some(" x "));
}

#[test]
fn an_override_that_does_not_fit_is_quoted_as_the_formatter_quotes_it() {
    let err = explicit_endpoint(Platform::Unix, "not \"an\" endpoint\n").expect_err("does not fit");
    assert_eq!(
        err.message(),
        format!(
            "NYSIA_ENDPOINT is set to {:?}, which is not an absolute unix socket path",
            "not \"an\" endpoint\n"
        )
    );
    let err = explicit_endpoint(Platform::Windows, "/tmp/x.sock").expect_err("does not fit");
    assert_eq!(
        err.message(),
        "NYSIA_ENDPOINT is set to \"/tmp/x.sock\", which is not a named pipe beginning with \\\\.\\pipe\\"
    );
}

#[test]
fn the_digest_is_the_published_fnv_1a() {
    assert_eq!(short_digest(b""), "cbf29ce484222325");
    assert_eq!(short_digest(b"a"), "af63dc4c8601ec8c");
    assert_eq!(short_digest(b"foobar"), "85944171f73967e8");
}

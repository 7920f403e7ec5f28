use zed_markdown_fold::release::{
    asset_name, binary_path, install_step, BinaryLocator, Install, create_dir_message, is_stale_version_dir, next_step,
    not_found_message, plan_asset, platform_target, select_release, version_dir, Arch, Next,
    Observed, Os,
};

#[test]
fn platform_targets() {
    assert_eq!(platform_target(Os::Mac, Arch::Aarch64).as_deref(), Some("aarch64-apple-darwin"));
    assert_eq!(platform_target(Os::Mac, Arch::X8664).as_deref(), Some("x86_64-apple-darwin"));
    assert_eq!(platform_target(Os::Linux, Arch::Aarch64).as_deref(), Some("aarch64-unknown-linux-musl"));
    assert_eq!(platform_target(Os::Linux, Arch::X8664).as_deref(), Some("x86_64-unknown-linux-musl"));
    assert_eq!(platform_target(Os::Windows, Arch::X8664), None);
    assert_eq!(platform_target(Os::Linux, Arch::X86), None);
}

#[test]
fn asset_and_paths() {
    assert_eq!(asset_name("x86_64-unknown-linux-musl"), "md-fold-server-x86_64-unknown-linux-musl.gz");
    assert_eq!(version_dir("v0.3.0"), "md-fold-server-v0.3.0");
    assert_eq!(binary_path("md-fold-server-v0.3.0"), "md-fold-server-v0.3.0/md-fold-server");
    assert_eq!(plan_asset(Os::Mac, Arch::Aarch64), Ok("md-fold-server-aarch64-apple-darwin.gz".to_string()));
    assert_eq!(plan_asset(Os::Windows, Arch::X86), Err("unsupported platform".to_string()));
}

#[test]
fn selecting_the_release_asset() {
    let assets = vec![
        ("other.gz".to_string(), "u1".to_string()),
        ("md-fold-server-x.gz".to_string(), "u2".to_string()),
        ("md-fold-server-x.gz".to_string(), "u3".to_string()),
    ];
    let plan = select_release("md-fold-server-x.gz", "v1", &assets).ok().unwrap();
    assert_eq!(plan.download_url, "u2");
    assert_eq!(plan.version_dir, "md-fold-server-v1");
    assert_eq!(plan.binary_path, "md-fold-server-v1/md-fold-server");
    let err = select_release("md-fold-server-y.gz", "v1", &assets).err().unwrap();
    assert_eq!(err, "no release asset 'md-fold-server-y.gz' found");
}

#[test]
fn stale_release_directories() {
    assert!(is_stale_version_dir("md-fold-server-v0.2.0", "md-fold-server-v0.3.0"));
    assert!(!is_stale_version_dir("md-fold-server-v0.3.0", "md-fold-server-v0.3.0"));
    assert!(!is_stale_version_dir("other", "md-fold-server-v0.3.0"));
    assert!(!is_stale_version_dir("md-fold-server", "md-fold-server-v0.3.0"));
}

#[test]
fn messages() {
    assert_eq!(
        not_found_message(),
        "md-fold-server not found. Create a GitHub release at rsomani95/zed-markdown-fold or place the binary in the extension work directory."
    );
    assert_eq!(create_dir_message("d", "denied"), "failed to create directory 'd': denied");
}

#[test]
fn search_order() {
    assert!(matches!(next_step(Observed::Start { cached: None }), Next::CheckSystemPath));
    assert!(matches!(
        next_step(Observed::Start { cached: Some("p".to_string()) }),
        Next::CheckCachedFile { path } if path == "p"
    ));
    assert!(matches!(
        next_step(Observed::CachedFile { path: "p".to_string(), is_file: true }),
        Next::Found { path } if path == "p"
    ));
    assert!(matches!(
        next_step(Observed::CachedFile { path: "p".to_string(), is_file: false }),
        Next::CheckSystemPath
    ));
    assert!(matches!(
        next_step(Observed::SystemPath { found: Some("/usr/bin/md-fold-server".to_string()) }),
        Next::Found { path } if path == "/usr/bin/md-fold-server"
    ));
    assert!(matches!(next_step(Observed::SystemPath { found: None }), Next::FetchRelease));
    assert!(matches!(
        next_step(Observed::Release { result: Ok("d/b".to_string()) }),
        Next::Found { path } if path == "d/b"
    ));
    assert!(matches!(
        next_step(Observed::Release { result: Err("offline".to_string()) }),
        Next::CheckWorkDir
    ));
    assert!(matches!(
        next_step(Observed::WorkDir { is_file: true }),
        Next::Found { path } if path == "md-fold-server"
    ));
    assert!(matches!(
        next_step(Observed::WorkDir { is_file: false }),
        Next::Failed { message } if message == not_found_message()
    ));
}

#[test]
fn installed_release_is_reused() {
    let assets = vec![("md-fold-server-x.gz".to_string(), "u".to_string())];
    let plan = select_release("md-fold-server-x.gz", "v2", &assets).ok().unwrap();
    assert!(matches!(install_step(plan, true), Install::Reuse { path } if path == "md-fold-server-v2/md-fold-server"));
    let plan = select_release("md-fold-server-x.gz", "v2", &assets).ok().unwrap();
    assert!(matches!(
        install_step(plan, false),
        Install::Download { url, dir, path }
            if url == "u" && dir == "md-fold-server-v2" && path == "md-fold-server-v2/md-fold-server"
    ));
}

#[test]
fn locator_remembers_the_last_path_found() {
    let mut locator = BinaryLocator::new();
    assert_eq!(locator.cached_path(), None);
    assert!(matches!(locator.start(), Next::CheckSystemPath));
    assert!(matches!(locator.observe(Observed::SystemPath { found: None }), Next::FetchRelease));
    assert_eq!(locator.cached_path(), None);
    let next = locator.observe(Observed::Release { result: Ok("md-fold-server-v2/md-fold-server".to_string()) });
    assert!(matches!(next, Next::Found { path } if path == "md-fold-server-v2/md-fold-server"));
    assert_eq!(locator.cached_path().as_deref(), Some("md-fold-server-v2/md-fold-server"));

    // A later search that fails leaves the remembered path alone.
    assert!(matches!(locator.start(), Next::CheckCachedFile { path } if path == "md-fold-server-v2/md-fold-server"));
    locator.observe(Observed::CachedFile { path: "md-fold-server-v2/md-fold-server".to_string(), is_file: false });
    locator.observe(Observed::SystemPath { found: None });
    locator.observe(Observed::Release { result: Err("offline".to_string()) });
    let next = locator.observe(Observed::WorkDir { is_file: false });
    assert!(matches!(next, Next::Failed { .. }));
    assert_eq!(locator.cached_path().as_deref(), Some("md-fold-server-v2/md-fold-server"));

    // The work directory's binary is remembered once found.
    locator.observe(Observed::SystemPath { found: None });
    let next = locator.observe(Observed::WorkDir { is_file: true });
    assert!(matches!(next, Next::Found { path } if path == "md-fold-server"));
    assert_eq!(locator.cached_path().as_deref(), Some("md-fold-server"));
}

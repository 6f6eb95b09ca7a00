use carnival::cli::{Cli, Commands, InstallOpts};
use carnival::error::InstallError;
use carnival::launch::{
    contains, executable_matches, game_command, is_game_executable, launch_command, relative_exe_path, wine_mode,
};
use carnival::library::{check_updates, find_product, resolve_install, resolve_update, InstallInfo};
use carnival::mac::{find_info_plist, MacAppExecutables};
use carnival::paths::{choose_install_path, delta_version, join_path, manifest_file_name, parent_path};
use carnival::product::{
    get_build_manifest_chunks_url, get_build_manifest_url, get_chunk_url, BuildDate, BuildOs,
    Product, ProductVersion,
};

fn version(v: &str, os: BuildOs, secs: i64, text: &str) -> ProductVersion {
    ProductVersion {
        status: 0,
        enabled: 1,
        version: v.to_string(),
        os,
        date: BuildDate { secs, nanos: 0 },
        text: text.to_string(),
    }
}

fn product(slug: &str, versions: Vec<ProductVersion>) -> Product {
    Product {
        namespace: "dev".to_string(),
        slugged_name: slug.to_string(),
        id: 7,
        name: "Game".to_string(),
        id_key_name: "key".to_string(),
        version: versions,
    }
}

fn opts() -> InstallOpts {
    InstallOpts { max_download_workers: 4, max_memory_usage: 1 << 20, info: false, skip_verify: false }
}

#[test]
fn latest_version_per_os() {
    let p = product(
        "game",
        vec![
            version("1.0", BuildOs::Windows, 100, ""),
            version("2.0", BuildOs::Windows, 300, ""),
            version("2.1", BuildOs::Windows, 300, ""),
            version("9.0", BuildOs::Linux, 900, ""),
        ],
    );
    assert_eq!(p.get_latest_version(None, BuildOs::Windows).unwrap().version, "2.0");
    assert_eq!(p.get_latest_version(None, BuildOs::Linux).unwrap().version, "9.0");
    assert!(p.get_latest_version(None, BuildOs::Mac).is_none());
    assert_eq!(p.get_latest_version(Some(&BuildOs::Linux), BuildOs::Windows).unwrap().version, "9.0");
    assert!(p.get_latest_version(Some(&BuildOs::Mac), BuildOs::Linux).is_none());
}

#[test]
fn content_urls() {
    let v = version("1.5", BuildOs::Linux, 0, "");
    let p = product("game", vec![]);
    assert_eq!(
        get_build_manifest_url(&p, &v),
        "https://content.indiegalacdn.com/DevShowCaseSourceVolume/dev_fold_dev/key/lin/1.5_manifest.csv"
    );
    assert_eq!(
        get_build_manifest_chunks_url(&p, &v),
        "https://content.indiegalacdn.com/DevShowCaseSourceVolume/dev_fold_dev/key/lin/1.5_manifest_chunks.csv"
    );
    assert_eq!(
        get_chunk_url(&p, &BuildOs::Mac, &"f_0_abc".to_string()),
        "https://content.indiegalacdn.com/DevShowCaseSourceVolume/dev_fold_dev/key/mac/f_0_abc"
    );
    assert_eq!(BuildOs::Windows.wire_name(), "win");
    assert_eq!(BuildOs::default(), BuildOs::Windows);
    assert_eq!(p.describe(), "[game] Game");
}

#[test]
fn version_description() {
    let v = version("1.5", BuildOs::Mac, 1431648000, "Notes");
    assert_eq!(v.describe(), "[1.5]\nBuild Date: 2015-05-15 00:00:00\nPlatform: macOS\nAbout:\n\nNotes\n");
    let plain = version("2", BuildOs::Windows, 0, "");
    assert_eq!(plain.describe(), "[2]\nBuild Date: 1970-01-01 00:00:00\nPlatform: Windows\n");
}

#[test]
fn install_resolution() {
    let lib = vec![
        product("other", vec![]),
        product("game", vec![version("1.0", BuildOs::Windows, 1, ""), version("1.0", BuildOs::Linux, 2, "")]),
    ];
    let slug = "game".to_string();
    assert_eq!(find_product(&lib, &slug), Some(1));
    assert_eq!(resolve_install(&lib, &slug, None, None, BuildOs::Windows), Ok((1, 0)));
    assert_eq!(resolve_install(&lib, &slug, None, None, BuildOs::Linux), Ok((1, 1)));
    let v = "1.0".to_string();
    assert_eq!(resolve_install(&lib, &slug, Some(&v), Some(BuildOs::Linux), BuildOs::Windows), Ok((1, 1)));
    assert_eq!(
        resolve_install(&lib, &slug, None, Some(BuildOs::Mac), BuildOs::Windows),
        Err(InstallError::VersionNotFound)
    );
    assert_eq!(
        resolve_install(&lib, &"nope".to_string(), None, None, BuildOs::Windows),
        Err(InstallError::NotInLibrary)
    );
}

#[test]
fn update_resolution_and_listing() {
    let lib = vec![product(
        "game",
        vec![version("1.0", BuildOs::Windows, 1, ""), version("2.0", BuildOs::Windows, 2, "")],
    )];
    let slug = "game".to_string();
    let old = InstallInfo::new("/games/game".to_string(), "1.0".to_string(), BuildOs::Windows);
    assert_eq!(resolve_update(&lib, &slug, &old, None), Ok(Some((0, 1))));
    let current = InstallInfo::new("/games/game".to_string(), "2.0".to_string(), BuildOs::Windows);
    assert_eq!(resolve_update(&lib, &slug, &current, None), Ok(None));
    let back = "1.0".to_string();
    assert_eq!(resolve_update(&lib, &slug, &current, Some(&back)), Ok(Some((0, 0))));
    assert_eq!(
        resolve_update(&lib, &slug, &current, Some(&"3.0".to_string())),
        Err(InstallError::VersionNotFound)
    );
    let installed = vec![
        ("game".to_string(), old),
        ("missing".to_string(), InstallInfo::new("/x".to_string(), "1".to_string(), BuildOs::Linux)),
        ("game".to_string(), current),
    ];
    assert_eq!(check_updates(&lib, &installed), vec![("game".to_string(), "2.0".to_string())]);
}

#[test]
fn sync_is_skipped_for_local_commands() {
    let login = Cli { command: Commands::Login { email: "e".to_string(), password: None } };
    assert!(!login.needs_sync());
    assert!(!Cli { command: Commands::Logout }.needs_sync());
    assert!(!Cli { command: Commands::Verify { slug: "g".to_string() } }.needs_sync());
    assert!(!Cli { command: Commands::Uninstall { slug: "g".to_string(), keep: true } }.needs_sync());
    assert!(Cli { command: Commands::Library }.needs_sync());
    assert!(Cli { command: Commands::Update { slug: "g".to_string(), version: None, install_opts: opts() } }
        .needs_sync());
}

#[test]
fn path_helpers() {
    assert_eq!(join_path("/games", "slug"), "/games/slug");
    assert_eq!(join_path("/games/", "slug"), "/games/slug");
    assert_eq!(join_path("", "slug"), "slug");
    assert_eq!(join_path("/games", "/abs"), "/abs");
    assert_eq!(parent_path("a/b/c.plist"), "a/b");
    assert_eq!(parent_path("c.plist"), "");
    assert_eq!(manifest_file_name("1.0", "manifest_chunks"), "1.0_manifest_chunks.csv");
    assert_eq!(delta_version("1.0", "2.0"), "1.0_2.0");
    let slug = "game".to_string();
    let base = "/home/u/Games/carnival".to_string();
    assert_eq!(choose_install_path(&slug, Some("/x".to_string()), None, &base), "/x");
    assert_eq!(choose_install_path(&slug, None, Some("/b".to_string()), &base), "/b/game");
    assert_eq!(choose_install_path(&slug, None, None, &base), "/home/u/Games/carnival/game");
}

#[test]
fn mac_bundle_paths() {
    let plist = find_info_plist("/Apps/Game.app");
    assert_eq!(plist, "/Apps/Game.app/Contents/Info.plist");
    let mut mac = MacAppExecutables::new();
    assert!(mac.executable("Game").is_none());
    mac.set_plist(plist.clone());
    assert_eq!(mac.executable("Game").unwrap(), "/Apps/Game.app/Contents/MacOS/Game");
    let with = MacAppExecutables::with_plist(plist);
    assert!(with.plist.is_some());
}

#[test]
fn game_executable_names() {
    assert!(is_game_executable("Game.exe"));
    assert!(!is_game_executable("SETUP.exe"));
    assert!(!is_game_executable("Unins000.exe"));
    assert!(!is_game_executable("readme.txt"));
    assert!(!is_game_executable(".exe"));
    assert!(is_game_executable("..exe"));
    assert!(executable_matches("Game.exe", "game.exe"));
    assert!(!executable_matches("Game.exe", "my setup.exe"));
    assert!(contains("abcdef", "cde"));
    assert!(contains("abc", ""));
    assert!(!contains("ab", "abc"));
}

#[test]
fn exe_path_without_slug_directory() {
    assert_eq!(relative_exe_path("syberia-ii\\bin\\game.exe", "syberia-ii"), "bin\\game.exe");
    assert_eq!(relative_exe_path("other\\game.exe", "syberia-ii"), "other\\game.exe");
    assert_eq!(relative_exe_path("a.b\\x.exe", "a.b"), "x.exe");
    assert_eq!(relative_exe_path("axb\\x.exe", "a.b"), "axb\\x.exe");
}

#[test]
fn launch_commands() {
    let plain = game_command("/g/game.exe", "", false, "").unwrap();
    assert_eq!(plain.program, "/g/game.exe");
    assert!(plain.args.is_empty());
    let wine = game_command("/g/game.exe", "", true, "/usr/bin/wine").unwrap();
    assert_eq!(wine.program, "/usr/bin/wine");
    assert_eq!(wine.args, vec!["/g/game.exe".to_string()]);
    let wrapped = game_command("/g/game.exe", "gamemoderun --opt 'a b'", true, "/usr/bin/wine").unwrap();
    assert_eq!(wrapped.program, "gamemoderun");
    assert_eq!(wrapped.args, vec!["--opt".to_string(), "a b".to_string(), "/g/game.exe".to_string()]);
    assert!(game_command("/g/game.exe", "bad 'quote", false, "").is_none());
    let words = vec!["env".to_string()];
    let direct = launch_command("/g/x", "env", &words, false, "");
    assert_eq!(direct.program, "env");
    assert_eq!(direct.args, vec!["/g/x".to_string()]);
}

#[test]
fn wine_requirements() {
    assert_eq!(wine_mode(BuildOs::Windows, false, false), None);
    assert_eq!(wine_mode(BuildOs::Windows, true, false), Some(true));
    assert_eq!(wine_mode(BuildOs::Windows, false, true), Some(false));
    assert_eq!(wine_mode(BuildOs::Mac, false, false), Some(false));
}

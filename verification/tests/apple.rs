use ethersync_protocol::bindings::apple::{apple_slice, check_apple_targets, info_plist, library_entry};

fn targets(v: &[&str]) -> Vec<String> {
    v.iter().map(|s| s.to_string()).collect()
}

#[test]
fn apple_targets_map_to_slices() {
    let macos = Some(("macos-arm64_x86_64".to_string(), "macos".to_string(), String::new()));
    assert_eq!(apple_slice("aarch64-apple-darwin"), macos);
    assert_eq!(apple_slice("x86_64-apple-darwin"), macos);
    assert_eq!(apple_slice("aarch64-apple-ios"), Some(("ios-arm64".to_string(), "ios".to_string(), String::new())));
    assert_eq!(
        apple_slice("aarch64-apple-ios-sim"),
        Some((
            "ios-arm64-simulator".to_string(),
            "ios".to_string(),
            "<key>SupportedPlatformVariant</key><string>simulator</string>".to_string()
        ))
    );
    assert_eq!(apple_slice("x86_64-unknown-linux-gnu"), None);
}

#[test]
fn apple_targets_must_be_the_four_once_each() {
    let all = ["aarch64-apple-darwin", "x86_64-apple-darwin", "aarch64-apple-ios", "aarch64-apple-ios-sim"];
    assert_eq!(check_apple_targets(&targets(&all)), Ok(()));
    assert_eq!(
        check_apple_targets(&targets(&["aarch64-apple-darwin", "aarch64-apple-ios"])),
        Err("Intel macOS artifact is required".to_string())
    );
    assert_eq!(
        check_apple_targets(&targets(&["x86_64-apple-darwin", "x86_64-apple-darwin"])),
        Err("duplicate Apple target".to_string())
    );
    assert_eq!(
        check_apple_targets(&targets(&["x86_64-apple-darwin", "wasm32-unknown-unknown"])),
        Err("unsupported Apple aggregate target: wasm32-unknown-unknown".to_string())
    );
    assert_eq!(
        check_apple_targets(&targets(&["x86_64-apple-darwin", "aarch64-apple-ios"])),
        Err("Apple SDK requires both macOS architectures, iOS device, and iOS simulator artifacts".to_string())
    );
}

#[test]
fn info_plist_lists_the_slices() {
    let mac = library_entry("macos-arm64_x86_64", "macos", "");
    assert_eq!(mac, "<dict><key>LibraryIdentifier</key><string>macos-arm64_x86_64</string><key>LibraryPath</key><string>libtidkod_bindings.a</string><key>HeadersPath</key><string>Headers</string><key>SupportedPlatform</key><string>macos</string><key>SupportedArchitectures</key><array><string>arm64</string><string>x86_64</string></array></dict>");
    let sim = library_entry("ios-arm64-simulator", "ios", "<key>SupportedPlatformVariant</key><string>simulator</string>");
    assert!(sim.contains("<string>ios</string><key>SupportedPlatformVariant</key><string>simulator</string><key>SupportedArchitectures</key><array><string>arm64</string></array>"));
    let plist = info_plist(&vec![mac.clone(), sim.clone()]);
    assert!(plist.starts_with("<?xml version=\"1.0\" encoding=\"UTF-8\"?>"));
    assert!(plist.ends_with(&format!("<key>AvailableLibraries</key><array>{mac}{sim}</array></dict></plist>")));
}

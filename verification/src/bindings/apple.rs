//! Aggregating the Apple builds into one SDK: which targets make up the framework, the
//! library slice each becomes, and the framework's `Info.plist`.
use vstd::prelude::*;

use super::same_text;
use super::sig::{concat, lemma_concat_step, views};
use crate::text::push_str;

verus! {

/// The slice a supported Apple target builds: its library identifier, its platform, and
/// the extra `Info.plist` entry that marks a simulator. Both macOS architectures share one
/// slice.
pub open spec fn apple_slice_spec(target: Seq<char>) -> Option<(Seq<char>, Seq<char>, Seq<char>)> {
    if target == "aarch64-apple-darwin"@ || target == "x86_64-apple-darwin"@ {
        Some(("macos-arm64_x86_64"@, "macos"@, Seq::empty()))
    } else if target == "aarch64-apple-ios"@ {
        Some(("ios-arm64"@, "ios"@, Seq::empty()))
    } else if target == "aarch64-apple-ios-sim"@ {
        Some(
            (
                "ios-arm64-simulator"@,
                "ios"@,
                "<key>SupportedPlatformVariant</key><string>simulator</string>"@,
            ),
        )
    } else {
        None
    }
}

pub fn apple_slice(target: &str) -> (r: Option<(String, String, String)>)
    ensures
        match r {
            Some((i, p, v)) => apple_slice_spec(target@) == Some((i@, p@, v@)),
            None => apple_slice_spec(target@) is None,
        },
{
    if same_text(target, "aarch64-apple-darwin") || same_text(target, "x86_64-apple-darwin") {
        Some(("macos-arm64_x86_64".to_owned(), "macos".to_owned(), String::new()))
    } else if same_text(target, "aarch64-apple-ios") {
        Some(("ios-arm64".to_owned(), "ios".to_owned(), String::new()))
    } else if same_text(target, "aarch64-apple-ios-sim") {
        Some(
            (
                "ios-arm64-simulator".to_owned(),
                "ios".to_owned(),
                "<key>SupportedPlatformVariant</key><string>simulator</string>".to_owned(),
            ),
        )
    } else {
        None
    }
}

pub open spec fn intel_target() -> Seq<char> {
    "x86_64-apple-darwin"@
}

/// The first problem among the targets of the builds, in the order they are read: every
/// target is supported and appears once.
pub open spec fn target_scan_error(ts: Seq<Seq<char>>, i: nat) -> Option<Seq<char>>
    decreases ts.len() - i,
{
    if i >= ts.len() {
        None
    } else if ts.take(i as int).contains(ts[i as int]) {
        Some("duplicate Apple target"@)
    } else if apple_slice_spec(ts[i as int]) is None {
        Some("unsupported Apple aggregate target: "@ + ts[i as int])
    } else {
        target_scan_error(ts, i + 1)
    }
}

/// What aggregating builds of the targets `ts` reports: the Intel macOS build must be
/// among them, each target must be supported and appear once, and there must be the four
/// of them (both macOS architectures, iOS device and iOS simulator).
pub open spec fn apple_targets_error(ts: Seq<Seq<char>>) -> Option<Seq<char>> {
    if !ts.contains(intel_target()) {
        Some("Intel macOS artifact is required"@)
    } else {
        match target_scan_error(ts, 0) {
            Some(e) => Some(e),
            None => if ts.len() != 4 {
                Some(
                    "Apple SDK requires both macOS architectures, iOS device, and iOS simulator artifacts"@,
                )
            } else {
                None
            },
        }
    }
}

fn contains_text(v: &Vec<String>, n: usize, t: &str) -> (r: bool)
    requires
        n <= v@.len(),
    ensures
        r == views(v@).take(n as int).contains(t@),
{
    let mut i: usize = 0;
    while i < n
        invariant
            i <= n <= v@.len(),
            forall|j: int| 0 <= j < i ==> v@[j]@ != t@,
        decreases n - i,
    {
        if same_text(v[i].as_str(), t) {
            assert(views(v@).take(n as int)[i as int] == t@);
            return true;
        }
        i = i + 1;
    }
    assert forall|j: int| 0 <= j < n implies views(v@).take(n as int)[j] != t@ by {
        assert(views(v@).take(n as int)[j] == v@[j]@);
    }
    false
}

/// Checks the targets of the builds to aggregate, as `apple_targets_error` orders the
/// problems.
pub fn check_apple_targets(targets: &Vec<String>) -> (r: Result<(), String>)
    ensures
        match r {
            Ok(()) => apple_targets_error(views(targets@)) is None,
            Err(e) => apple_targets_error(views(targets@)) == Some(e@),
        },
{
    let ghost ts = views(targets@);
    assert(ts.take(ts.len() as int) =~= ts);
    if !contains_text(targets, targets.len(), "x86_64-apple-darwin") {
        return Err("Intel macOS artifact is required".to_owned());
    }
    let mut i: usize = 0;
    while i < targets.len()
        invariant
            i <= targets@.len(),
            ts == views(targets@),
            ts.contains(intel_target()),
            target_scan_error(ts, 0) == target_scan_error(ts, i as nat),
        decreases targets@.len() - i,
    {
        let t = targets[i].as_str();
        assert(ts[i as int] == t@);
        if contains_text(targets, i, t) {
            return Err("duplicate Apple target".to_owned());
        }
        if apple_slice(t).is_none() {
            let mut e = "unsupported Apple aggregate target: ".to_owned();
            push_str(&mut e, t);
            return Err(e);
        }
        i = i + 1;
    }
    assert(target_scan_error(ts, i as nat) is None);
    if targets.len() != 4 {
        return Err(
            "Apple SDK requires both macOS architectures, iOS device, and iOS simulator artifacts".to_owned(),
        );
    }
    Ok(())
}

/// The architectures of a platform's slice: a universal macOS library, arm64 elsewhere.
pub open spec fn architectures(platform: Seq<char>) -> Seq<char> {
    if platform == "macos"@ {
        "<string>arm64</string><string>x86_64</string>"@
    } else {
        "<string>arm64</string>"@
    }
}

/// The `Info.plist` entry that describes one library slice of the framework.
pub open spec fn library_entry_spec(identifier: Seq<char>, platform: Seq<char>, variant: Seq<char>) -> Seq<char> {
    "<dict><key>LibraryIdentifier</key><string>"@ + identifier
        + "</string><key>LibraryPath</key><string>libtidkod_bindings.a</string><key>HeadersPath</key><string>Headers</string><key>SupportedPlatform</key><string>"@
        + platform + "</string>"@ + variant + "<key>SupportedArchitectures</key><array>"@
        + architectures(platform) + "</array></dict>"@
}

pub fn library_entry(identifier: &str, platform: &str, variant: &str) -> (r: String)
    ensures
        r@ == library_entry_spec(identifier@, platform@, variant@),
{
    let mut r = "<dict><key>LibraryIdentifier</key><string>".to_owned();
    push_str(&mut r, identifier);
    push_str(
        &mut r,
        "</string><key>LibraryPath</key><string>libtidkod_bindings.a</string><key>HeadersPath</key><string>Headers</string><key>SupportedPlatform</key><string>",
    );
    push_str(&mut r, platform);
    push_str(&mut r, "</string>");
    push_str(&mut r, variant);
    push_str(&mut r, "<key>SupportedArchitectures</key><array>");
    if same_text(platform, "macos") {
        push_str(&mut r, "<string>arm64</string><string>x86_64</string>");
    } else {
        push_str(&mut r, "<string>arm64</string>");
    }
    push_str(&mut r, "</array></dict>");
    assert(r@ =~= library_entry_spec(identifier@, platform@, variant@));
    r
}

/// The framework's `Info.plist`, listing the library entries in order.
pub open spec fn info_plist_spec(entries: Seq<String>) -> Seq<char> {
    "<?xml version=\"1.0\" encoding=\"UTF-8\"?><!DOCTYPE plist PUBLIC \"-//Apple//DTD PLIST 1.0//EN\" \"http://www.apple.com/DTDs/PropertyList-1.0.dtd\"><plist version=\"1.0\"><dict><key>CFBundlePackageType</key><string>XFWK</string><key>XCFrameworkFormatVersion</key><string>1.0</string><key>AvailableLibraries</key><array>"@
        + concat(views(entries)) + "</array></dict></plist>"@
}

pub fn info_plist(entries: &Vec<String>) -> (r: String)
    ensures
        r@ == info_plist_spec(entries@),
{
    let mut s = "<?xml version=\"1.0\" encoding=\"UTF-8\"?><!DOCTYPE plist PUBLIC \"-//Apple//DTD PLIST 1.0//EN\" \"http://www.apple.com/DTDs/PropertyList-1.0.dtd\"><plist version=\"1.0\"><dict><key>CFBundlePackageType</key><string>XFWK</string><key>XCFrameworkFormatVersion</key><string>1.0</string><key>AvailableLibraries</key><array>".to_owned();
    let ghost s0 = s@;
    let ghost p = views(entries@);
    let mut k: usize = 0;
    assert(p.take(0) =~= Seq::<Seq<char>>::empty());
    while k < entries.len()
        invariant
            k <= entries@.len(),
            p == views(entries@),
            s@ == s0 + concat(p.take(k as int)),
        decreases entries@.len() - k,
    {
        proof {
            lemma_concat_step(p, k as int);
        }
        push_str(&mut s, entries[k].as_str());
        k = k + 1;
    }
    assert(p.take(k as int) =~= p);
    push_str(&mut s, "</array></dict></plist>");
    s
}

} // verus!

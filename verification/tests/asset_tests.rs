use harness_mcp::asset::resolve;
use harness_mcp::asset::ArchiveKind;
use harness_mcp::asset::AssetNaming;
use harness_mcp::asset::PlatformTriple;

fn naming() -> AssetNaming {
    AssetNaming {
        binary_name: "harness-mcp-server".to_string(),
        version: "1.0.0".to_string(),
        base_url: "https://releases.example.test/v1.0.0".to_string(),
    }
}

fn platform(os: &str, arch: &str) -> PlatformTriple {
    PlatformTriple { os: os.to_string(), arch: arch.to_string() }
}

#[test]
fn macos_aarch64_asset_name() {
    let d = resolve(&platform("macos", "aarch64"), &naming());
    assert_eq!(d.filename, "harness-mcp-server_1.0.0_darwin_arm64.tar.gz");
    assert_eq!(d.archive_kind, ArchiveKind::GzipTar);
    assert_eq!(
        d.url,
        "https://releases.example.test/v1.0.0/harness-mcp-server_1.0.0_darwin_arm64.tar.gz"
    );
}

#[test]
fn windows_asset_is_zip() {
    let d = resolve(&platform("windows", "x86_64"), &naming());
    assert_eq!(d.archive_kind, ArchiveKind::Zip);
    assert!(d.filename.ends_with(".zip"));
    assert_eq!(d.filename, "harness-mcp-server_1.0.0_windows_amd64.zip");
}

#[test]
fn linux_amd64_asset_name() {
    let d = resolve(&platform("linux", "x86_64"), &naming());
    assert_eq!(d.filename, "harness-mcp-server_1.0.0_linux_amd64.tar.gz");
    assert_eq!(d.archive_kind, ArchiveKind::GzipTar);
}

#[test]
fn resolve_is_deterministic() {
    let d1 = resolve(&platform("macos", "aarch64"), &naming());
    let d2 = resolve(&platform("macos", "aarch64"), &naming());
    assert_eq!(d1.filename, d2.filename);
    assert_eq!(d1.url, d2.url);
    assert_eq!(d1.archive_kind, d2.archive_kind);
}

#[test]
fn unrecognized_platform_passes_through() {
    // Intentional lenience: unlisted identifiers are kept verbatim, at the
    // cost of a possibly-invalid asset name.
    let d = resolve(&platform("freebsd", "riscv64"), &naming());
    assert_eq!(d.filename, "harness-mcp-server_1.0.0_freebsd_riscv64.tar.gz");
    assert_eq!(d.archive_kind, ArchiveKind::GzipTar);
}

#[test]
fn url_embeds_filename() {
    let d = resolve(&platform("linux", "aarch64"), &naming());
    assert!(d.url.ends_with(&d.filename));
    assert!(d.filename.contains("linux"));
    assert!(d.filename.contains("arm64"));
    assert!(d.url.contains("linux"));
    assert!(d.url.contains("arm64"));
}

use vstd::prelude::*;

use crate::text::str_eq;

verus! {

/// How a downloaded artifact is packaged.
#[derive(Clone, Copy, PartialEq, Eq, Structural, Debug)]
pub enum ArchiveKind {
    Plain,
    GzipTar,
    Zip,
}

/// The operating system and processor architecture of the running host,
/// as raw identifier strings (for example `"macos"`, `"x86_64"`).
/// Passed in explicitly so resolution never reads ambient state.
pub struct PlatformTriple {
    pub os: String,
    pub arch: String,
}

/// Deployment configuration for naming release assets: the binary's base
/// name, the release version, and the base URL assets are published under.
pub struct AssetNaming {
    pub binary_name: String,
    pub version: String,
    pub base_url: String,
}

/// A resolved downloadable artifact.
pub struct ArtifactDescriptor {
    pub filename: String,
    pub url: String,
    pub archive_kind: ArchiveKind,
}

/// Canonical operating-system name: `macos` becomes `darwin`; any other
/// identifier passes through verbatim (intentional lenience, so unlisted
/// platforms yield a possibly-invalid asset name rather than an error).
pub open spec fn canonical_os(os: Seq<char>) -> Seq<char> {
    if os == "macos"@ {
        "darwin"@
    } else {
        os
    }
}

/// Canonical architecture name: `x86_64` becomes `amd64`, `aarch64`
/// becomes `arm64`; any other identifier passes through verbatim.
pub open spec fn canonical_arch(arch: Seq<char>) -> Seq<char> {
    if arch == "x86_64"@ {
        "amd64"@
    } else if arch == "aarch64"@ {
        "arm64"@
    } else {
        arch
    }
}

/// Windows assets are zip archives; every other platform uses gzipped tar.
pub open spec fn archive_kind_for(os: Seq<char>) -> ArchiveKind {
    if os == "windows"@ {
        ArchiveKind::Zip
    } else {
        ArchiveKind::GzipTar
    }
}

/// File extension matching `archive_kind_for`.
pub open spec fn extension_for(os: Seq<char>) -> Seq<char> {
    if os == "windows"@ {
        "zip"@
    } else {
        "tar.gz"@
    }
}

/// The asset filename `{binary}_{version}_{os}_{arch}.{ext}`.
pub open spec fn asset_filename(
    binary_name: Seq<char>,
    version: Seq<char>,
    os: Seq<char>,
    arch: Seq<char>,
) -> Seq<char> {
    binary_name + "_"@ + version + "_"@ + canonical_os(os) + "_"@ + canonical_arch(arch) + "."@
        + extension_for(os)
}

/// The download URL `{base_url}/{filename}`.
pub open spec fn asset_url(base_url: Seq<char>, filename: Seq<char>) -> Seq<char> {
    base_url + "/"@ + filename
}

/// What `resolve` promises of its result: the filename follows the naming
/// template, the URL is the base URL plus that same filename (so the two
/// always agree on the platform substrings), and the archive kind matches
/// the platform.
pub open spec fn descriptor_matches(
    d: ArtifactDescriptor,
    os: Seq<char>,
    arch: Seq<char>,
    naming: AssetNaming,
) -> bool {
    &&& d.filename@ == asset_filename(naming.binary_name@, naming.version@, os, arch)
    &&& d.url@ == asset_url(naming.base_url@, d.filename@)
    &&& d.archive_kind == archive_kind_for(os)
}

/// Canonical operating-system name, in executable code.
pub fn canonicalize_os(os: &str) -> (r: String)
    ensures
        r@ == canonical_os(os@),
{
    if str_eq(os, "macos") {
        "darwin".to_owned()
    } else {
        os.to_owned()
    }
}

/// Canonical architecture name, in executable code.
pub fn canonicalize_arch(arch: &str) -> (r: String)
    ensures
        r@ == canonical_arch(arch@),
{
    if str_eq(arch, "x86_64") {
        "amd64".to_owned()
    } else if str_eq(arch, "aarch64") {
        "arm64".to_owned()
    } else {
        arch.to_owned()
    }
}

/// Resolves the artifact filename, download URL and archive kind for a
/// platform. Pure: no filesystem or network access, and the result is a
/// function of the arguments alone.
pub fn resolve(platform: &PlatformTriple, naming: &AssetNaming) -> (d: ArtifactDescriptor)
    ensures
        descriptor_matches(d, platform.os@, platform.arch@, *naming),
{
    let os_name = canonicalize_os(platform.os.as_str());
    let arch_name = canonicalize_arch(platform.arch.as_str());
    let windows = str_eq(platform.os.as_str(), "windows");
    let ext = if windows {
        "zip"
    } else {
        "tar.gz"
    };

    let mut filename = naming.binary_name.clone();
    filename.append("_");
    filename.append(naming.version.as_str());
    filename.append("_");
    filename.append(os_name.as_str());
    filename.append("_");
    filename.append(arch_name.as_str());
    filename.append(".");
    filename.append(ext);

    let mut url = naming.base_url.clone();
    url.append("/");
    url.append(filename.as_str());

    let archive_kind = if windows {
        ArchiveKind::Zip
    } else {
        ArchiveKind::GzipTar
    };

    ArtifactDescriptor { filename, url, archive_kind }
}

/// Resolution is deterministic and pure: any two descriptors resolved from
/// the same platform and naming configuration agree on every field.
pub proof fn lemma_resolve_deterministic(
    d1: ArtifactDescriptor,
    d2: ArtifactDescriptor,
    os: Seq<char>,
    arch: Seq<char>,
    naming: AssetNaming,
)
    requires
        descriptor_matches(d1, os, arch, naming),
        descriptor_matches(d2, os, arch, naming),
    ensures
        d1.filename@ == d2.filename@,
        d1.url@ == d2.url@,
        d1.archive_kind == d2.archive_kind,
{
}

} // verus!

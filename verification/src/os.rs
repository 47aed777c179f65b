use vstd::prelude::*;

verus! {

/// The operating system reported for the host, one variant per identifier the
/// OS-introspection collaborator can report. Artifact selection never keys on
/// a concrete variant directly: it first narrows it with [`OsKind::compact`].
#[derive(Debug, Clone, Copy, PartialEq, Eq, Hash, Structural)]
pub enum OsKind {
    AIX,
    AlmaLinux,
    Alpaquita,
    Alpine,
    ALTLinux,
    Amazon,
    Android,
    AOSC,
    Arch,
    Artix,
    Bazzite,
    Bluefin,
    CachyOS,
    CentOS,
    Cygwin,
    Debian,
    DragonFly,
    Elementary,
    Emscripten,
    EndeavourOS,
    Fedora,
    FreeBSD,
    Garuda,
    Gentoo,
    HardenedBSD,
    Hurd,
    Illumos,
    InstantOS,
    Ios,
    Kali,
    KDENeon,
    Linux,
    Mabox,
    Macos,
    Manjaro,
    Mariner,
    MidnightBSD,
    Mint,
    NetBSD,
    NixOS,
    Nobara,
    OpenBSD,
    OpenCloudOS,
    OpenEuler,
    OpenSUSE,
    OracleLinux,
    PikaOS,
    Pop,
    Raspbian,
    Redhat,
    RedHatEnterprise,
    Redox,
    RockyLinux,
    Solus,
    SUSE,
    Ubuntu,
    Ultramarine,
    Uos,
    Void,
    Zorin,
    Unknown,
    Windows,
}

/// The coarse bucket a host identifier selects artifacts by: Android, Macos,
/// Redox, Unknown and Windows stand for themselves, every other identifier —
/// the Linux-family distributions — collapses to Linux.
pub open spec fn compact_spec(os: OsKind) -> OsKind {
    match os {
        OsKind::Android => OsKind::Android,
        OsKind::Macos => OsKind::Macos,
        OsKind::Redox => OsKind::Redox,
        OsKind::Unknown => OsKind::Unknown,
        OsKind::Windows => OsKind::Windows,
        _ => OsKind::Linux,
    }
}

/// True of the identifiers that pass through bucketing unchanged.
pub open spec fn is_passthrough(os: OsKind) -> bool {
    os == OsKind::Android || os == OsKind::Macos || os == OsKind::Redox || os == OsKind::Unknown
        || os == OsKind::Windows
}

impl OsKind {
    /// Narrows this host identifier to the coarse bucket used for artifact
    /// selection, so one Linux build serves every Linux distribution.
    pub fn compact(self) -> (r: OsKind)
        ensures
            r == compact_spec(self),
    {
        match self {
            OsKind::Android => OsKind::Android,
            OsKind::Macos => OsKind::Macos,
            OsKind::Redox => OsKind::Redox,
            OsKind::Unknown => OsKind::Unknown,
            OsKind::Windows => OsKind::Windows,
            _ => OsKind::Linux,
        }
    }
}

/// Bucketing leaves Android, Macos, Redox, Unknown and Windows unchanged and
/// sends every other identifier — each Linux-family distribution — to the one
/// Linux bucket, so any two of them select the same artifact.
pub proof fn lemma_compact_buckets(a: OsKind, b: OsKind)
    ensures
        is_passthrough(a) ==> compact_spec(a) == a,
        !is_passthrough(a) ==> compact_spec(a) == OsKind::Linux,
        !is_passthrough(a) && !is_passthrough(b) ==> compact_spec(a) == compact_spec(b),
{
}

} // verus!

use release_index::os::OsKind;

#[test]
fn linux_distributions_collapse_to_linux() {
    let distros = [
        OsKind::Ubuntu,
        OsKind::Debian,
        OsKind::Fedora,
        OsKind::Arch,
        OsKind::Alpine,
        OsKind::CentOS,
        OsKind::Mint,
        OsKind::Manjaro,
        OsKind::NixOS,
        OsKind::Raspbian,
        OsKind::SUSE,
        OsKind::OpenSUSE,
        OsKind::OpenEuler,
        OsKind::Gentoo,
        OsKind::Linux,
    ];
    for d in distros {
        assert_eq!(d.compact(), OsKind::Linux);
    }
}

#[test]
fn passthrough_identifiers_keep_their_bucket() {
    assert_eq!(OsKind::Android.compact(), OsKind::Android);
    assert_eq!(OsKind::Macos.compact(), OsKind::Macos);
    assert_eq!(OsKind::Redox.compact(), OsKind::Redox);
    assert_eq!(OsKind::Unknown.compact(), OsKind::Unknown);
    assert_eq!(OsKind::Windows.compact(), OsKind::Windows);
}

#[test]
fn any_two_distributions_share_a_bucket() {
    assert_eq!(OsKind::Ubuntu.compact(), OsKind::Fedora.compact());
    assert_eq!(OsKind::Debian.compact(), OsKind::Arch.compact());
}

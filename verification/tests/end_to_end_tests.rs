use release_index::asset::{Asset, AssetDto};
use release_index::checksum::{verify_download, ChecksumType};
use release_index::error::GitHubApiError;
use release_index::os::OsKind;
use release_index::release::{CachedReleases, Release};
use sha2::Digest;

const PAYLOAD: &[u8] = b"the linux build of the tool";

fn dto(name: &str) -> AssetDto {
    AssetDto::new(
        name.to_string(),
        format!("https://example.invalid/{}", name),
    )
}

fn index_with_one_release() -> CachedReleases {
    let mut assets = Asset::assets_from_dtos(vec![
        dto("tool-linux.tar.gz"),
        dto("tool-linux.tar.gz.sha256"),
        dto("tool-macos.tar.gz"),
    ]);
    let macos = assets.remove(1);
    let linux = assets.remove(0);
    assert_eq!(linux.name(), "tool-linux.tar.gz");
    assert_eq!(macos.name(), "tool-macos.tar.gz");
    let release = Release::new(
        "v3.1.4".to_string(),
        1_600_000_000,
        false,
        vec![(OsKind::Linux, linux), (OsKind::Macos, macos)],
    );
    CachedReleases::new(vec![release])
}

#[test]
fn linux_host_gets_the_paired_artifact_and_verification_succeeds() {
    let idx = index_with_one_release();
    let artifact = idx
        .get_asset_for_os_by_version("v3.1.4".to_string(), OsKind::Ubuntu)
        .expect("version exists")
        .expect("linux build exists");
    assert_eq!(artifact.name(), "tool-linux.tar.gz");
    let (kind, sidecar) = artifact.checksum().as_ref().expect("sidecar paired");
    assert_eq!(*kind, ChecksumType::Sha256);
    assert_eq!(sidecar.name(), "tool-linux.tar.gz.sha256");

    // The sidecar's fetched content is the hex-encoded digest of the bytes.
    let sidecar_text = hex::encode(sha2::Sha256::digest(PAYLOAD));
    assert!(verify_download(*kind, &sidecar_text, PAYLOAD).is_ok());
}

#[test]
fn macos_host_gets_the_unpaired_artifact_with_no_verification_step() {
    let idx = index_with_one_release();
    let artifact = idx
        .get_asset_for_os_by_version("v3.1.4".to_string(), OsKind::Macos)
        .expect("version exists")
        .expect("macos build exists");
    assert_eq!(artifact.name(), "tool-macos.tar.gz");
    assert!(artifact.checksum().is_none());
}

#[test]
fn corrupting_one_byte_yields_wrong_checksum() {
    let idx = index_with_one_release();
    let artifact = idx
        .get_asset_for_os_by_version("v3.1.4".to_string(), OsKind::Ubuntu)
        .expect("version exists")
        .expect("linux build exists");
    let (kind, _) = artifact.checksum().as_ref().expect("sidecar paired");
    let sidecar_text = hex::encode(sha2::Sha256::digest(PAYLOAD));
    let mut corrupted = PAYLOAD.to_vec();
    corrupted[4] ^= 0x20;
    let r = verify_download(*kind, &sidecar_text, &corrupted);
    assert!(matches!(r, Err(GitHubApiError::WrongChecksum)));
}

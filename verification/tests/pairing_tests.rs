use release_index::asset::{Asset, AssetDto};
use release_index::checksum::ChecksumType;

fn dto(name: &str) -> AssetDto {
    AssetDto::new(
        name.to_string(),
        format!("https://example.invalid/{}", name),
    )
}

/// The (primary name, sidecar kind, sidecar name) shape of each artifact,
/// sorted, for order-insensitive comparison.
fn shape(assets: &[Asset]) -> Vec<(String, Option<(ChecksumType, String)>)> {
    let mut v: Vec<(String, Option<(ChecksumType, String)>)> = assets
        .iter()
        .map(|a| {
            (
                a.name(),
                a.checksum().as_ref().map(|(k, d)| (*k, d.name())),
            )
        })
        .collect();
    v.sort_by(|x, y| x.0.cmp(&y.0));
    v
}

#[test]
fn pairs_primary_with_its_sha256_sidecar() {
    let assets = Asset::assets_from_dtos(vec![
        dto("tool-linux.tar.gz"),
        dto("tool-linux.tar.gz.sha256"),
        dto("tool-macos.tar.gz"),
    ]);
    assert_eq!(assets.len(), 2);
    assert_eq!(assets[0].name(), "tool-linux.tar.gz");
    let pair = assets[0].checksum().as_ref().expect("sidecar expected");
    assert_eq!(pair.0, ChecksumType::Sha256);
    assert_eq!(pair.1.name(), "tool-linux.tar.gz.sha256");
    assert_eq!(assets[1].name(), "tool-macos.tar.gz");
    assert!(assets[1].checksum().is_none());
}

#[test]
fn pairs_primary_with_its_sha1_sidecar() {
    let assets = Asset::assets_from_dtos(vec![dto("a.zip.sha1"), dto("a.zip")]);
    assert_eq!(assets.len(), 1);
    let pair = assets[0].checksum().as_ref().expect("sidecar expected");
    assert_eq!(pair.0, ChecksumType::Sha1);
}

#[test]
fn prefers_sha256_when_both_kinds_present() {
    let assets = Asset::assets_from_dtos(vec![
        dto("a.zip.sha1"),
        dto("a.zip"),
        dto("a.zip.sha256"),
    ]);
    assert_eq!(assets.len(), 1);
    let pair = assets[0].checksum().as_ref().expect("sidecar expected");
    assert_eq!(pair.0, ChecksumType::Sha256);
    assert_eq!(pair.1.name(), "a.zip.sha256");
}

#[test]
fn drops_orphan_sidecars() {
    let assets = Asset::assets_from_dtos(vec![dto("lonely.sha256"), dto("b.zip")]);
    assert_eq!(assets.len(), 1);
    assert_eq!(assets[0].name(), "b.zip");
    assert!(assets[0].checksum().is_none());
}

#[test]
fn keeps_primary_order_of_arrival() {
    let assets = Asset::assets_from_dtos(vec![dto("z.zip"), dto("a.zip"), dto("m.zip")]);
    let names: Vec<String> = assets.iter().map(|a| a.name()).collect();
    assert_eq!(names, vec!["z.zip", "a.zip", "m.zip"]);
}

#[test]
fn pairing_ignores_input_order() {
    let files = [
        "tool-linux.tar.gz",
        "tool-linux.tar.gz.sha256",
        "tool-linux.tar.gz.sha1",
        "tool-macos.tar.gz",
        "tool-windows.zip.sha256",
        "tool-windows.zip",
        "orphan.sha1",
    ];
    let forward = Asset::assets_from_dtos(files.iter().map(|n| dto(n)).collect());
    let backward = Asset::assets_from_dtos(files.iter().rev().map(|n| dto(n)).collect());
    let rotated =
        Asset::assets_from_dtos(files.iter().cycle().skip(3).take(files.len()).map(|n| dto(n)).collect());
    assert_eq!(shape(&forward), shape(&backward));
    assert_eq!(shape(&forward), shape(&rotated));
}

#[test]
fn a_sidecar_pairs_with_at_most_one_artifact() {
    // Two primaries share a name; only one sidecar exists, and the first
    // primary consumes it.
    let assets = Asset::assets_from_dtos(vec![
        AssetDto::new("a.zip".to_string(), "https://example.invalid/u0".to_string()),
        AssetDto::new("a.zip".to_string(), "https://example.invalid/u1".to_string()),
        dto("a.zip.sha256"),
    ]);
    assert_eq!(assets.len(), 2);
    assert_eq!(assets[0].download_url(), "https://example.invalid/u0");
    let pair = assets[0].checksum().as_ref().expect("first takes the sidecar");
    assert_eq!(pair.0, ChecksumType::Sha256);
    assert!(assets[1].checksum().is_none());
}

#[test]
fn a_later_duplicate_primary_takes_what_remains() {
    // With both sidecar kinds present, the first primary takes the preferred
    // SHA-256 sidecar and the second is left the SHA-1 one.
    let assets = Asset::assets_from_dtos(vec![
        AssetDto::new("a.zip".to_string(), "https://example.invalid/u0".to_string()),
        AssetDto::new("a.zip".to_string(), "https://example.invalid/u1".to_string()),
        dto("a.zip.sha256"),
        dto("a.zip.sha1"),
    ]);
    assert_eq!(assets.len(), 2);
    let first = assets[0].checksum().as_ref().expect("sidecar expected");
    assert_eq!(first.0, ChecksumType::Sha256);
    let second = assets[1].checksum().as_ref().expect("sidecar expected");
    assert_eq!(second.0, ChecksumType::Sha1);
}

#[test]
fn empty_input_yields_no_artifacts() {
    assert!(Asset::assets_from_dtos(Vec::new()).is_empty());
}

#[test]
fn dto_accessors_return_what_was_stored() {
    let d = AssetDto::new("n.zip".to_string(), "https://example.invalid/n.zip".to_string());
    assert_eq!(d.name(), "n.zip");
    assert_eq!(d.download_url(), "https://example.invalid/n.zip");
    let assets = Asset::assets_from_dtos(vec![d]);
    assert_eq!(assets[0].download_url(), "https://example.invalid/n.zip");
}

use squish::dxt::{compute_compressed_size, CompressionAlgorithm, Format};
use squish::Algorithm;

#[test]
fn test_storage_requirements_dxt1_exact() {
    let estimate = compute_compressed_size(16, 32, Format::Dxt1);
    assert_eq!(estimate, 256);
}

#[test]
fn test_storage_requirements_dxt1_padded() {
    let estimate = compute_compressed_size(15, 30, Format::Dxt1);
    assert_eq!(estimate, 256);
}

#[test]
fn test_storage_requirements_dxt3_exact() {
    let estimate = compute_compressed_size(16, 32, Format::Dxt3);
    assert_eq!(estimate, 512);
}

#[test]
fn test_storage_requirements_dxt3_padded() {
    let estimate = compute_compressed_size(15, 30, Format::Dxt3);
    assert_eq!(estimate, 512);
}

#[test]
fn test_storage_requirements_dxt5_exact() {
    let estimate = compute_compressed_size(16, 32, Format::Dxt5);
    assert_eq!(estimate, 512);
}

#[test]
fn test_storage_requirements_dxt5_padded() {
    let estimate = compute_compressed_size(15, 30, Format::Dxt5);
    assert_eq!(estimate, 512);
}

#[test]
fn historical_names_map_to_present_ones() {
    assert_eq!(Format::Dxt1.to_bc(), squish::Format::Bc1);
    assert_eq!(Format::Dxt3.to_bc(), squish::Format::Bc2);
    assert_eq!(Format::Dxt5.to_bc(), squish::Format::Bc3);
    assert_eq!(CompressionAlgorithm::default().to_algorithm(), Algorithm::ClusterFit);
    assert_eq!(Algorithm::default(), Algorithm::ClusterFit);
    assert_eq!(CompressionAlgorithm::ColourRangeFit.to_algorithm(), Algorithm::RangeFit);
    assert_eq!(
        CompressionAlgorithm::ColourIterativeClusterFit.to_algorithm(),
        Algorithm::IterativeClusterFit
    );
    let params = squish::Params::default();
    assert_eq!(params.algorithm, Algorithm::ClusterFit);
    assert!(!params.weigh_colour_by_alpha);
}

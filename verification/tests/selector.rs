use falcotcp::enums::CompressionAlgorithm;
use falcotcp::heuristics::get_compressor;
use falcotcp::heuristics::select_compressor;
use falcotcp::heuristics::AlgorithmSet;
use falcotcp::heuristics::HeuristicPolicy;

const KIB: usize = 1024;
const MIB: usize = 1048576;

fn set(lzma: bool, gzip: bool, zstd: bool, lz4: bool) -> AlgorithmSet {
    AlgorithmSet { lzma, gzip, zstd, lz4 }
}

#[test]
fn balanced_small_prefers_lzma() {
    // 1 KiB with {LZMA, LZ4} enabled takes LZMA
    let r = select_compressor(KIB, HeuristicPolicy::Balanced, set(true, false, false, true));
    assert_eq!(r, CompressionAlgorithm::Lzma);
}

#[test]
fn balanced_huge_takes_lz4() {
    // 400 MiB with {LZ4, ZSTD} enabled takes LZ4
    let r = select_compressor(400 * MIB, HeuristicPolicy::Balanced, set(false, false, true, true));
    assert_eq!(r, CompressionAlgorithm::Lz4);
}

#[test]
fn balanced_bands() {
    let all = AlgorithmSet { lzma: true, gzip: true, zstd: true, lz4: true };
    assert_eq!(select_compressor(10 * MIB - 1, HeuristicPolicy::Balanced, all), CompressionAlgorithm::Lzma);
    assert_eq!(select_compressor(10 * MIB, HeuristicPolicy::Balanced, all), CompressionAlgorithm::Gzip);
    assert_eq!(select_compressor(200 * MIB - 1, HeuristicPolicy::Balanced, all), CompressionAlgorithm::Gzip);
    assert_eq!(select_compressor(200 * MIB, HeuristicPolicy::Balanced, all), CompressionAlgorithm::Zstd);
    assert_eq!(select_compressor(300 * MIB - 1, HeuristicPolicy::Balanced, all), CompressionAlgorithm::Zstd);
    assert_eq!(select_compressor(300 * MIB, HeuristicPolicy::Balanced, all), CompressionAlgorithm::Lz4);
}

#[test]
fn balanced_falls_through_to_none() {
    let none = set(false, false, false, false);
    assert_eq!(select_compressor(KIB, HeuristicPolicy::Balanced, none), CompressionAlgorithm::Plain);
    assert_eq!(select_compressor(400 * MIB, HeuristicPolicy::Balanced, none), CompressionAlgorithm::Plain);
}

#[test]
fn performance_prefers_lz4() {
    let all = AlgorithmSet { lzma: true, gzip: true, zstd: true, lz4: true };
    assert_eq!(select_compressor(MIB, HeuristicPolicy::Performance, all), CompressionAlgorithm::Lz4);
    assert_eq!(
        select_compressor(MIB, HeuristicPolicy::Performance, set(true, true, true, false)),
        CompressionAlgorithm::Zstd
    );
    assert_eq!(
        select_compressor(MIB, HeuristicPolicy::Performance, set(true, true, false, false)),
        CompressionAlgorithm::Gzip
    );
    // performance never falls back to LZMA
    assert_eq!(
        select_compressor(MIB, HeuristicPolicy::Performance, set(true, false, false, false)),
        CompressionAlgorithm::Plain
    );
}

#[test]
fn ratio_prefers_lzma_at_any_size() {
    let all = AlgorithmSet { lzma: true, gzip: true, zstd: true, lz4: true };
    assert_eq!(select_compressor(KIB, HeuristicPolicy::Ratio, all), CompressionAlgorithm::Lzma);
    assert_eq!(select_compressor(500 * MIB, HeuristicPolicy::Ratio, all), CompressionAlgorithm::Lzma);
    assert_eq!(
        select_compressor(KIB, HeuristicPolicy::Ratio, set(false, true, true, true)),
        CompressionAlgorithm::Zstd
    );
}

#[test]
fn default_selector_is_balanced_with_everything() {
    assert_eq!(get_compressor(KIB), CompressionAlgorithm::Lzma);
    assert_eq!(get_compressor(50 * MIB), CompressionAlgorithm::Gzip);
    assert_eq!(get_compressor(250 * MIB), CompressionAlgorithm::Zstd);
    assert_eq!(get_compressor(400 * MIB), CompressionAlgorithm::Lz4);
}

#[test]
fn wire_values_round_trip() {
    for alg in [
        CompressionAlgorithm::Plain,
        CompressionAlgorithm::Lzma,
        CompressionAlgorithm::Gzip,
        CompressionAlgorithm::Lz4,
        CompressionAlgorithm::Zstd,
    ] {
        assert_eq!(CompressionAlgorithm::from(alg.u8()), alg);
    }
    assert_eq!(CompressionAlgorithm::from(99u8), CompressionAlgorithm::Plain);
    assert_eq!(CompressionAlgorithm::get(), CompressionAlgorithm::Lzma);
}

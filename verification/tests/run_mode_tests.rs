use rabbitink::driver::it8915::{DisplayMode, MemMode};
use rabbitink::imgproc::DitheringMethod;
use rabbitink::run_mode::RunMode;

#[test]
fn test_parse_config_tokens() {
    assert_eq!(
        RunMode::parse_config(b"mono_bayers4"),
        Some(RunMode::Mono(DitheringMethod::Bayers4))
    );
    assert_eq!(
        RunMode::parse_config(b"mono_bayers2"),
        Some(RunMode::Mono(DitheringMethod::Bayers2))
    );
    assert_eq!(
        RunMode::parse_config(b"mono_naive"),
        Some(RunMode::Mono(DitheringMethod::NoDithering))
    );
    assert_eq!(
        RunMode::parse_config(b"mono_8bpp_bayers4"),
        Some(RunMode::MonoForce8bpp(DitheringMethod::Bayers4))
    );
    assert_eq!(
        RunMode::parse_config(b"mono_8bpp_bayers2"),
        Some(RunMode::MonoForce8bpp(DitheringMethod::Bayers2))
    );
    assert_eq!(
        RunMode::parse_config(b"mono_8bpp_naive"),
        Some(RunMode::MonoForce8bpp(DitheringMethod::NoDithering))
    );
    assert_eq!(RunMode::parse_config(b"gray"), Some(RunMode::Gray));
}

#[test]
fn test_parse_config_trims_trailing_whitespace() {
    assert_eq!(RunMode::parse_config(b"gray\n"), Some(RunMode::Gray));
    assert_eq!(
        RunMode::parse_config(b"mono_bayers2 \r\n"),
        Some(RunMode::Mono(DitheringMethod::Bayers2))
    );
}

#[test]
fn test_parse_config_rejects_unknown() {
    // A malformed token is rejected; the caller keeps its previous mode.
    assert_eq!(RunMode::parse_config(b"mono"), None);
    assert_eq!(RunMode::parse_config(b""), None);
    assert_eq!(RunMode::parse_config(b" gray"), None);
    assert_eq!(RunMode::parse_config(b"grayx"), None);
}

#[test]
fn test_mode_tables() {
    let mono = RunMode::Mono(DitheringMethod::Bayers4);
    assert_eq!(mono.display_mode_fast(), DisplayMode::A2);
    assert_eq!(mono.display_mode_slow(), DisplayMode::DU);
    assert_eq!(mono.mem_mode(), MemMode::Mem1bpp);
    assert_eq!(mono.dithering_method(), Some(DitheringMethod::Bayers4));

    let forced = RunMode::MonoForce8bpp(DitheringMethod::Bayers2);
    assert_eq!(forced.display_mode_fast(), DisplayMode::A2);
    assert_eq!(forced.display_mode_slow(), DisplayMode::DU);
    assert_eq!(forced.mem_mode(), MemMode::Mem8bpp);

    assert_eq!(RunMode::Gray.display_mode_fast(), DisplayMode::GL16);
    assert_eq!(RunMode::Gray.display_mode_slow(), DisplayMode::GL16);
    assert_eq!(RunMode::Gray.mem_mode(), MemMode::Mem8bpp);
    assert_eq!(RunMode::Gray.dithering_method(), None);

    assert_eq!(RunMode::default(), RunMode::Mono(DitheringMethod::Bayers4));
}

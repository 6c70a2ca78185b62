use oszdl::cli::Mode;
use oszdl::download::download_url;
use oszdl::download::page_url;
use oszdl::response::Beatmap;
use oszdl::text::sanitize;
use oszdl::text::usize_to_decimal;

fn entry(id: usize, artist: &str, title: &str, creator: &str) -> Beatmap {
    Beatmap {
        artist: artist.to_string(),
        creator: creator.to_string(),
        title: title.to_string(),
        id,
    }
}

#[test]
fn sanitize_replaces_one_illegal_character() {
    assert_eq!(sanitize("A - B (C/D)"), "A - B (C_D)");
}

#[test]
fn sanitize_replaces_every_instance() {
    assert_eq!(sanitize("A<B<C"), "A_B_C");
    assert_eq!(sanitize("\\?<>/:*|\""), "_________");
    assert_eq!(sanitize("a\\b?c<d>e/f:g*h|i\"j"), "a_b_c_d_e_f_g_h_i_j");
}

#[test]
fn sanitize_is_a_fixed_point_on_clean_names() {
    let once = sanitize("A - B (C/D)");
    let twice = sanitize(&once);
    assert_eq!(once, twice);
    assert_eq!(sanitize("plain name"), "plain name");
}

#[test]
fn decimal_rendering_is_exact() {
    assert_eq!(usize_to_decimal(0), "0");
    assert_eq!(usize_to_decimal(7), "7");
    assert_eq!(usize_to_decimal(10), "10");
    assert_eq!(usize_to_decimal(120304), "120304");
    assert_eq!(usize_to_decimal(usize::MAX), usize::MAX.to_string());
}

#[test]
fn display_name_uses_the_fixed_template() {
    let b = entry(42, "Artist", "Title", "Creator");
    assert_eq!(b.display_name(), "Artist - Title (Creator)");
}

#[test]
fn sanitized_name_cleans_the_display_form() {
    let b = entry(42, "A", "B (C/D)", "E");
    assert_eq!(b.sanitized_name(), "A - B (C_D) (E)");
}

#[test]
fn file_name_joins_id_name_and_extension() {
    let b = entry(123, "Ar", "Ti/Tle", "Cr");
    assert_eq!(b.file_name(), "123-Ar - Ti_Tle (Cr).osz");
}

#[test]
fn urls_compose_base_id_and_suffix() {
    assert_eq!(download_url(987654), "https://osu.ppy.sh/beatmapsets/987654/download");
    assert_eq!(page_url(987654), "https://osu.ppy.sh/beatmapsets/987654");
}

#[test]
fn mode_codes_match_the_cli_syntax() {
    assert!(matches!(Mode::from_str("0"), Mode::Standard));
    assert!(matches!(Mode::from_str("1"), Mode::Taiko));
    assert!(matches!(Mode::from_str("2"), Mode::Catch));
    assert!(matches!(Mode::from_str("3"), Mode::Mania));
    assert!(matches!(Mode::from_str("4"), Mode::Any));
    assert!(matches!(Mode::from_str("anything"), Mode::Any));
    assert_eq!(Mode::Standard.code(), 0);
    assert_eq!(Mode::Taiko.code(), 1);
    assert_eq!(Mode::Catch.code(), 2);
    assert_eq!(Mode::Mania.code(), 3);
    assert_eq!(Mode::Any.code(), 4);
}

use hyprlauncher::entry::DesktopEntry;
use hyprlauncher::icon::{cached_icon_file_name, icon_format, sanitize_icon_name, score_icon_path, IconFormat};
use hyprlauncher::labels::{empty_state_message, entry_initial};
use hyprlauncher::pixels::{blend_pixel_rgba, copy_rgba_to_bgra, scale_alpha, TextSurface};
use hyprlauncher::theme::{hex_cut_is_clean, Color, HyprcolorPalette, Theme};

fn palette() -> HyprcolorPalette {
    HyprcolorPalette {
        wallpaper: Some("/walls/sea.png".to_owned()),
        background: "#101820".to_owned(),
        foreground: "#e0e8f0".to_owned(),
        surface: "#202830".to_owned(),
        surface_variant: "#303840".to_owned(),
        accent: "#ff8800".to_owned(),
        accent_1: "#00ff88".to_owned(),
        accent_2: "#8800ff".to_owned(),
        accent_3: "#ff0000".to_owned(),
    }
}

#[test]
fn hex_colors_parse_after_trimming_and_hashes() {
    assert_eq!(Color::from_hex("#1a2B3c"), Some(Color::from_rgb(26, 43, 60)));
    assert_eq!(Color::from_hex("  ##ff0000 "), Some(Color::from_rgb(255, 0, 0)));
    assert_eq!(Color::from_hex("000000"), Some(Color::from_rgb(0, 0, 0)));
    assert_eq!(Color::from_hex("+f+f+f"), Some(Color::from_rgb(15, 15, 15)));
    assert_eq!(Color::from_hex("#12345"), None);
    assert_eq!(Color::from_hex("#1234567"), None);
    assert_eq!(Color::from_hex("gg0000"), None);
    assert_eq!(Color::from_hex("é1234"), None);
    assert!(hex_cut_is_clean("é1234"));
    assert!(!hex_cut_is_clean("aé123"));
    assert!(hex_cut_is_clean("#ffffff"));
}

#[test]
fn colors_are_built_field_by_field() {
    let c = Color::from_rgba(1, 2, 3, 4);
    assert_eq!(c.with_alpha(9), Color::from_rgba(1, 2, 3, 9));
    assert_eq!(Color::from_rgb(1, 2, 3).a, 255);
}

#[test]
fn palette_theme_derives_translucent_colors() {
    let theme = Theme::from_palette(&palette()).ok().unwrap();
    assert_eq!(theme.background, Color::from_rgb(0x10, 0x18, 0x20));
    assert_eq!(theme.muted, Color::from_rgba(0xe0, 0xe8, 0xf0, 160));
    assert_eq!(theme.panel, Color::from_rgba(0x10, 0x18, 0x20, 205));
    assert_eq!(theme.panel_border, Color::from_rgba(0x88, 0x00, 0xff, 72));
    assert_eq!(theme.surface, Color::from_rgba(0x20, 0x28, 0x30, 212));
    assert_eq!(theme.surface_variant, Color::from_rgba(0x30, 0x38, 0x40, 228));
    assert_eq!(theme.accent, Color::from_rgb(0xff, 0x88, 0x00));
    assert_eq!(theme.accent_soft, Color::from_rgba(0x00, 0xff, 0x88, 190));
    assert_eq!(theme.danger, Color::from_rgba(0xff, 0x00, 0x00, 235));
    assert_eq!(theme.wallpaper.as_deref(), Some("/walls/sea.png"));
}

#[test]
fn a_bad_palette_color_names_the_first_offender() {
    let mut p = palette();
    p.surface = "nope".to_owned();
    p.accent_2 = "also bad".to_owned();
    let err = Theme::from_palette(&p).err().unwrap();
    assert_eq!(err.name, "surface");
    assert_eq!(err.value, "nope");
    let theme = Theme::load(Some(&p));
    assert_eq!(theme.background, Theme::fallback().background);
    assert!(theme.wallpaper.is_none());
    let theme = Theme::load(None);
    assert_eq!(theme.accent, Color::from_rgb(223, 171, 154));
    let theme = Theme::load(Some(&palette()));
    assert_eq!(theme.accent, Color::from_rgb(0xff, 0x88, 0x00));
}

#[test]
fn pixels_are_copied_and_blended() {
    let mut canvas = vec![9u8; 10];
    copy_rgba_to_bgra(&mut canvas, &[1, 2, 3, 4, 5, 6, 7, 8, 100]);
    assert_eq!(canvas, vec![3, 2, 1, 4, 7, 6, 5, 8, 9, 9]);

    assert_eq!(scale_alpha(255, 255), 255);
    assert_eq!(scale_alpha(128, 128), 64);
    assert_eq!(scale_alpha(200, 0), 0);

    let mut canvas = vec![0u8, 0, 0, 0, 100, 100, 100, 255];
    blend_pixel_rgba(&mut canvas, 2, 1, 0, Color::from_rgba(255, 0, 0, 51));
    // (255 * 51 + 100 * 204) / 255 = 131, (100 * 204) / 255 = 80, alpha 51 + 204 = 255.
    assert_eq!(canvas, vec![0, 0, 0, 0, 131, 80, 80, 255]);
    let before = canvas.clone();
    blend_pixel_rgba(&mut canvas, 2, 2, 0, Color::from_rgba(255, 0, 0, 255));
    blend_pixel_rgba(&mut canvas, 2, -1, 0, Color::from_rgba(255, 0, 0, 255));
    blend_pixel_rgba(&mut canvas, 2, 0, 0, Color::from_rgba(255, 0, 0, 0));
    assert_eq!(canvas, before);
}

#[test]
fn icon_files_are_scored_by_kind_and_size() {
    assert_eq!(icon_format("/a/b/firefox.PNG"), Some(IconFormat::Raster));
    assert_eq!(icon_format("x.jpeg"), Some(IconFormat::Raster));
    assert_eq!(icon_format("x.svg"), Some(IconFormat::Svg));
    assert_eq!(icon_format("x.xpm"), None);
    assert_eq!(icon_format("noext"), None);
    assert_eq!(
        score_icon_path("/usr/share/icons/hicolor/scalable/apps/firefox.svg", IconFormat::Svg),
        4000 + 2000 + 3000
    );
    assert_eq!(score_icon_path("/usr/share/icons/hicolor/48x48/apps/firefox.png", IconFormat::Raster), 2048);
    assert_eq!(score_icon_path("/usr/share/pixmaps/firefox.png", IconFormat::Raster), 2000);
    assert_eq!(
        score_icon_path("/icons/Adwaita/16x16/Apps/firefox-Symbolic.png", IconFormat::Raster),
        -10000 + 2000 + 16
    );
    assert_eq!(score_icon_path("/x/1024x1024/512x512/a.png", IconFormat::Raster), 1024);
}

#[test]
fn icon_cache_names_keep_safe_characters() {
    assert_eq!(sanitize_icon_name("org.gnome.Files"), "org.gnome.Files");
    assert_eq!(sanitize_icon_name("/usr/share/a b.png"), "_usr_share_a_b.png");
    assert_eq!(sanitize_icon_name(""), "unknown");
    assert_eq!(sanitize_icon_name("ñu"), "_u");
    assert_eq!(cached_icon_file_name("firefox"), "firefox.png");
    assert_eq!(cached_icon_file_name(""), "unknown.png");
}

#[test]
fn empty_state_quotes_the_query() {
    assert_eq!(empty_state_message("   "), "Sin resultados");
    assert_eq!(empty_state_message(" zed "), "Sin resultados para «zed»");
    let long = "abcdefghijklmnopqrstuvwxyz";
    assert_eq!(empty_state_message(long), "Sin resultados para «abcdefghijklmnopqrstuvwx…»");
    let exact = "abcdefghijklmnopqrstuvwx";
    assert_eq!(empty_state_message(exact), "Sin resultados para «abcdefghijklmnopqrstuvwx»");
}

#[test]
fn placeholders_use_the_first_letter() {
    let mut e = DesktopEntry {
        id: "x.desktop".to_owned(),
        name: "  firefox".to_owned(),
        generic_name: None,
        comment: None,
        exec_command: String::new(),
        icon: None,
        source: String::new(),
    };
    assert_eq!(entry_initial(&e), "F");
    e.name = "ßtraße".to_owned();
    assert_eq!(entry_initial(&e), "SS");
    e.name = "--".to_owned();
    assert_eq!(entry_initial(&e), "•");
}

#[test]
fn glyph_pixels_are_clipped_and_scaled_by_coverage() {
    let mut canvas = vec![0u8; 8];
    {
        let mut surface = TextSurface::new(&mut canvas, 2, 1);
        surface.plot(1, 0, Color::from_rgba(200, 100, 50, 255), 128);
        surface.plot(2, 0, Color::from_rgba(255, 255, 255, 255), 255);
        surface.plot(0, 1, Color::from_rgba(255, 255, 255, 255), 255);
        surface.plot(0, 0, Color::from_rgba(255, 255, 255, 255), 0);
        assert_eq!(surface.width, 2);
    }
    // Alpha 255 * 128 / 255 = 128: (200 * 128) / 255 = 100, (100 * 128) / 255 = 50, (50 * 128) / 255 = 25.
    assert_eq!(canvas, vec![0, 0, 0, 0, 100, 50, 25, 128]);
}

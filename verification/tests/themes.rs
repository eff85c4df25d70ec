use shuffle::text::chars_of;
use shuffle::theme::{
    alpha, bg_options, clamp8, dark_theme, hover_options, light_theme, parse_hex_line, presets, scale,
    text_options, theme_file_text, theme_from_text, Theme,
};

#[test]
fn channels_are_scaled_and_clamped() {
    assert_eq!(clamp8(300), 255);
    assert_eq!(clamp8(7), 7);
    assert_eq!(scale(0x80ff01, 3, 2), 0xc0ff01);
    assert_eq!(scale(0xffffff, 2, 1), 0xffffff);
    assert_eq!(scale(0x282a36, 8, 10), 0x20212b);
}

#[test]
fn dark_themes_lighten_surfaces() {
    let t = dark_theme(0x282a36, 0xf8f8f2, 0xbd93f9);
    assert_eq!(t.bg, 0x282a36);
    assert_eq!(t.sidebar, 0x20212b);
    assert_eq!(t.surface, 0x3c3f51);
    assert_eq!(t.hover, 0x343646);
    assert_eq!(t.selected, 0x4c4f66);
    assert_eq!(t.border, 0x383a4b);
    assert_eq!(t.border_strong, 0x50546c);
    assert_eq!(t.text, 0xf8f8f2);
    assert_eq!(t.text_muted, 0xadada9);
    assert_eq!(t.text_dim, 0x7c7c79);
    assert_eq!(t.accent, 0xbd93f9);
}

#[test]
fn light_themes_darken_surfaces() {
    let t = light_theme(0xffffff, 0x24292f, 0x0969da);
    assert_eq!(t.sidebar, 0xf2f2f2);
    assert_eq!(t.surface, 0xe5e5e5);
    assert_eq!(t.hover, 0xededed);
    assert_eq!(t.selected, 0xd6d6d6);
    assert_eq!(t.border, 0xe0e0e0);
    assert_eq!(t.border_strong, 0xcccccc);
    assert_eq!(t.text_muted, 0x2e353d);
    assert_eq!(t.text_dim, 0x39414b);
}

#[test]
fn translucent_colors_append_the_alpha_byte() {
    assert_eq!(alpha(0x123456, 0xf2), 0x123456f2);
    assert_eq!(alpha(0x123456, 0x1ff), 0x123456ff);
    assert_eq!(alpha(0xab123456, 0x80), 0x12345680);
}

#[test]
fn the_presets() {
    let p = presets();
    assert_eq!(p.len(), 28);
    assert_eq!(p[0].0, "Shuffle Dark");
    assert!(p[0].1 == Theme::default());
    assert_eq!(p[3].0, "Catppuccin Frappé");
    assert_eq!(p[5].0, "Dracula");
    assert!(p[5].1 == dark_theme(0x282a36, 0xf8f8f2, 0xbd93f9));
    assert_eq!(p[27].0, "Lavender");
    assert!(p[27].1 == light_theme(0xf6f2fe, 0x4c3a66, 0x8b5cf6));
    assert_eq!(Theme::default().accent, 0x7aa2f7);
    assert_eq!(bg_options().len(), 7);
    assert_eq!(text_options()[5], 0x4c4f69);
    assert_eq!(hover_options()[0], 0x2a2a30);
}

#[test]
fn the_theme_file_has_one_hex_color_per_line() {
    let t = Theme::default();
    let text = theme_file_text(&t);
    assert_eq!(
        text,
        "1e1e22\n17171a\n2f2f3a\n2a2a30\n33334a\n303036\n3a3a44\nf0f0f4\n8a8a92\n6b6b73\n7aa2f7\n"
    );
    let mut dim = t;
    dim.bg = 0x00000a;
    dim.accent = 0xff_00_00_00;
    let text = theme_file_text(&dim);
    assert!(text.starts_with("00000a\n"));
    assert!(text.ends_with("\nff000000\n"));
}

#[test]
fn writing_then_reading_gives_the_theme_back() {
    for (_, t) in presets() {
        assert!(theme_from_text(&theme_file_text(&t)) == t);
    }
    let mut odd = Theme::default();
    odd.text = 0xffff_ffff;
    odd.border = 0;
    assert!(theme_from_text(&theme_file_text(&odd)) == odd);
}

#[test]
fn hex_lines_parse_like_from_str_radix() {
    let p = |s: &str| parse_hex_line(&chars_of(s));
    assert_eq!(p("7aa2f7"), Some(0x7aa2f7));
    assert_eq!(p("+FF"), Some(255));
    assert_eq!(p("ffffffff"), Some(u32::MAX));
    assert_eq!(p("100000000"), None);
    assert_eq!(p("0000000000ff"), Some(255));
    assert_eq!(p("-1"), None);
    assert_eq!(p("+"), None);
    assert_eq!(p(""), None);
    assert_eq!(p("0x12"), None);
}

#[test]
fn damaged_theme_files_give_the_default() {
    assert!(theme_from_text("") == Theme::default());
    assert!(theme_from_text("1\n2\n3\n") == Theme::default());
    let twelve = "1\n".repeat(12);
    assert!(theme_from_text(&twelve) == Theme::default());
    let crlf = "1\r\n2\r\n\r\n3\r\n4\r\nnot hex\r\n5\r\n6\r\n7\r\n8\r\n9\r\na\r\n b \r\n";
    let t = theme_from_text(crlf);
    assert_eq!(t.bg, 1);
    assert_eq!(t.text, 8);
    assert_eq!(t.accent, 0xb);
}
